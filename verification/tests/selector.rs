use selparse::select::{debug_selector, ErrorKind, Segment};

#[test]
fn round_trip_simple_key() {
    let sel = debug_selector(".foo").unwrap();
    assert_eq!(sel.segments(), &vec![Segment::Key(String::from("foo"))]);
}

#[test]
fn round_trip_underscore_key() {
    let sel = debug_selector("._a1_b2").unwrap();
    assert_eq!(sel.segments(), &vec![Segment::Key(String::from("_a1_b2"))]);
}

#[test]
fn chained_dotted_keys() {
    let sel = debug_selector(".a.b").unwrap();
    assert_eq!(
        sel.segments(),
        &vec![
            Segment::Key(String::from("a")),
            Segment::Key(String::from("b")),
        ]
    );
}

#[test]
fn quoted_key_plain() {
    let sel = debug_selector("[\"a b.c\"]").unwrap();
    assert_eq!(sel.segments(), &vec![Segment::Key(String::from("a b.c"))]);
}

#[test]
fn quoted_key_empty() {
    let sel = debug_selector("[\"\"]").unwrap();
    assert_eq!(sel.segments(), &vec![Segment::Key(String::from(""))]);
}

#[test]
fn escaped_quote_inside_key() {
    // selector text: ["a\"b"]  -> one literal quote inside the key
    let sel = debug_selector("[\"a\\\"b\"]").unwrap();
    assert_eq!(sel.segments(), &vec![Segment::Key(String::from("a\"b"))]);
}

#[test]
fn escaped_backslash_inside_key() {
    // selector text: ["x\\y"]  -> one literal backslash inside the key
    let sel = debug_selector("[\"x\\\\y\"]").unwrap();
    assert_eq!(sel.segments(), &vec![Segment::Key(String::from("x\\y"))]);
}

#[test]
fn escape_keeps_any_character() {
    // selector text: ["a\nb"]  -> the escaped 'n' is kept literally, not as
    // a newline
    let sel = debug_selector("[\"a\\nb\"]").unwrap();
    assert_eq!(sel.segments(), &vec![Segment::Key(String::from("anb"))]);
}

#[test]
fn index_positive() {
    let sel = debug_selector("[3]").unwrap();
    assert_eq!(sel.segments(), &vec![Segment::Index(3)]);
}

#[test]
fn index_negative() {
    let sel = debug_selector("[-3]").unwrap();
    assert_eq!(sel.segments(), &vec![Segment::Index(-3)]);
}

#[test]
fn range_both_bounds() {
    let sel = debug_selector("[1:5]").unwrap();
    assert_eq!(sel.segments(), &vec![Segment::Range(1, 5)]);
}

#[test]
fn range_to_only() {
    let sel = debug_selector("[:5]").unwrap();
    assert_eq!(sel.segments(), &vec![Segment::RangeTo(5)]);
}

#[test]
fn range_from_only() {
    let sel = debug_selector("[2:]").unwrap();
    assert_eq!(sel.segments(), &vec![Segment::RangeFrom(2)]);
}

#[test]
fn full_range() {
    let sel = debug_selector("[:]").unwrap();
    assert_eq!(sel.segments(), &vec![Segment::FullRange]);
}

#[test]
fn negative_range_bounds() {
    let sel = debug_selector("[-2:-1]").unwrap();
    assert_eq!(sel.segments(), &vec![Segment::Range(-2, -1)]);
}

#[test]
fn empty_input_is_identity() {
    let sel = debug_selector("").unwrap();
    assert!(sel.segments().is_empty());
}

#[test]
fn sole_dot_is_identity() {
    let sel = debug_selector(".").unwrap();
    assert!(sel.segments().is_empty());
}

#[test]
fn chained_selector_in_order() {
    let sel = debug_selector(".a[0][\"b\"][1:3]").unwrap();
    assert_eq!(
        sel.segments(),
        &vec![
            Segment::Key(String::from("a")),
            Segment::Index(0),
            Segment::Key(String::from("b")),
            Segment::Range(1, 3),
        ]
    );
}

#[test]
fn unterminated_bracket_is_positioned_error() {
    // ".a[": the bracket at offset 2 never closes; the failure is at or
    // after the bracket's column 3
    let err = debug_selector(".a[").unwrap_err();
    assert_eq!(err.kind, ErrorKind::Syntax);
    assert!(err.column() >= 3);
    assert_eq!(err.column(), 4);
    assert_eq!(err.line(), 1);
}

#[test]
fn unterminated_string_is_error() {
    let err = debug_selector("[\"ab").unwrap_err();
    assert_eq!(err.kind, ErrorKind::Syntax);
    assert_eq!(err.column(), 5);
}

#[test]
fn escaped_closing_quote_leaves_string_open() {
    // ["a\"] : the backslash escapes the quote, so the string never closes
    let err = debug_selector("[\"a\\\"]").unwrap_err();
    assert_eq!(err.kind, ErrorKind::Syntax);
    assert_eq!(err.column(), 7);
}

#[test]
fn empty_subscript_is_error() {
    let err = debug_selector("[]").unwrap_err();
    assert_eq!(err.kind, ErrorKind::Syntax);
    assert_eq!(err.column(), 2);
}

#[test]
fn double_dot_is_error() {
    let err = debug_selector("..a").unwrap_err();
    assert_eq!(err.kind, ErrorKind::Syntax);
    assert_eq!(err.column(), 2);
}

#[test]
fn trailing_garbage_is_error() {
    let err = debug_selector(".a!").unwrap_err();
    assert_eq!(err.kind, ErrorKind::Syntax);
    assert_eq!(err.column(), 3);
}

#[test]
fn open_range_missing_bracket_is_error() {
    let err = debug_selector("[3:").unwrap_err();
    assert_eq!(err.kind, ErrorKind::Syntax);
    assert_eq!(err.column(), 4);
}

#[test]
fn minus_without_digits_is_error() {
    let err = debug_selector("[-]").unwrap_err();
    assert_eq!(err.kind, ErrorKind::Syntax);
    assert_eq!(err.column(), 3);
}

#[test]
fn error_on_second_line_reports_line_and_column() {
    // the quoted key swallows the newline, and the string never closes
    let err = debug_selector("[\"a\nb").unwrap_err();
    assert_eq!(err.kind, ErrorKind::Syntax);
    assert_eq!(err.line(), 2);
    assert_eq!(err.column(), 2);
}

#[test]
fn largest_index_fits() {
    let sel = debug_selector("[2147483647]").unwrap();
    assert_eq!(sel.segments(), &vec![Segment::Index(2147483647)]);
}

#[test]
fn smallest_index_fits() {
    let sel = debug_selector("[-2147483648]").unwrap();
    assert_eq!(sel.segments(), &vec![Segment::Index(-2147483648)]);
}

#[test]
fn too_wide_index_is_distinguished_error() {
    let err = debug_selector("[2147483648]").unwrap_err();
    assert_eq!(err.kind, ErrorKind::IntOutOfRange);
    assert_eq!(err.column(), 2);
}

#[test]
fn too_wide_negative_index_is_distinguished_error() {
    let err = debug_selector("[-2147483649]").unwrap_err();
    assert_eq!(err.kind, ErrorKind::IntOutOfRange);
    assert_eq!(err.column(), 2);
}

#[test]
fn syntax_error_wins_over_too_wide_literal() {
    // the first subscript holds an over-wide literal, but the text as a
    // whole is ungrammatical, and that is what is reported
    let err = debug_selector("[99999999999][").unwrap_err();
    assert_eq!(err.kind, ErrorKind::Syntax);
    assert_eq!(err.column(), 15);
}

#[test]
fn leftmost_too_wide_literal_is_reported() {
    let err = debug_selector("[1:99999999999][88888888888]").unwrap_err();
    assert_eq!(err.kind, ErrorKind::IntOutOfRange);
    assert_eq!(err.column(), 4);
}

#[test]
fn syntax_message_names_the_location() {
    let err = debug_selector(".a[").unwrap_err();
    assert_eq!(err.message(), "invalid selector syntax at line 1, column 4");
}

#[test]
fn out_of_range_message_names_the_location() {
    let err = debug_selector("[2147483648]").unwrap_err();
    assert_eq!(err.message(), "integer out of range at line 1, column 2");
}

#[test]
fn message_renders_multi_digit_columns() {
    let err = debug_selector("[99999999999][").unwrap_err();
    assert_eq!(err.message(), "invalid selector syntax at line 1, column 15");
}

#[test]
fn parsing_twice_gives_equal_selectors() {
    let text = ".a[0][\"b c\"][1:3][:4][-5:][:]";
    let first = debug_selector(text).unwrap();
    let second = debug_selector(text).unwrap();
    assert_eq!(first.segments(), second.segments());
}

#[test]
fn parsing_twice_gives_equal_errors() {
    let text = ".a[oops]";
    let first = debug_selector(text).unwrap_err();
    let second = debug_selector(text).unwrap_err();
    assert_eq!(first, second);
}
