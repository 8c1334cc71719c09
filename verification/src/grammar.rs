//! Mathematical model of the selector grammar.
//!
//! A selector is a chain of segments: dotted keys (`.name`), bracketed
//! subscripts (`[3]`, `["a b"]`) and ranges (`[1:5]`, `[:5]`, `[2:]`, `[:]`),
//! ending at end of input.  The functions here define, over a `Seq<char>`,
//! which texts the grammar accepts, which segments they denote, and at which
//! position a malformed text is first rejected.  The executable parser is
//! specified and verified against this model.

use vstd::prelude::*;

verus! {

/// A single navigation step, at the specification level.  Integers are
/// unbounded here; whether they fit the executable representation is a
/// separate question (see [`ParseOutcome::Overflow`]).
pub enum SegModel {
    /// Select a named field or member.
    Key(Seq<char>),
    /// Select the element at a (possibly negative) position.
    Index(int),
    /// All elements with index below the bound.
    RangeTo(int),
    /// All elements with index at or above the bound.
    RangeFrom(int),
    /// All elements with index in the half-open interval.
    Range(int, int),
    /// All elements.
    FullRange,
}

/// What parsing a whole selector text yields: the segments in textual order,
/// or the position (0-based character offset) of the first failure.
pub enum ParseOutcome {
    /// The text is grammatical and denotes these segments.
    Parsed(Seq<SegModel>),
    /// The text is rejected; `pos` is the first offset at which the grammar
    /// could not continue.
    Syntax { pos: int },
    /// The text is grammatical, but an integer literal does not fit the
    /// executable integer type; `pos` is the offset of the first such
    /// literal.  Syntax errors anywhere in the text take precedence.
    Overflow { pos: int },
}

/// One parsing step at a position: end of input, one segment, or a failure.
pub enum Step {
    /// The position is at end of input.
    End,
    /// One segment was read; `ovf` is the offset of its first integer
    /// literal that does not fit `i32`, if any; `next` is the position
    /// after the segment.
    Seg { seg: SegModel, ovf: Option<int>, next: int },
    /// The grammar cannot continue; `pos` is where.
    Fail { pos: int },
}

/// Result of reading one signed integer literal.
pub enum IntScan {
    /// A literal ends at `end` (exclusive) and denotes `value`.
    Found { end: int, value: int },
    /// No literal starts here; `pos` is where a needed character is missing.
    Fail { pos: int },
}

/// Characters that may start an identifier: ASCII letters and underscore.
pub open spec fn is_ident_start_char(c: char) -> bool {
    (65 <= c as u32 && c as u32 <= 90) || (97 <= c as u32 && c as u32 <= 122) || c == '_'
}

/// Characters that may continue an identifier: letters, digits, underscore.
pub open spec fn is_ident_char(c: char) -> bool {
    is_ident_start_char(c) || is_digit_char(c)
}

/// ASCII decimal digits.
pub open spec fn is_digit_char(c: char) -> bool {
    48 <= c as u32 && c as u32 <= 57
}

/// Numeric value of a decimal digit.
pub open spec fn digit_val(c: char) -> int {
    c as u32 - 48
}

/// First position at or after `i` holding no identifier character.
pub open spec fn ident_end(s: Seq<char>, i: int) -> int
    decreases s.len() - i
    when 0 <= i <= s.len()
{
    if i < s.len() && is_ident_char(s[i]) {
        ident_end(s, i + 1)
    } else {
        i
    }
}

/// First position at or after `i` holding no digit.
pub open spec fn digits_end(s: Seq<char>, i: int) -> int
    decreases s.len() - i
    when 0 <= i <= s.len()
{
    if i < s.len() && is_digit_char(s[i]) {
        digits_end(s, i + 1)
    } else {
        i
    }
}

/// Value of a run of digits, most significant first.
pub open spec fn digits_value(s: Seq<char>) -> int
    decreases s.len()
{
    if s.len() == 0 {
        0
    } else {
        digits_value(s.drop_last()) * 10 + digit_val(s.last())
    }
}

/// Reads an optional minus sign and a non-empty digit run starting at `i`.
pub open spec fn scan_int(s: Seq<char>, i: int) -> IntScan {
    if i < s.len() && s[i] == '-' {
        if i + 1 < s.len() && is_digit_char(s[i + 1]) {
            let e = digits_end(s, i + 1);
            IntScan::Found { end: e, value: -digits_value(s.subrange(i + 1, e)) }
        } else {
            IntScan::Fail { pos: i + 1 }
        }
    } else if i < s.len() && is_digit_char(s[i]) {
        let e = digits_end(s, i);
        IntScan::Found { end: e, value: digits_value(s.subrange(i, e)) }
    } else {
        IntScan::Fail { pos: i }
    }
}

/// Whether a mathematical integer fits the executable index type.
pub open spec fn in_i32(v: int) -> bool {
    -2147483648 <= v <= 2147483647
}

/// Offset to report for a literal at `pos` denoting `v`, if `v` is too wide.
pub open spec fn ovf_at(v: int, pos: int) -> Option<int> {
    if in_i32(v) {
        None
    } else {
        Some(pos)
    }
}

/// Position of the closing quote of a string body scanned from `i`, skipping
/// backslash escapes (`\c` stands for `c`, whatever `c` is), or `None` when
/// the string never closes.
pub open spec fn string_close(s: Seq<char>, i: int) -> Option<int>
    decreases s.len() - i
    when 0 <= i <= s.len()
{
    if i >= s.len() {
        None
    } else if s[i] == '"' {
        Some(i)
    } else if s[i] == '\\' {
        if i + 1 < s.len() {
            string_close(s, i + 2)
        } else {
            None
        }
    } else {
        string_close(s, i + 1)
    }
}

/// Unescaping of a quoted key body: a backslash is dropped and the character
/// after it, whatever it is, is kept literally; every other character is kept
/// as it stands; a lone backslash at the end is dropped.
pub open spec fn unescape(s: Seq<char>) -> Seq<char>
    decreases s.len()
{
    if s.len() == 0 {
        Seq::empty()
    } else if s[0] == '\\' {
        if s.len() == 1 {
            Seq::empty()
        } else {
            seq![s[1]] + unescape(s.subrange(2, s.len() as int))
        }
    } else {
        seq![s[0]] + unescape(s.subrange(1, s.len() as int))
    }
}

/// One dotted-key segment; `s[i]` is the dot.
pub open spec fn key_step(s: Seq<char>, i: int) -> Step {
    if i + 1 < s.len() && is_ident_start_char(s[i + 1]) {
        let j = ident_end(s, i + 2);
        Step::Seg { seg: SegModel::Key(s.subrange(i + 1, j)), ovf: None, next: j }
    } else {
        Step::Fail { pos: i + 1 }
    }
}

/// Rest of a subscript that opened with `[:`; `k` is the position after the
/// colon.  Either a full range `[:]` or a bounded prefix `[:n]`.
pub open spec fn colon_step(s: Seq<char>, k: int) -> Step {
    if k < s.len() && s[k] == ']' {
        Step::Seg { seg: SegModel::FullRange, ovf: None, next: k + 1 }
    } else {
        match scan_int(s, k) {
            IntScan::Found { end, value } => {
                if end < s.len() && s[end] == ']' {
                    Step::Seg { seg: SegModel::RangeTo(value), ovf: ovf_at(value, k), next: end + 1 }
                } else {
                    Step::Fail { pos: end }
                }
            },
            IntScan::Fail { pos } => Step::Fail { pos },
        }
    }
}

/// A quoted-key subscript; `s[q]` is the opening quote, and a closing bracket
/// must follow the closing quote.
pub open spec fn string_step(s: Seq<char>, q: int) -> Step {
    match string_close(s, q + 1) {
        None => Step::Fail { pos: s.len() as int },
        Some(c) => {
            if c + 1 < s.len() && s[c + 1] == ']' {
                Step::Seg {
                    seg: SegModel::Key(unescape(s.subrange(q + 1, c))),
                    ovf: None,
                    next: c + 2,
                }
            } else {
                Step::Fail { pos: c + 1 }
            }
        },
    }
}

/// A subscript that opened with an integer literal at `j`: an index `[n]`,
/// a suffix range `[n:]`, or a bounded range `[n:m]`.
pub open spec fn int_subscript_step(s: Seq<char>, j: int) -> Step {
    match scan_int(s, j) {
        IntScan::Fail { pos } => Step::Fail { pos },
        IntScan::Found { end, value } => {
            if end < s.len() && s[end] == ']' {
                Step::Seg { seg: SegModel::Index(value), ovf: ovf_at(value, j), next: end + 1 }
            } else if end < s.len() && s[end] == ':' {
                let f = end + 1;
                if f < s.len() && s[f] == ']' {
                    Step::Seg {
                        seg: SegModel::RangeFrom(value),
                        ovf: ovf_at(value, j),
                        next: f + 1,
                    }
                } else {
                    match scan_int(s, f) {
                        IntScan::Fail { pos } => Step::Fail { pos },
                        IntScan::Found { end: e2, value: v2 } => {
                            if e2 < s.len() && s[e2] == ']' {
                                Step::Seg {
                                    seg: SegModel::Range(value, v2),
                                    ovf: if !in_i32(value) {
                                        Some(j)
                                    } else if !in_i32(v2) {
                                        Some(f)
                                    } else {
                                        None
                                    },
                                    next: e2 + 1,
                                }
                            } else {
                                Step::Fail { pos: e2 }
                            }
                        },
                    }
                }
            } else {
                Step::Fail { pos: end }
            }
        },
    }
}

/// A bracketed segment; `s[i]` is the opening bracket.
pub open spec fn subscript_step(s: Seq<char>, i: int) -> Step {
    let j = i + 1;
    if j >= s.len() {
        Step::Fail { pos: j }
    } else if s[j] == ':' {
        colon_step(s, j + 1)
    } else if s[j] == '"' {
        string_step(s, j)
    } else if s[j] == '-' || is_digit_char(s[j]) {
        int_subscript_step(s, j)
    } else {
        Step::Fail { pos: j }
    }
}

/// One parsing step at position `i` of the segment chain.
pub open spec fn step(s: Seq<char>, i: int) -> Step {
    if i >= s.len() {
        Step::End
    } else if s[i] == '.' {
        key_step(s, i)
    } else if s[i] == '[' {
        subscript_step(s, i)
    } else {
        Step::Fail { pos: i }
    }
}

/// Parses the segment chain from position `i` to end of input.  A syntax
/// failure anywhere wins over an integer-width failure; among the latter the
/// leftmost wins, as the segments are built left to right.
pub open spec fn parse_from(s: Seq<char>, i: int) -> ParseOutcome
    decreases s.len() - i
    when 0 <= i <= s.len()
    via parse_from_decreases
{
    match step(s, i) {
        Step::End => ParseOutcome::Parsed(Seq::empty()),
        Step::Fail { pos } => ParseOutcome::Syntax { pos },
        Step::Seg { seg, ovf, next } => match parse_from(s, next) {
            ParseOutcome::Syntax { pos } => ParseOutcome::Syntax { pos },
            ParseOutcome::Overflow { pos } => match ovf {
                Some(q) => ParseOutcome::Overflow { pos: q },
                None => ParseOutcome::Overflow { pos },
            },
            ParseOutcome::Parsed(rest) => match ovf {
                Some(q) => ParseOutcome::Overflow { pos: q },
                None => ParseOutcome::Parsed(seq![seg] + rest),
            },
        },
    }
}

#[via_fn]
proof fn parse_from_decreases(s: Seq<char>, i: int) {
    lemma_step_bounds(s, i);
}

/// The whole grammar: the sole identity selector `.` stands alone; any other
/// text is a segment chain ending at end of input (the empty text is the
/// empty chain).
pub open spec fn parse_spec(s: Seq<char>) -> ParseOutcome {
    if s.len() == 1 && s[0] == '.' {
        ParseOutcome::Parsed(Seq::empty())
    } else {
        parse_from(s, 0)
    }
}

pub proof fn lemma_ident_end_bounds(s: Seq<char>, i: int)
    requires
        0 <= i <= s.len(),
    ensures
        i <= ident_end(s, i) <= s.len(),
    decreases s.len() - i,
{
    if i < s.len() && is_ident_char(s[i]) {
        lemma_ident_end_bounds(s, i + 1);
    }
}

pub proof fn lemma_digits_end_bounds(s: Seq<char>, i: int)
    requires
        0 <= i <= s.len(),
    ensures
        i <= digits_end(s, i) <= s.len(),
    decreases s.len() - i,
{
    if i < s.len() && is_digit_char(s[i]) {
        lemma_digits_end_bounds(s, i + 1);
    }
}

pub proof fn lemma_string_close_bounds(s: Seq<char>, i: int)
    requires
        0 <= i <= s.len(),
    ensures
        string_close(s, i) matches Some(c) ==> i <= c < s.len() && s[c] == '"',
    decreases s.len() - i,
{
    if i < s.len() && s[i] != '"' {
        if s[i] == '\\' {
            if i + 1 < s.len() {
                lemma_string_close_bounds(s, i + 2);
            }
        } else {
            lemma_string_close_bounds(s, i + 1);
        }
    }
}

pub proof fn lemma_scan_int_bounds(s: Seq<char>, i: int)
    requires
        0 <= i <= s.len(),
    ensures
        scan_int(s, i) matches IntScan::Found { end, .. } ==> i < end <= s.len(),
        scan_int(s, i) matches IntScan::Fail { pos } ==> i <= pos <= i + 1 && pos <= s.len(),
{
    if i < s.len() && s[i] == '-' {
        if i + 1 < s.len() && is_digit_char(s[i + 1]) {
            lemma_digits_end_bounds(s, i + 2);
            assert(digits_end(s, i + 1) == digits_end(s, i + 2));
        }
    } else if i < s.len() && is_digit_char(s[i]) {
        lemma_digits_end_bounds(s, i + 1);
        assert(digits_end(s, i) == digits_end(s, i + 1));
    }
}

/// A successful step moves strictly forward and stays within the text; a
/// failing one points into the text or just past it.
pub proof fn lemma_step_bounds(s: Seq<char>, i: int)
    requires
        0 <= i <= s.len(),
    ensures
        step(s, i) matches Step::Seg { next, .. } ==> i < next <= s.len(),
        step(s, i) matches Step::Seg { ovf: Some(q), .. } ==> 0 <= q <= s.len(),
        step(s, i) matches Step::Fail { pos } ==> 0 <= pos <= s.len(),
{
    if i < s.len() {
        if s[i] == '.' {
            if i + 1 < s.len() && is_ident_start_char(s[i + 1]) {
                lemma_ident_end_bounds(s, i + 2);
            }
        } else if s[i] == '[' {
            let j = i + 1;
            if j < s.len() {
                if s[j] == ':' {
                    lemma_scan_int_bounds(s, j + 1);
                } else if s[j] == '"' {
                    lemma_string_close_bounds(s, j + 1);
                } else if s[j] == '-' || is_digit_char(s[j]) {
                    lemma_scan_int_bounds(s, j);
                    match scan_int(s, j) {
                        IntScan::Found { end, .. } => {
                            if end < s.len() && s[end] == ':' {
                                lemma_scan_int_bounds(s, end + 1);
                            }
                        },
                        IntScan::Fail { .. } => {},
                    }
                }
            }
        }
    }
}

/// 0-based offset of the first character of the line containing `pos`.
pub open spec fn line_start(s: Seq<char>, pos: int) -> int
    decreases pos
    when 0 <= pos <= s.len()
{
    if pos <= 0 {
        0
    } else if s[pos - 1] == '\n' {
        pos
    } else {
        line_start(s, pos - 1)
    }
}

/// 1-based line number of the character offset `pos`.
pub open spec fn line_of(s: Seq<char>, pos: int) -> int
    decreases pos
    when 0 <= pos <= s.len()
{
    if pos <= 0 {
        1
    } else if s[pos - 1] == '\n' {
        line_of(s, pos - 1) + 1
    } else {
        line_of(s, pos - 1)
    }
}

/// 1-based column of the character offset `pos` on its line.
pub open spec fn col_of(s: Seq<char>, pos: int) -> int {
    pos - line_start(s, pos) + 1
}

} // verus!
