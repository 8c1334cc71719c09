//! The selector parser: turns a textual path expression such as
//! `.foo[3]["a.b"][1:5]` into an ordered sequence of [`Segment`]s, or a
//! positioned [`SelectorParseError`].  Verified against the grammar model in
//! [`crate::grammar`].

use vstd::prelude::*;
use vstd::string::StrSliceExecFns;

use crate::grammar::{
    col_of, digits_end, digits_value, ident_end, in_i32, is_digit_char, is_ident_char,
    is_ident_start_char, lemma_scan_int_bounds, lemma_step_bounds, lemma_string_close_bounds,
    line_of, line_start, parse_from, parse_spec, scan_int, step, string_close, unescape, IntScan,
    ParseOutcome, SegModel, Step,
};

verus! {

/// Relies on `String::push`: appends the given character to the end of the
/// string.
pub assume_specification[ String::push ](s: &mut String, ch: char)
    ensures
        final(s)@ == old(s)@.push(ch),
;

/// One navigation step of a parsed selector.
#[derive(Debug, Clone, PartialEq, Eq)]
pub enum Segment {
    /// Select a named field or member.
    Key(String),
    /// Select the element at this position (negative values are preserved
    /// literally; their interpretation belongs to an evaluator).
    Index(i32),
    /// All elements with index below the bound.
    RangeTo(i32),
    /// All elements with index at or above the bound.
    RangeFrom(i32),
    /// Elements with index in the half-open interval.
    Range(i32, i32),
    /// All elements.
    FullRange,
}

impl View for Segment {
    type V = SegModel;

    open spec fn view(&self) -> SegModel {
        match self {
            Segment::Key(k) => SegModel::Key(k@),
            Segment::Index(v) => SegModel::Index(*v as int),
            Segment::RangeTo(v) => SegModel::RangeTo(*v as int),
            Segment::RangeFrom(v) => SegModel::RangeFrom(*v as int),
            Segment::Range(a, b) => SegModel::Range(*a as int, *b as int),
            Segment::FullRange => SegModel::FullRange,
        }
    }
}

/// The models of a sequence of segments, in order.
pub open spec fn seg_views(v: Seq<Segment>) -> Seq<SegModel> {
    v.map_values(|g: Segment| g@)
}

/// An ordered sequence of segments, left-to-right application order.
#[derive(Debug)]
pub struct Selector {
    /// The segments, in textual order.
    pub segments: Vec<Segment>,
}

impl View for Selector {
    type V = Seq<SegModel>;

    open spec fn view(&self) -> Seq<SegModel> {
        seg_views(self.segments@)
    }
}

impl Selector {
    /// The segments of this selector, in textual order.
    pub fn segments(&self) -> (r: &Vec<Segment>)
        ensures
            r@ == self.segments@,
            seg_views(r@) == self@,
    {
        &self.segments
    }
}

/// What went wrong while parsing.
#[derive(Debug, Clone, Copy, PartialEq, Eq)]
pub enum ErrorKind {
    /// The text does not follow the selector grammar.
    Syntax,
    /// The text is grammatical, but an integer literal does not fit `i32`.
    /// This marks a limit of the representation, not of the grammar, and is
    /// kept apart from ordinary syntax errors.
    IntOutOfRange,
}

/// A positioned parse failure.
#[derive(Debug, Clone, Copy, PartialEq, Eq)]
pub struct SelectorParseError {
    /// Which failure this is.
    pub kind: ErrorKind,
    /// 0-based character offset of the failure in the input.
    pub pos: usize,
    /// 1-based line of the failure.
    pub line: usize,
    /// 1-based column of the failure on its line.
    pub col: usize,
}

impl SelectorParseError {
    /// Return the column of where the error occurred.
    pub fn column(&self) -> (c: usize)
        ensures
            c == self.col,
    {
        self.col
    }

    /// Return the line of where the error occurred.
    pub fn line(&self) -> (l: usize)
        ensures
            l == self.line,
    {
        self.line
    }

    /// A human-readable account of the failure and its location.
    pub fn message(&self) -> (m: String)
        ensures
            m@ == message_spec(*self),
    {
        let mut m = String::new();
        proof {
            assert(Seq::<char>::empty() + message_head(self.kind) =~= message_head(self.kind));
        }
        match self.kind {
            ErrorKind::Syntax => m.append("invalid selector syntax at line "),
            ErrorKind::IntOutOfRange => m.append("integer out of range at line "),
        }
        push_dec(&mut m, self.line);
        m.append(", column ");
        push_dec(&mut m, self.col);
        m
    }
}

/// The fixed opening of an error message of this kind.
pub open spec fn message_head(kind: ErrorKind) -> Seq<char> {
    match kind {
        ErrorKind::Syntax => "invalid selector syntax at line "@,
        ErrorKind::IntOutOfRange => "integer out of range at line "@,
    }
}

/// The whole text of an error's message: its kind and its 1-based location.
pub open spec fn message_spec(e: SelectorParseError) -> Seq<char> {
    message_head(e.kind) + dec_str(e.line as int) + ", column "@ + dec_str(e.col as int)
}

/// Decimal digits of `n`, most significant first; empty when `n <= 0`.
pub open spec fn dec_digits(n: int) -> Seq<char>
    decreases n,
{
    if n <= 0 {
        Seq::empty()
    } else {
        dec_digits(n / 10).push(((48 + n % 10) as u8) as char)
    }
}

/// Decimal rendering of a non-negative number.
pub open spec fn dec_str(n: int) -> Seq<char> {
    if n == 0 {
        seq!['0']
    } else {
        dec_digits(n)
    }
}

/// Appends the decimal digits of `n > 0` to `out`, most significant first.
fn push_dec_digits(out: &mut String, n: usize)
    ensures
        final(out)@ == old(out)@ + dec_digits(n as int),
    decreases n,
{
    if n > 0 {
        push_dec_digits(out, n / 10);
        let d: u8 = (n % 10) as u8;
        out.push((48 + d) as char);
        proof {
            assert(out@ =~= old(out)@ + dec_digits(n as int));
        }
    } else {
        proof {
            assert(old(out)@ + dec_digits(0) =~= old(out)@);
        }
    }
}

/// Appends the decimal rendering of `n` to `out`.
fn push_dec(out: &mut String, n: usize)
    ensures
        final(out)@ == old(out)@ + dec_str(n as int),
{
    if n == 0 {
        out.push('0');
        proof {
            assert(out@ =~= old(out)@ + dec_str(0));
        }
    } else {
        push_dec_digits(out, n);
    }
}

/// The error fields agree with the failure offset `pos` in text `s`.
pub open spec fn err_matches(s: Seq<char>, e: SelectorParseError, kind: ErrorKind, pos: int) -> bool {
    &&& e.kind == kind
    &&& e.pos as int == pos
    &&& e.line as int == line_of(s, pos)
    &&& e.col as int == col_of(s, pos)
}

/// Full statement of what `debug_selector` returns for a text `s`: the
/// segments of a grammatical text, or an error positioned exactly where the
/// grammar model places the failure.
pub open spec fn parse_post(s: Seq<char>, r: Result<Selector, SelectorParseError>) -> bool {
    match parse_spec(s) {
        ParseOutcome::Parsed(m) => r matches Ok(sel) && sel@ == m,
        ParseOutcome::Syntax { pos } => r matches Err(e) && err_matches(s, e, ErrorKind::Syntax, pos),
        ParseOutcome::Overflow { pos } => r matches Err(e) && err_matches(
            s,
            e,
            ErrorKind::IntOutOfRange,
            pos,
        ),
    }
}

fn is_digit_c(c: char) -> (b: bool)
    ensures
        b == is_digit_char(c),
{
    let u = c as u32;
    48 <= u && u <= 57
}

fn is_ident_start_c(c: char) -> (b: bool)
    ensures
        b == is_ident_start_char(c),
{
    let u = c as u32;
    (65 <= u && u <= 90) || (97 <= u && u <= 122) || c == '_'
}

fn is_ident_c(c: char) -> (b: bool)
    ensures
        b == is_ident_char(c),
{
    is_ident_start_c(c) || is_digit_c(c)
}

/// First position at or after `i` holding no identifier character.
fn ident_end_exec(s: &Vec<char>, i: usize) -> (j: usize)
    requires
        i <= s@.len(),
    ensures
        j as int == ident_end(s@, i as int),
        i <= j <= s@.len(),
{
    let n = s.len();
    let mut j = i;
    while j < n && is_ident_c(s[j])
        invariant
            i <= j <= n,
            n == s@.len(),
            ident_end(s@, i as int) == ident_end(s@, j as int),
        decreases n - j,
    {
        proof {
            assert(ident_end(s@, j as int) == ident_end(s@, j as int + 1));
        }
        j += 1;
    }
    j
}

/// The characters `s[start..end]`, as a `String`.
fn chars_to_string(s: &Vec<char>, start: usize, end: usize) -> (r: String)
    requires
        start <= end <= s@.len(),
    ensures
        r@ == s@.subrange(start as int, end as int),
{
    let mut out = String::new();
    let mut k = start;
    while k < end
        invariant
            start <= k <= end <= s@.len(),
            out@ == s@.subrange(start as int, k as int),
        decreases end - k,
    {
        out.push(s[k]);
        proof {
            assert(s@.subrange(start as int, k as int).push(s@[k as int]) =~= s@.subrange(
                start as int,
                k as int + 1,
            ));
        }
        k += 1;
    }
    out
}

/// Result of reading one integer literal: the offset after it and its value,
/// `None` standing for a literal too wide for `i32`.
enum IntRead {
    Found { end: usize, value: Option<i32> },
    Fail { pos: usize },
}

spec fn int_read_matches(s: Seq<char>, i: int, r: IntRead) -> bool {
    match (scan_int(s, i), r) {
        (IntScan::Fail { pos }, IntRead::Fail { pos: p }) => p as int == pos,
        (IntScan::Found { end, value }, IntRead::Found { end: e, value: v }) => {
            &&& e as int == end
            &&& match v {
                Some(x) => x as int == value,
                None => !in_i32(value),
            }
        },
        _ => false,
    }
}

/// Reads an optional minus sign and a non-empty digit run starting at `i`.
fn scan_int_exec(s: &Vec<char>, i: usize) -> (r: IntRead)
    requires
        i <= s@.len(),
        s@.len() < usize::MAX,
    ensures
        int_read_matches(s@, i as int, r),
{
    let n = s.len();
    let neg = i < n && s[i] == '-';
    let dstart = if neg {
        i + 1
    } else {
        i
    };
    if dstart >= n || !is_digit_c(s[dstart]) {
        return IntRead::Fail { pos: dstart };
    }
    let mut k = dstart;
    let mut acc: u64 = 0;
    let mut big = false;
    while k < n && is_digit_c(s[k])
        invariant
            dstart <= k <= n,
            n == s@.len(),
            digits_end(s@, dstart as int) == digits_end(s@, k as int),
            !big ==> acc as int == digits_value(s@.subrange(dstart as int, k as int)) && acc
                <= 2147483648,
            big ==> digits_value(s@.subrange(dstart as int, k as int)) > 2147483648,
        decreases n - k,
    {
        let c = s[k];
        let d: u32 = (c as u32) - 48;
        proof {
            assert(digits_end(s@, k as int) == digits_end(s@, k as int + 1));
            assert(s@.subrange(dstart as int, k as int + 1).drop_last() =~= s@.subrange(
                dstart as int,
                k as int,
            ));
            assert(s@.subrange(dstart as int, k as int + 1).last() == s@[k as int]);
        }
        if big {
            proof {
                assert(digits_value(s@.subrange(dstart as int, k as int + 1)) > 2147483648);
            }
        } else {
            let next: u64 = acc * 10 + (d as u64);
            if next > 2147483648 {
                big = true;
            } else {
                acc = next;
            }
        }
        k += 1;
    }
    proof {
        assert(digits_end(s@, k as int) == k as int);
    }
    let end = k;
    if neg {
        if big {
            IntRead::Found { end, value: None }
        } else if acc == 2147483648 {
            IntRead::Found { end, value: Some(i32::MIN) }
        } else {
            IntRead::Found { end, value: Some(-(acc as i32)) }
        }
    } else {
        if big || acc > 2147483647 {
            IntRead::Found { end, value: None }
        } else {
            IntRead::Found { end, value: Some(acc as i32) }
        }
    }
}

/// Unescapes the raw body `s[start..close]` of a quoted key.
fn unescape_exec(s: &Vec<char>, start: usize, close: usize) -> (key: String)
    requires
        start <= close <= s@.len(),
    ensures
        key@ == unescape(s@.subrange(start as int, close as int)),
{
    let mut out = String::new();
    let mut k = start;
    while k < close
        invariant
            start <= k <= close <= s@.len(),
            out@ + unescape(s@.subrange(k as int, close as int)) == unescape(
                s@.subrange(start as int, close as int),
            ),
        decreases close - k,
    {
        let ghost sub = s@.subrange(k as int, close as int);
        let ghost prev = out@;
        let c = s[k];
        if c == '\\' {
            if k + 1 < close {
                out.push(s[k + 1]);
                proof {
                    assert(sub.subrange(2, sub.len() as int) =~= s@.subrange(
                        k as int + 2,
                        close as int,
                    ));
                    assert(unescape(sub) == seq![s@[k as int + 1]] + unescape(
                        s@.subrange(k as int + 2, close as int),
                    ));
                    assert(prev.push(s@[k as int + 1]) + unescape(
                        s@.subrange(k as int + 2, close as int),
                    ) =~= prev + unescape(sub));
                }
                k += 2;
            } else {
                proof {
                    assert(sub.len() == 1);
                    assert(unescape(sub) =~= Seq::<char>::empty());
                    assert(prev + unescape(s@.subrange(k as int + 1, close as int)) =~= prev
                        + unescape(sub));
                }
                k += 1;
            }
        } else {
            out.push(c);
            proof {
                assert(sub.subrange(1, sub.len() as int) =~= s@.subrange(
                    k as int + 1,
                    close as int,
                ));
                assert(unescape(sub) == seq![s@[k as int]] + unescape(
                    s@.subrange(k as int + 1, close as int),
                ));
                assert(prev.push(s@[k as int]) + unescape(s@.subrange(k as int + 1, close as int))
                    =~= prev + unescape(sub));
            }
            k += 1;
        }
    }
    proof {
        assert(unescape(s@.subrange(close as int, close as int)) =~= Seq::<char>::empty());
        assert(out@ =~= unescape(s@.subrange(start as int, close as int)));
    }
    out
}

/// Scans a quoted key from its opening quote at `q`: finds the closing quote
/// and unescapes the body, or reports that the string never closes.
fn scan_string_exec(s: &Vec<char>, q: usize) -> (r: Option<(usize, String)>)
    requires
        q < s@.len(),
        s@[q as int] == '"',
        s@.len() < usize::MAX,
    ensures
        match r {
            None => string_close(s@, q as int + 1) is None,
            Some((c, key)) => {
                &&& string_close(s@, q as int + 1) == Some(c as int)
                &&& key@ == unescape(s@.subrange(q as int + 1, c as int))
            },
        },
{
    let n = s.len();
    let mut k = q + 1;
    while k < n
        invariant
            q + 1 <= k <= n,
            n == s@.len(),
            string_close(s@, q as int + 1) == string_close(s@, k as int),
        decreases n - k,
    {
        let c = s[k];
        if c == '"' {
            let key = unescape_exec(s, q + 1, k);
            return Some((k, key));
        } else if c == '\\' {
            if k + 1 < n {
                proof {
                    assert(string_close(s@, k as int) == string_close(s@, k as int + 2));
                }
                k += 2;
            } else {
                return None;
            }
        } else {
            proof {
                assert(string_close(s@, k as int) == string_close(s@, k as int + 1));
            }
            k += 1;
        }
    }
    None
}

/// One parsing step at `i`: end of input, one segment (its value, or the
/// offset of an over-wide integer literal), or a failure offset.
enum StepRead {
    End,
    Seg { seg: Option<Segment>, ovf: Option<usize>, next: usize },
    Fail { pos: usize },
}

spec fn step_matches(s: Seq<char>, i: int, r: StepRead) -> bool {
    match (step(s, i), r) {
        (Step::End, StepRead::End) => true,
        (Step::Fail { pos }, StepRead::Fail { pos: p }) => p as int == pos,
        (Step::Seg { seg, ovf, next }, StepRead::Seg { seg: sg, ovf: o, next: nx }) => {
            &&& nx as int == next
            &&& match (ovf, o) {
                (None, None) => sg matches Some(g) && g@ == seg,
                (Some(q), Some(p)) => p as int == q,
                _ => false,
            }
        },
        _ => false,
    }
}

fn step_exec(s: &Vec<char>, i: usize) -> (r: StepRead)
    requires
        i <= s@.len(),
        s@.len() < usize::MAX,
    ensures
        step_matches(s@, i as int, r),
{
    let n = s.len();
    if i >= n {
        return StepRead::End;
    }
    let c0 = s[i];
    if c0 == '.' {
        if i + 1 < n && is_ident_start_c(s[i + 1]) {
            let j = ident_end_exec(s, i + 2);
            let key = chars_to_string(s, i + 1, j);
            StepRead::Seg { seg: Some(Segment::Key(key)), ovf: None, next: j }
        } else {
            StepRead::Fail { pos: i + 1 }
        }
    } else if c0 == '[' {
        let j = i + 1;
        if j >= n {
            return StepRead::Fail { pos: j };
        }
        let c1 = s[j];
        if c1 == ':' {
            let k = j + 1;
            if k < n && s[k] == ']' {
                StepRead::Seg { seg: Some(Segment::FullRange), ovf: None, next: k + 1 }
            } else {
                match scan_int_exec(s, k) {
                    IntRead::Fail { pos } => StepRead::Fail { pos },
                    IntRead::Found { end, value } => {
                        proof {
                            lemma_scan_int_bounds(s@, k as int);
                        }
                        if end < n && s[end] == ']' {
                            match value {
                                Some(v) => StepRead::Seg {
                                    seg: Some(Segment::RangeTo(v)),
                                    ovf: None,
                                    next: end + 1,
                                },
                                None => StepRead::Seg { seg: None, ovf: Some(k), next: end + 1 },
                            }
                        } else {
                            StepRead::Fail { pos: end }
                        }
                    },
                }
            }
        } else if c1 == '"' {
            match scan_string_exec(s, j) {
                None => StepRead::Fail { pos: n },
                Some((close, key)) => {
                    proof {
                        lemma_string_close_bounds(s@, j as int + 1);
                    }
                    if close + 1 < n && s[close + 1] == ']' {
                        StepRead::Seg { seg: Some(Segment::Key(key)), ovf: None, next: close + 2 }
                    } else {
                        StepRead::Fail { pos: close + 1 }
                    }
                },
            }
        } else if c1 == '-' || is_digit_c(c1) {
            match scan_int_exec(s, j) {
                IntRead::Fail { pos } => StepRead::Fail { pos },
                IntRead::Found { end, value } => {
                    proof {
                        lemma_scan_int_bounds(s@, j as int);
                    }
                    if end < n && s[end] == ']' {
                        match value {
                            Some(v) => StepRead::Seg {
                                seg: Some(Segment::Index(v)),
                                ovf: None,
                                next: end + 1,
                            },
                            None => StepRead::Seg { seg: None, ovf: Some(j), next: end + 1 },
                        }
                    } else if end < n && s[end] == ':' {
                        let f = end + 1;
                        if f < n && s[f] == ']' {
                            match value {
                                Some(v) => StepRead::Seg {
                                    seg: Some(Segment::RangeFrom(v)),
                                    ovf: None,
                                    next: f + 1,
                                },
                                None => StepRead::Seg { seg: None, ovf: Some(j), next: f + 1 },
                            }
                        } else {
                            match scan_int_exec(s, f) {
                                IntRead::Fail { pos } => StepRead::Fail { pos },
                                IntRead::Found { end: e2, value: v2 } => {
                                    proof {
                                        lemma_scan_int_bounds(s@, f as int);
                                    }
                                    if e2 < n && s[e2] == ']' {
                                        match (value, v2) {
                                            (Some(a), Some(b)) => StepRead::Seg {
                                                seg: Some(Segment::Range(a, b)),
                                                ovf: None,
                                                next: e2 + 1,
                                            },
                                            (None, _) => StepRead::Seg {
                                                seg: None,
                                                ovf: Some(j),
                                                next: e2 + 1,
                                            },
                                            (Some(_), None) => StepRead::Seg {
                                                seg: None,
                                                ovf: Some(f),
                                                next: e2 + 1,
                                            },
                                        }
                                    } else {
                                        StepRead::Fail { pos: e2 }
                                    }
                                },
                            }
                        }
                    } else {
                        StepRead::Fail { pos: end }
                    }
                },
            }
        } else {
            StepRead::Fail { pos: j }
        }
    } else {
        StepRead::Fail { pos: i }
    }
}

/// How far a run of the parser has come: the segments already built, the
/// offset of the first over-wide literal if one was seen, and the outcome of
/// the rest of the text combine into the outcome of the whole text.
spec fn combine(prefix: Seq<SegModel>, pend: Option<int>, rest: ParseOutcome) -> ParseOutcome {
    match rest {
        ParseOutcome::Syntax { pos } => ParseOutcome::Syntax { pos },
        ParseOutcome::Overflow { pos } => match pend {
            Some(q) => ParseOutcome::Overflow { pos: q },
            None => ParseOutcome::Overflow { pos },
        },
        ParseOutcome::Parsed(m) => match pend {
            Some(q) => ParseOutcome::Overflow { pos: q },
            None => ParseOutcome::Parsed(prefix + m),
        },
    }
}

spec fn opt_pos(o: Option<usize>) -> Option<int> {
    match o {
        Some(p) => Some(p as int),
        None => None,
    }
}

/// The grammar engine's outcome on a text held as characters.
pub enum RawParse {
    /// The text is grammatical and denotes these segments.
    Parsed(Vec<Segment>),
    /// The grammar rejects the text at this offset.
    Syntax { pos: usize },
    /// The text is grammatical but an integer literal at this offset does
    /// not fit `i32`.
    Overflow { pos: usize },
}

/// The executable outcome agrees with the grammar model on `s`.
pub open spec fn raw_matches(s: Seq<char>, r: RawParse) -> bool {
    match (parse_spec(s), r) {
        (ParseOutcome::Parsed(m), RawParse::Parsed(v)) => seg_views(v@) == m,
        (ParseOutcome::Syntax { pos }, RawParse::Syntax { pos: p }) => p as int == pos,
        (ParseOutcome::Overflow { pos }, RawParse::Overflow { pos: p }) => p as int == pos,
        _ => false,
    }
}

/// The grammar engine and selector builder in one pass.
pub struct SelectParser;

impl SelectParser {
    /// Parses a whole selector text, held as its characters.
    pub fn parse(s: &Vec<char>) -> (r: RawParse)
        requires
            s@.len() < usize::MAX,
        ensures
            raw_matches(s@, r),
    {
        let n = s.len();
        if n == 1 && s[0] == '.' {
            let segments: Vec<Segment> = Vec::new();
            proof {
                assert(seg_views(segments@) =~= Seq::<SegModel>::empty());
            }
            return RawParse::Parsed(segments);
        }
        let mut i: usize = 0;
        let mut segs: Vec<Segment> = Vec::new();
        let mut ovf: Option<usize> = None;
        proof {
            assert(seg_views(segs@) =~= Seq::<SegModel>::empty());
        }
        loop
            invariant
                i <= n,
                n == s@.len(),
                s@.len() < usize::MAX,
                combine(seg_views(segs@), opt_pos(ovf), parse_from(s@, i as int)) == parse_from(
                    s@,
                    0,
                ),
                parse_spec(s@) == parse_from(s@, 0),
            decreases n - i,
        {
            let st = step_exec(s, i);
            proof {
                lemma_step_bounds(s@, i as int);
            }
            match st {
                StepRead::End => {
                    proof {
                        assert(parse_from(s@, i as int) == ParseOutcome::Parsed(
                            Seq::<SegModel>::empty(),
                        ));
                    }
                    match ovf {
                        Some(p) => {
                            return RawParse::Overflow { pos: p };
                        },
                        None => {
                            proof {
                                assert(seg_views(segs@) + Seq::<SegModel>::empty() =~= seg_views(
                                    segs@,
                                ));
                            }
                            return RawParse::Parsed(segs);
                        },
                    }
                },
                StepRead::Fail { pos } => {
                    return RawParse::Syntax { pos };
                },
                StepRead::Seg { seg, ovf: o, next } => {
                    let ghost stp = step(s@, i as int);
                    let ghost rest = parse_from(s@, stp->next);
                    proof {
                        assert(stp is Seg);
                        assert(stp->next == next as int);
                        assert(parse_from(s@, i as int) == (match rest {
                            ParseOutcome::Syntax { pos } => ParseOutcome::Syntax { pos },
                            ParseOutcome::Overflow { pos } => match stp->ovf {
                                Some(q) => ParseOutcome::Overflow { pos: q },
                                None => ParseOutcome::Overflow { pos },
                            },
                            ParseOutcome::Parsed(r2) => match stp->ovf {
                                Some(q) => ParseOutcome::Overflow { pos: q },
                                None => ParseOutcome::Parsed(seq![stp->seg] + r2),
                            },
                        }));
                    }
                    match o {
                        Some(p) => {
                            if ovf.is_none() {
                                ovf = Some(p);
                            }
                        },
                        None => {
                            if ovf.is_none() {
                                let g = seg.unwrap();
                                let ghost old_segs = segs@;
                                segs.push(g);
                                proof {
                                    match rest {
                                        ParseOutcome::Parsed(r2) => {
                                            assert(seg_views(old_segs.push(g)) =~= seg_views(
                                                old_segs,
                                            ).push(g@));
                                            assert(seg_views(old_segs).push(g@) + r2
                                                =~= seg_views(old_segs) + (seq![stp->seg] + r2));
                                        },
                                        _ => {},
                                    }
                                    assert(seg_views(segs@) == seg_views(old_segs.push(g)));
                                }
                            }
                        },
                    }
                    i = next;
                },
            }
        }
    }
}

/// The characters of a text, in order.
fn str_to_chars(s: &str) -> (v: Vec<char>)
    ensures
        v@ == s@,
{
    let n = s.unicode_len();
    let mut v: Vec<char> = Vec::new();
    let mut i: usize = 0;
    while i < n
        invariant
            i <= n,
            n == s@.len(),
            v@ == s@.subrange(0, i as int),
        decreases n - i,
    {
        v.push(s.get_char(i));
        proof {
            assert(s@.subrange(0, i as int).push(s@[i as int]) =~= s@.subrange(0, i as int + 1));
        }
        i += 1;
    }
    proof {
        assert(v@ =~= s@);
    }
    v
}

/// 1-based line and column of the character offset `pos`.
fn line_col_exec(s: &Vec<char>, pos: usize) -> (r: (usize, usize))
    requires
        pos <= s@.len(),
        s@.len() < usize::MAX,
    ensures
        r.0 as int == line_of(s@, pos as int),
        r.1 as int == col_of(s@, pos as int),
{
    let mut k: usize = 0;
    let mut line: usize = 1;
    let mut ls: usize = 0;
    while k < pos
        invariant
            k <= pos <= s@.len(),
            s@.len() < usize::MAX,
            line as int == line_of(s@, k as int),
            ls as int == line_start(s@, k as int),
            line <= k + 1,
            ls <= k,
        decreases pos - k,
    {
        if s[k] == '\n' {
            line += 1;
            ls = k + 1;
        }
        k += 1;
    }
    (line, pos - ls + 1)
}

impl SelectorParseError {
    /// A failure of the given kind at offset `pos` of text `s`.
    fn at(s: &Vec<char>, kind: ErrorKind, pos: usize) -> (e: Self)
        requires
            pos <= s@.len(),
            s@.len() < usize::MAX,
        ensures
            err_matches(s@, e, kind, pos as int),
    {
        let (line, col) = line_col_exec(s, pos);
        SelectorParseError { kind, pos, line, col }
    }
}

/// Every failure offset the grammar model reports lies within the text or
/// just past its end.
pub proof fn lemma_parse_from_err_bounds(s: Seq<char>, i: int)
    requires
        0 <= i <= s.len(),
    ensures
        parse_from(s, i) matches ParseOutcome::Syntax { pos } ==> 0 <= pos <= s.len(),
        parse_from(s, i) matches ParseOutcome::Overflow { pos } ==> 0 <= pos <= s.len(),
    decreases s.len() - i,
{
    lemma_step_bounds(s, i);
    match step(s, i) {
        Step::Seg { next, .. } => {
            lemma_parse_from_err_bounds(s, next);
        },
        _ => {},
    }
}

/// Parses a selector text into a [`Selector`], or a positioned error.
///
/// The length bound is a machine limit only: a 1-based column must fit in
/// `usize`.
pub fn debug_selector(select: &str) -> (r: Result<Selector, SelectorParseError>)
    requires
        select@.len() < usize::MAX,
    ensures
        parse_post(select@, r),
{
    let chars = str_to_chars(select);
    proof {
        lemma_parse_from_err_bounds(chars@, 0);
    }
    match SelectParser::parse(&chars) {
        RawParse::Parsed(segments) => Ok(Selector { segments }),
        RawParse::Syntax { pos } => Err(SelectorParseError::at(&chars, ErrorKind::Syntax, pos)),
        RawParse::Overflow { pos } => Err(
            SelectorParseError::at(&chars, ErrorKind::IntOutOfRange, pos),
        ),
    }
}

} // verus!
