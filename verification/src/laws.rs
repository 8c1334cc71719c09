//! Laws of the selector grammar that hold for all inputs, proved once and
//! for all against the model in [`crate::grammar`] and the parser contract
//! in [`crate::select`].

use vstd::prelude::*;

use crate::grammar::{
    ident_end, is_ident_char, is_ident_start_char, parse_from, parse_spec, step, ParseOutcome,
    SegModel, Step,
};
use crate::select::{parse_post, Selector, SelectorParseError};

verus! {

/// A run of identifier characters reaching the end of the text scans to the
/// end of the text.
proof fn lemma_ident_end_all(s: Seq<char>, k: int)
    requires
        0 <= k <= s.len(),
        forall|t: int| k <= t < s.len() ==> is_ident_char(s[t]),
    ensures
        ident_end(s, k) == s.len(),
    decreases s.len() - k,
{
    if k < s.len() {
        lemma_ident_end_all(s, k + 1);
    }
}

/// Round-trip law for keys: a dot followed by any text matching the
/// identifier grammar parses to exactly one `Key` segment holding that text.
pub proof fn lemma_round_trip_key(n: Seq<char>)
    requires
        n.len() > 0,
        is_ident_start_char(n[0]),
        forall|t: int| 1 <= t < n.len() ==> is_ident_char(n[t]),
    ensures
        parse_spec(seq!['.'] + n) == ParseOutcome::Parsed(seq![SegModel::Key(n)]),
{
    let s = seq!['.'] + n;
    assert(s.len() == 1 + n.len());
    assert(s[0] == '.');
    assert(s[1] == n[0]);
    assert(is_ident_char(n[0]));
    assert forall|t: int| 2 <= t < s.len() implies is_ident_char(s[t]) by {
        assert(s[t] == n[t - 1]);
    }
    lemma_ident_end_all(s, 2);
    assert(s.subrange(1, s.len() as int) =~= n);
    assert(step(s, 0) == Step::Seg {
        seg: SegModel::Key(n),
        ovf: None,
        next: s.len() as int,
    });
    assert(step(s, s.len() as int) == Step::End);
    assert(parse_from(s, s.len() as int) == ParseOutcome::Parsed(Seq::<SegModel>::empty()));
    assert(seq![SegModel::Key(n)] + Seq::<SegModel>::empty() =~= seq![SegModel::Key(n)]);
}

/// Identity law: the empty text and the sole dot both denote the empty
/// selector, and neither is an error.
pub proof fn lemma_identity_selector(s: Seq<char>)
    requires
        s.len() == 0 || (s.len() == 1 && s[0] == '.'),
    ensures
        parse_spec(s) == ParseOutcome::Parsed(Seq::<SegModel>::empty()),
{
    if s.len() == 0 {
        assert(step(s, 0) == Step::End);
    }
}

/// Parsing is a pure function of the text: any two results that meet the
/// parser's contract for one and the same text agree, segment for segment
/// and, on failure, field for field.
pub proof fn lemma_parse_deterministic(
    s: Seq<char>,
    r1: Result<Selector, SelectorParseError>,
    r2: Result<Selector, SelectorParseError>,
)
    requires
        parse_post(s, r1),
        parse_post(s, r2),
    ensures
        r1 is Ok <==> r2 is Ok,
        r1 is Ok && r2 is Ok ==> r1->Ok_0@ == r2->Ok_0@,
        r1 is Err && r2 is Err ==> r1->Err_0 == r2->Err_0,
{
}

} // verus!
