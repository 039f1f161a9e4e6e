//! Runs of bytes and characters: where one occurs in another, and what a run
//! of characters is in UTF-8.

use vstd::prelude::*;
use vstd::slice::slice_subrange;
use vstd::utf8::encode_utf8;

verus! {

/// `needle` stands in `hay`, starting at position `at`.
pub open spec fn occurs_at<T>(needle: Seq<T>, hay: Seq<T>, at: int) -> bool {
    &&& 0 <= at
    &&& at + needle.len() <= hay.len()
    &&& hay.subrange(at, at + needle.len()) == needle
}

/// `needle` stands somewhere in `hay`.
pub open spec fn occurs_in<T>(needle: Seq<T>, hay: Seq<T>) -> bool {
    exists|at: int| occurs_at(needle, hay, at)
}

/// What stands between two other runs occurs in the whole.
pub proof fn lemma_occurs_between<T>(before: Seq<T>, needle: Seq<T>, after: Seq<T>)
    ensures
        occurs_in(needle, before + needle + after),
{
    let hay = before + needle + after;
    let at = before.len() as int;
    assert(hay.subrange(at, at + needle.len()) =~= needle);
    assert(occurs_at(needle, hay, at));
}

/// What occurs in a part of the whole occurs in the whole.
pub proof fn lemma_occurs_in_part<T>(needle: Seq<T>, before: Seq<T>, part: Seq<T>, after: Seq<T>)
    requires
        occurs_in(needle, part),
    ensures
        occurs_in(needle, before + part + after),
{
    let at = choose|at: int| occurs_at(needle, part, at);
    let hay = before + part + after;
    let whole_at: int = before.len() + at;
    assert(hay.subrange(whole_at, whole_at + needle.len()) =~= part.subrange(
        at,
        at + needle.len(),
    ));
    assert(occurs_at(needle, hay, whole_at));
}

/// A run that does not hold the mark between two sides stands on one of them.
pub proof fn lemma_occurs_on_a_side<T>(needle: Seq<T>, left: Seq<T>, mark: T, right: Seq<T>)
    requires
        occurs_in(needle, left + seq![mark] + right),
        !needle.contains(mark),
    ensures
        occurs_in(needle, left) || occurs_in(needle, right),
{
    let hay = left + seq![mark] + right;
    let at = choose|at: int| occurs_at(needle, hay, at);
    if at + needle.len() <= left.len() {
        assert(left.subrange(at, at + needle.len()) =~= needle);
        assert(occurs_at(needle, left, at));
    } else if at > left.len() {
        let side_at: int = at - left.len() - 1;
        assert(right.subrange(side_at, side_at + needle.len()) =~= needle);
        assert(occurs_at(needle, right, side_at));
    } else if needle.len() > 0 {
        let inside: int = left.len() - at;
        assert(hay.subrange(at, at + needle.len())[inside] == mark);
        assert(needle[inside] == mark);
    } else {
        assert(right.subrange(0, 0) =~= needle);
        assert(occurs_at(needle, right, 0));
    }
}

/// What occurs in something that occurs in the whole occurs in the whole.
pub proof fn lemma_occurs_in_transitive<T>(needle: Seq<T>, middle: Seq<T>, hay: Seq<T>)
    requires
        occurs_in(needle, middle),
        occurs_in(middle, hay),
    ensures
        occurs_in(needle, hay),
{
    let at = choose|at: int| occurs_at(middle, hay, at);
    let before = hay.subrange(0, at);
    let after = hay.subrange(at + middle.len(), hay.len() as int);
    assert(hay =~= before + middle + after);
    lemma_occurs_in_part(needle, before, middle, after);
}

/// UTF-8 encodes character by character: the encoding of two runs in a row is
/// the two encodings in a row.
pub proof fn lemma_encode_concat(first: Seq<char>, second: Seq<char>)
    ensures
        encode_utf8(first + second) == encode_utf8(first) + encode_utf8(second),
    decreases first.len(),
{
    if first.len() == 0 {
        assert(first + second =~= second);
        assert(encode_utf8(first) + encode_utf8(second) =~= encode_utf8(second));
    } else {
        let rest = first.drop_first();
        assert((first + second).drop_first() =~= rest + second);
        lemma_encode_concat(rest, second);
        assert(encode_utf8(first + second) =~= encode_utf8(first) + encode_utf8(second));
    }
}

/// A run of characters that occurs in another does so in UTF-8 too.
pub proof fn lemma_encode_occurs(needle: Seq<char>, hay: Seq<char>)
    requires
        occurs_in(needle, hay),
    ensures
        occurs_in(encode_utf8(needle), encode_utf8(hay)),
{
    let at = choose|at: int| occurs_at(needle, hay, at);
    let before = hay.subrange(0, at);
    let after = hay.subrange(at + needle.len(), hay.len() as int);
    assert(hay =~= before + needle + after);
    lemma_encode_concat(before, needle);
    lemma_encode_concat(before + needle, after);
    lemma_occurs_between(encode_utf8(before), encode_utf8(needle), encode_utf8(after));
}

/// Whether two runs of bytes are the same.
pub fn equal_bytes(left: &[u8], right: &[u8]) -> (same: bool)
    ensures
        same == (left@ == right@),
{
    if left.len() != right.len() {
        return false;
    }
    let mut i: usize = 0;
    while i < left.len()
        invariant
            i <= left@.len(),
            left@.len() == right@.len(),
            forall|j: int| 0 <= j < i ==> left@[j] == right@[j],
        decreases left@.len() - i,
    {
        if left[i] != right[i] {
            return false;
        }
        i += 1;
    }
    assert(left@ =~= right@);
    true
}

/// Whether `needle` stands somewhere in `hay`.
pub fn contains_bytes(hay: &[u8], needle: &[u8]) -> (found: bool)
    ensures
        found == occurs_in(needle@, hay@),
        found <==> exists|at: int|
            0 <= at <= hay@.len() - needle@.len() && #[trigger] hay@.subrange(
                at,
                at + needle@.len(),
            ) == needle@,
{
    if needle.len() > hay.len() {
        return false;
    }
    let total: usize = hay.len();
    let last: usize = total - needle.len();
    let mut at: usize = 0;
    loop
        invariant
            total == hay@.len(),
            last == total - needle@.len(),
            at <= last,
            forall|j: int| 0 <= j < at ==> !occurs_at(needle@, hay@, j),
        decreases last - at,
    {
        if equal_bytes(slice_subrange(hay, at, at + needle.len()), needle) {
            assert(occurs_at(needle@, hay@, at as int));
            return true;
        }
        if at == last {
            proof {
                law_occurrence_is_a_stretch(needle@, hay@);
            }
            return false;
        }
        at += 1;
    }
}

/// A run occurs in another exactly where some stretch of the other is that run,
/// that is, where the other is something, the run, and something again.
pub proof fn law_occurrence_is_a_stretch<T>(needle: Seq<T>, hay: Seq<T>)
    ensures
        occurs_in(needle, hay) <==> exists|at: int|
            0 <= at <= hay.len() - needle.len() && #[trigger] hay.subrange(at, at + needle.len())
                == needle,
        occurs_in(needle, hay) <==> exists|before: Seq<T>, after: Seq<T>|
            hay == #[trigger] (before + needle + after),
{
    if occurs_in(needle, hay) {
        let at = choose|at: int| occurs_at(needle, hay, at);
        assert(hay.subrange(at, at + needle.len()) == needle);
        let before = hay.subrange(0, at);
        let after = hay.subrange(at + needle.len(), hay.len() as int);
        assert(hay =~= before + needle + after);
    }
    if exists|at: int|
        0 <= at <= hay.len() - needle.len() && #[trigger] hay.subrange(at, at + needle.len())
            == needle {
        let at = choose|at: int|
            0 <= at <= hay.len() - needle.len() && #[trigger] hay.subrange(at, at + needle.len())
                == needle;
        assert(occurs_at(needle, hay, at));
    }
    if exists|before: Seq<T>, after: Seq<T>| hay == #[trigger] (before + needle + after) {
        let (before, after) = choose|before: Seq<T>, after: Seq<T>|
            hay == #[trigger] (before + needle + after);
        lemma_occurs_between(before, needle, after);
    }
}

} // verus!
