//! Literal, leftmost-first substring search.
//!
//! The specification is stated once, for sequences of any element type, so
//! that the same words describe a search over characters and the byte-level
//! search that implements it.

use vstd::prelude::*;

verus! {

/// `pat` occurs in `text` starting at index `i`.
pub open spec fn occurs_at<A>(text: Seq<A>, pat: Seq<A>, i: int) -> bool {
    &&& 0 <= i
    &&& i + pat.len() <= text.len()
    &&& text.subrange(i, i + pat.len()) == pat
}

/// `i` is the leftmost index at which `pat` occurs in `text`.
pub open spec fn is_first_occurrence<A>(text: Seq<A>, pat: Seq<A>, i: int) -> bool {
    &&& occurs_at(text, pat, i)
    &&& forall|j: int| 0 <= j < i ==> !occurs_at(text, pat, j)
}

/// `pat` occurs somewhere in `text`.
pub open spec fn occurs<A>(text: Seq<A>, pat: Seq<A>) -> bool {
    exists|i: int| occurs_at(text, pat, i)
}

/// The leftmost index at which `pat` occurs in `text`, if it occurs at all.
pub open spec fn first_index_of<A>(text: Seq<A>, pat: Seq<A>) -> Option<int> {
    if occurs(text, pat) {
        Some(choose|i: int| is_first_occurrence(text, pat, i))
    } else {
        None
    }
}

/// An occurrence at `i` with none before `lo` has a leftmost occurrence in `lo..=i`.
proof fn lemma_leftmost_exists<A>(text: Seq<A>, pat: Seq<A>, lo: int, i: int)
    requires
        0 <= lo <= i,
        occurs_at(text, pat, i),
        forall|j: int| 0 <= j < lo ==> !occurs_at(text, pat, j),
    ensures
        exists|k: int| is_first_occurrence(text, pat, k),
    decreases i - lo,
{
    if occurs_at(text, pat, lo) {
        assert(is_first_occurrence(text, pat, lo));
    } else {
        lemma_leftmost_exists(text, pat, lo + 1, i);
    }
}

/// A leftmost occurrence is the one that `first_index_of` names.
pub proof fn lemma_first_index_of_some<A>(text: Seq<A>, pat: Seq<A>, i: int)
    requires
        is_first_occurrence(text, pat, i),
    ensures
        first_index_of(text, pat) == Some(i),
{
    assert(occurs_at(text, pat, i));
    let k = choose|k: int| is_first_occurrence(text, pat, k);
    assert(is_first_occurrence(text, pat, k));
    if k < i {
        assert(!occurs_at(text, pat, k));
    } else if i < k {
        assert(!occurs_at(text, pat, i));
    }
}

/// Whatever index `first_index_of` names is a leftmost occurrence, and it
/// names one whenever the pattern occurs.
pub proof fn lemma_first_index_of<A>(text: Seq<A>, pat: Seq<A>)
    ensures
        first_index_of(text, pat) matches Some(i) ==> is_first_occurrence(text, pat, i),
        first_index_of(text, pat) is None ==> forall|i: int| !occurs_at(text, pat, i),
{
    if occurs(text, pat) {
        let i = choose|i: int| occurs_at(text, pat, i);
        lemma_leftmost_exists(text, pat, 0, i);
    }
}

/// The pattern occurs at index 0 of any text that begins with it, and nowhere
/// before that.
pub proof fn lemma_first_occurrence_at_start<A>(pat: Seq<A>, rest: Seq<A>)
    ensures
        is_first_occurrence(pat + rest, pat, 0),
{
    assert((pat + rest).subrange(0, pat.len() as int) =~= pat);
}

/// A leftmost occurrence in a text stays the leftmost one however the text
/// goes on.
pub proof fn lemma_first_occurrence_extends<A>(text: Seq<A>, pat: Seq<A>, i: int, more: Seq<A>)
    requires
        is_first_occurrence(text, pat, i),
    ensures
        is_first_occurrence(text + more, pat, i),
{
    let long = text + more;
    assert(long.subrange(i, i + pat.len()) =~= text.subrange(i, i + pat.len()));
    assert forall|j: int| 0 <= j < i implies !occurs_at(long, pat, j) by {
        assert(!occurs_at(text, pat, j));
        assert(j + pat.len() <= text.len());
        assert(long.subrange(j, j + pat.len()) =~= text.subrange(j, j + pat.len()));
    }
}

/// A pattern that occurs in the tail of a text occurs in the text.
pub proof fn lemma_occurs_in_tail<A>(text: Seq<A>, from: int, pat: Seq<A>)
    requires
        0 <= from <= text.len(),
        occurs(text.subrange(from, text.len() as int), pat),
    ensures
        occurs(text, pat),
{
    let tail = text.subrange(from, text.len() as int);
    let i = choose|i: int| occurs_at(tail, pat, i);
    assert(text.subrange(from + i, from + i + pat.len()) =~= tail.subrange(i, i + pat.len()));
    assert(occurs_at(text, pat, from + i));
}

/// Whether `needle` stands in `hay` at byte offset `at`.
fn matches_at(hay: &[u8], needle: &[u8], at: usize) -> (r: bool)
    requires
        at + needle@.len() <= hay@.len(),
    ensures
        r == occurs_at(hay@, needle@, at as int),
{
    let h: usize = hay.len();
    let n: usize = needle.len();
    let mut k: usize = 0;
    while k < n
        invariant
            h == hay@.len(),
            n == needle@.len(),
            at + n <= h,
            k <= n,
            forall|j: int| 0 <= j < k ==> hay@[at + j] == needle@[j],
        decreases n - k,
    {
        if hay[at + k] != needle[k] {
            assert(hay@.subrange(at as int, at + n)[k as int] != needle@[k as int]);
            return false;
        }
        k += 1;
    }
    assert(hay@.subrange(at as int, at + n) =~= needle@);
    true
}

/// Finds the leftmost occurrence of `needle` in `hay`.
pub fn find_bytes(hay: &[u8], needle: &[u8]) -> (r: Option<usize>)
    ensures
        match r {
            Some(i) => is_first_occurrence(hay@, needle@, i as int),
            None => !occurs(hay@, needle@),
        },
{
    let h: usize = hay.len();
    let n: usize = needle.len();
    if n > h {
        return None;
    }
    let last: usize = h - n;
    let mut i: usize = 0;
    loop
        invariant
            h == hay@.len(),
            n == needle@.len(),
            last == h - n,
            i <= last,
            forall|j: int| 0 <= j < i ==> !occurs_at(hay@, needle@, j),
        decreases last - i,
    {
        if matches_at(hay, needle, i) {
            return Some(i);
        }
        if i == last {
            return None;
        }
        i += 1;
    }
}

} // verus!
