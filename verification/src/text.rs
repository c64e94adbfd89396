//! The extraction primitives: text after a marker, text between two markers,
//! and text after a leading run of characters.
//!
//! Every result is a view into the text it was taken from; nothing is copied.

use vstd::prelude::*;
use vstd::string::StringSliceAdditionalSpecFns;
use vstd::utf8::*;
use crate::encoding::{
    lemma_absent_in_bytes_absent_in_chars, lemma_byte_occurrence_in_chars, lemma_encode_concat,
    lemma_encode_injective, lemma_prefix_end_is_boundary,
};
use crate::search::{
    find_bytes, first_index_of, is_first_occurrence, lemma_first_index_of,
    lemma_first_index_of_some, occurs,
};

verus! {

/// What stands before and after the leftmost occurrence of `marker` in `text`.
pub open spec fn cut_spec(text: Seq<char>, marker: Seq<char>) -> Option<(Seq<char>, Seq<char>)> {
    match first_index_of(text, marker) {
        Some(i) => Some((text.subrange(0, i), text.subrange(i + marker.len(), text.len() as int))),
        None => None,
    }
}

/// What follows the leftmost occurrence of `marker` in `text`.
pub open spec fn skip_until_spec(text: Seq<char>, marker: Seq<char>) -> Option<Seq<char>> {
    match cut_spec(text, marker) {
        Some((_, after)) => Some(after),
        None => None,
    }
}

/// What stands between the leftmost `start` and the leftmost `end` after it,
/// and what follows that `end`.
pub open spec fn between_spec(text: Seq<char>, start: Seq<char>, end: Seq<char>) -> Option<
    (Seq<char>, Seq<char>),
> {
    match skip_until_spec(text, start) {
        Some(zone) => cut_spec(zone, end),
        None => None,
    }
}

/// The views of a pair of texts.
pub open spec fn pair_view(r: Option<(&str, &str)>) -> Option<(Seq<char>, Seq<char>)> {
    match r {
        Some((a, b)) => Some((a@, b@)),
        None => None,
    }
}

/// The view of an optional text.
pub open spec fn text_view(r: Option<&str>) -> Option<Seq<char>> {
    match r {
        Some(a) => Some(a@),
        None => None,
    }
}

/// Splits `text` around the leftmost occurrence of `marker`.
pub fn cut<'a>(text: &'a str, marker: &str) -> (r: Option<(&'a str, &'a str)>)
    ensures
        pair_view(r) == cut_spec(text@, marker@),
{
    let hay = text.as_bytes();
    let needle = marker.as_bytes();
    match find_bytes(hay, needle) {
        None => {
            proof {
                lemma_absent_in_bytes_absent_in_chars(text@, marker@);
            }
            None
        },
        Some(i) => {
            let ghost k = lemma_byte_occurrence_in_chars(text@, marker@, i as int);
            proof {
                lemma_first_index_of_some(text@, marker@, k);
            }
            let (before, tail) = text.split_at(i);
            proof {
                lemma_encode_injective(before@, text@.subrange(0, k));
                lemma_encode_injective(tail@, text@.subrange(k, text@.len() as int));
            }
            let (_, after) = tail.split_at(needle.len());
            proof {
                lemma_encode_injective(
                    after@,
                    text@.subrange(k + marker@.len(), text@.len() as int),
                );
            }
            Some((before, after))
        },
    }
}

/// Returns what follows the leftmost occurrence of `marker` in `text`, or
/// nothing where `marker` does not occur.
pub fn skip_until<'a>(text: &'a str, marker: &str) -> (r: Option<&'a str>)
    ensures
        text_view(r) == skip_until_spec(text@, marker@),
{
    match cut(text, marker) {
        Some((_, after)) => Some(after),
        None => None,
    }
}

/// Returns what stands between the leftmost `start` in `text` and the
/// leftmost `end` after it, together with what follows that `end`; nothing
/// where either is missing. The search for `end` begins where `start` ends.
pub fn between<'a>(text: &'a str, start: &str, end: &str) -> (r: Option<(&'a str, &'a str)>)
    ensures
        pair_view(r) == between_spec(text@, start@, end@),
{
    match skip_until(text, start) {
        Some(zone) => cut(zone, end),
        None => None,
    }
}

/// The number of leading characters of `s` that satisfy `pred`.
pub open spec fn leading_run(s: Seq<char>, pred: spec_fn(char) -> bool) -> nat
    decreases s.len(),
{
    if s.len() > 0 && pred(s[0]) {
        1 + leading_run(s.drop_first(), pred)
    } else {
        0
    }
}

/// `s` without its longest leading run of characters that satisfy `pred`.
pub open spec fn skip_while_spec(s: Seq<char>, pred: spec_fn(char) -> bool) -> Seq<char> {
    s.subrange(leading_run(s, pred) as int, s.len() as int)
}

/// `n` characters lead `s` that all satisfy `pred`, and the run ends there.
pub open spec fn is_leading_run(s: Seq<char>, pred: spec_fn(char) -> bool, n: int) -> bool {
    &&& 0 <= n <= s.len()
    &&& forall|i: int| 0 <= i < n ==> pred(#[trigger] s[i])
    &&& n < s.len() ==> !pred(s[n])
}

/// The longest leading run is the only one.
pub proof fn lemma_leading_run(s: Seq<char>, pred: spec_fn(char) -> bool, n: int)
    requires
        is_leading_run(s, pred, n),
    ensures
        leading_run(s, pred) == n,
    decreases s.len(),
{
    if n > 0 {
        let t = s.drop_first();
        assert(pred(s[0]));
        assert forall|i: int| 0 <= i < n - 1 implies pred(#[trigger] t[i]) by {
            assert(t[i] == s[i + 1]);
        }
        lemma_leading_run(t, pred, n - 1);
    }
}

/// The number of bytes that `c` takes in UTF-8.
pub fn utf8_width(c: char) -> (w: usize)
    ensures
        w == encode_scalar(c as u32).len(),
        1 <= w <= 4,
{
    let v: u32 = c as u32;
    proof {
        char_is_scalar(c);
    }
    if v < 0x80 {
        1
    } else if v < 0x800 {
        2
    } else if v < 0x10000 {
        3
    } else {
        4
    }
}

/// The verdicts of `p` are those of `pred`.
pub open spec fn decides<F: Fn(char) -> bool>(p: F, pred: spec_fn(char) -> bool) -> bool {
    forall|c: char, b: bool| #[trigger] call_ensures(p, (c,), b) ==> b == pred(c)
}

/// Takes the first character off `text`: the character, the one-character
/// text that holds it, and the text after it. Nothing where `text` is empty.
pub fn split_first_char<'a>(text: &'a str) -> (r: Option<(char, &'a str, &'a str)>)
    ensures
        match r {
            Some((c, head, tail)) => {
                &&& text@.len() > 0
                &&& c == text@[0]
                &&& head@ == seq![c]
                &&& tail@ == text@.drop_first()
            },
            None => text@.len() == 0,
        },
{
    let mut it = text.chars();
    match it.next() {
        None => None,
        Some(c) => {
            let w: usize = utf8_width(c);
            let ghost a = seq![c];
            let ghost b = text@.drop_first();
            proof {
                assert(text@ =~= a + b);
                lemma_prefix_end_is_boundary(a, b);
                lemma_encode_concat(a, b);
                assert(encode_utf8(a) =~= encode_scalar(c as u32)) by {
                    reveal_with_fuel(encode_utf8, 2);
                    assert(a.drop_first() =~= Seq::<char>::empty());
                }
            }
            let (head, tail) = text.split_at(w);
            proof {
                assert(head.spec_bytes() =~= encode_utf8(a));
                assert(tail.spec_bytes() =~= encode_utf8(b));
                lemma_encode_injective(head@, a);
                lemma_encode_injective(tail@, b);
            }
            Some((c, head, tail))
        },
    }
}

/// Returns `text` without its longest leading run of characters for which `p`
/// answers `true`: all of `text` where the first character fails, the empty
/// text where every character passes.
pub fn skip_while<'a, F: Fn(char) -> bool>(text: &'a str, p: F) -> (rest: &'a str)
    requires
        forall|i: int| 0 <= i < text@.len() ==> call_requires(p, (#[trigger] text@[i],)),
    ensures
        exists|n: int|
            {
                &&& 0 <= n <= text@.len()
                &&& #[trigger] text@.subrange(n, text@.len() as int) == rest@
                &&& forall|i: int| 0 <= i < n ==> call_ensures(p, (#[trigger] text@[i],), true)
                &&& n < text@.len() ==> call_ensures(p, (text@[n],), false)
            },
        forall|pred: spec_fn(char) -> bool|
            decides(p, pred) ==> rest@ == #[trigger] skip_while_spec(text@, pred),
{
    let mut rest: &'a str = text;
    let ghost mut n: int = 0;
    loop
        invariant
            forall|i: int| 0 <= i < text@.len() ==> call_requires(p, (#[trigger] text@[i],)),
            0 <= n <= text@.len(),
            rest@ == text@.subrange(n, text@.len() as int),
            forall|i: int| 0 <= i < n ==> call_ensures(p, (#[trigger] text@[i],), true),
        ensures
            0 <= n <= text@.len(),
            rest@ == text@.subrange(n, text@.len() as int),
            forall|i: int| 0 <= i < n ==> call_ensures(p, (#[trigger] text@[i],), true),
            n < text@.len() ==> call_ensures(p, (text@[n],), false),
        decreases text@.len() - n,
    {
        match split_first_char(rest) {
            None => {
                break ;
            },
            Some((c, _, tail)) => {
                assert(c == text@[n]);
                if !p(c) {
                    break ;
                }
                proof {
                    assert(tail@ =~= text@.subrange(n + 1, text@.len() as int));
                    n = n + 1;
                }
                rest = tail;
            },
        }
    }
    proof {
        assert forall|pred: spec_fn(char) -> bool| decides(p, pred) implies rest@
            == #[trigger] skip_while_spec(text@, pred) by {
            lemma_leading_run(text@, pred, n);
        }
    }
    rest
}

/// Skipping the same run twice skips nothing more.
pub proof fn lemma_skip_while_idempotent(s: Seq<char>, pred: spec_fn(char) -> bool)
    ensures
        skip_while_spec(skip_while_spec(s, pred), pred) == skip_while_spec(s, pred),
{
    lemma_leading_run_is_run(s, pred);
    let n = leading_run(s, pred) as int;
    let r = skip_while_spec(s, pred);
    assert(is_leading_run(r, pred, 0)) by {
        if r.len() > 0 {
            assert(r[0] == s[n]);
        }
    }
    lemma_leading_run(r, pred, 0);
    assert(r.subrange(0, r.len() as int) =~= r);
}

/// The longest leading run is a leading run.
pub proof fn lemma_leading_run_is_run(s: Seq<char>, pred: spec_fn(char) -> bool)
    ensures
        is_leading_run(s, pred, leading_run(s, pred) as int),
    decreases s.len(),
{
    if s.len() > 0 && pred(s[0]) {
        let t = s.drop_first();
        lemma_leading_run_is_run(t, pred);
        let n = leading_run(s, pred) as int;
        assert forall|i: int| 0 <= i < n implies pred(#[trigger] s[i]) by {
            if i > 0 {
                assert(s[i] == t[i - 1]);
            }
        }
        if n < s.len() {
            assert(s[n] == t[n - 1]);
        }
    }
}

/// A cut takes the text apart: what it returns, with the marker between,
/// is the text again, and the marker occurs nowhere earlier.
pub proof fn lemma_cut_shape(text: Seq<char>, marker: Seq<char>)
    ensures
        cut_spec(text, marker) matches Some((before, after)) ==> {
            &&& text == before + marker + after
            &&& is_first_occurrence(text, marker, before.len() as int)
        },
        cut_spec(text, marker) is None <==> !occurs(text, marker),
{
    lemma_first_index_of(text, marker);
    if let Some(i) = first_index_of(text, marker) {
        let before = text.subrange(0, i);
        let after = text.subrange(i + marker.len(), text.len() as int);
        assert(text =~= before + marker + after);
    }
}

/// A text written as `before + marker + after`, where the marker occurs no
/// earlier, is cut into `before` and `after`.
pub proof fn lemma_cut_found(before: Seq<char>, marker: Seq<char>, after: Seq<char>)
    requires
        is_first_occurrence(before + marker + after, marker, before.len() as int),
    ensures
        cut_spec(before + marker + after, marker) == Some((before, after)),
{
    let text = before + marker + after;
    lemma_first_index_of_some(text, marker, before.len() as int);
    assert(text.subrange(0, before.len() as int) =~= before);
    assert(text.subrange((before.len() + marker.len()) as int, text.len() as int) =~= after);
}

/// For a text in which `start` first occurs after `pre`, and in which `end`
/// first occurs, past that `start`, after `mid`: the text between is `mid`,
/// and the remainder begins right after that `end`.
pub proof fn lemma_between_found(
    pre: Seq<char>,
    start: Seq<char>,
    mid: Seq<char>,
    end: Seq<char>,
    rest: Seq<char>,
)
    requires
        is_first_occurrence(pre + start + (mid + end + rest), start, pre.len() as int),
        is_first_occurrence(mid + end + rest, end, mid.len() as int),
    ensures
        between_spec(pre + start + (mid + end + rest), start, end) == Some((mid, rest)),
{
    lemma_cut_found(pre, start, mid + end + rest);
    lemma_cut_found(mid, end, rest);
}

/// Nothing is found between two markers exactly where `start` is absent, or
/// `end` does not occur after the first `start`.
pub proof fn lemma_between_none(text: Seq<char>, start: Seq<char>, end: Seq<char>)
    ensures
        between_spec(text, start, end) is None <==> (match first_index_of(text, start) {
            None => true,
            Some(i) => !occurs(text.subrange(i + start.len(), text.len() as int), end),
        }),
        first_index_of(text, start) is None <==> !occurs(text, start),
{
    lemma_first_index_of(text, start);
    if let Some(i) = first_index_of(text, start) {
        lemma_cut_shape(text.subrange(i + start.len(), text.len() as int), end);
    }
}

/// What is found between two markers lies in the text in this order: the
/// first `start`, the match, the first `end` after it, the remainder.
pub proof fn lemma_between_shape(text: Seq<char>, start: Seq<char>, end: Seq<char>)
    ensures
        between_spec(text, start, end) matches Some((mid, rest)) ==> exists|pre: Seq<char>|
            {
                &&& #[trigger] is_first_occurrence(text, start, pre.len() as int)
                &&& text == pre + start + (mid + end + rest)
                &&& is_first_occurrence(mid + end + rest, end, mid.len() as int)
            },
{
    lemma_cut_shape(text, start);
    if let Some((pre, zone)) = cut_spec(text, start) {
        lemma_cut_shape(zone, end);
        if let Some((mid, rest)) = cut_spec(zone, end) {
            assert(is_first_occurrence(text, start, pre.len() as int));
        }
    }
}

} // verus!
