//! Facts about UTF-8 that let a search over bytes stand for a search over
//! characters: encoding distributes over concatenation, a well-formed prefix
//! ends on a character boundary, and occurrences of a pattern correspond.

use vstd::prelude::*;
use vstd::utf8::*;
use crate::search::{is_first_occurrence, occurs, occurs_at};


verus! {

/// Encoding a concatenation concatenates the encodings.
pub proof fn lemma_encode_concat(a: Seq<char>, b: Seq<char>)
    ensures
        encode_utf8(a + b) == encode_utf8(a) + encode_utf8(b),
    decreases a.len(),
{
    if a.len() == 0 {
        assert(a + b =~= b);
        assert(encode_utf8(a) + encode_utf8(b) =~= encode_utf8(b));
    } else {
        lemma_encode_concat(a.drop_first(), b);
        assert((a + b).drop_first() =~= a.drop_first() + b);
        assert((a + b)[0] == a[0]);
        assert(encode_utf8(a + b) =~= encode_utf8(a) + encode_utf8(b));
    }
}

/// Every character takes at least one byte.
pub proof fn lemma_encode_len(a: Seq<char>)
    ensures
        encode_utf8(a).len() >= a.len(),
    decreases a.len(),
{
    if a.len() > 0 {
        lemma_encode_len(a.drop_first());
    }
}

/// Two texts with the same encoding are the same text.
pub proof fn lemma_encode_injective(a: Seq<char>, b: Seq<char>)
    requires
        encode_utf8(a) == encode_utf8(b),
    ensures
        a == b,
{
    encode_utf8_decode_utf8(a);
    encode_utf8_decode_utf8(b);
}

/// A well-formed byte string that begins another well-formed byte string
/// ends on one of its character boundaries.
pub proof fn lemma_valid_prefix_is_boundary(c: Seq<u8>, p: Seq<u8>)
    requires
        valid_utf8(c),
        valid_utf8(p),
        p.len() <= c.len(),
        c.subrange(0, p.len() as int) == p,
    ensures
        is_char_boundary(c, p.len() as int),
    decreases p.len(),
{
    if p.len() > 0 {
        assert(c[0] == c.subrange(0, p.len() as int)[0]);
        let l = length_of_first_scalar(p);
        assert(l == length_of_first_scalar(c));
        assert(l <= p.len());
        let pc = pop_first_scalar(c);
        let pp = pop_first_scalar(p);
        assert(pc.subrange(0, pp.len() as int) =~= pp) by {
            assert forall|j: int| 0 <= j < pp.len() implies pc[j] == pp[j] by {
                assert(c.subrange(0, p.len() as int)[j + l] == p[j + l]);
            }
        }
        lemma_valid_prefix_is_boundary(pc, pp);
    }
}

/// Splitting the encoding of a text at a character boundary splits the text.
pub proof fn lemma_boundary_splits_text(text: Seq<char>, i: int)
    requires
        is_char_boundary(encode_utf8(text), i),
    ensures
        0 <= i <= encode_utf8(text).len(),
        ({
            let bytes = encode_utf8(text);
            let front = decode_utf8(bytes.subrange(0, i));
            let back = decode_utf8(bytes.subrange(i, bytes.len() as int));
            &&& text == front + back
            &&& encode_utf8(front) == bytes.subrange(0, i)
            &&& encode_utf8(back) == bytes.subrange(i, bytes.len() as int)
            &&& valid_utf8(bytes.subrange(0, i))
            &&& valid_utf8(bytes.subrange(i, bytes.len() as int))
        }),
{
    let bytes = encode_utf8(text);
    encode_utf8_valid_utf8(text);
    lemma_boundary_in_range(bytes, i);
    valid_utf8_split(bytes, i);
    decode_utf8_split(bytes, i);
    encode_utf8_decode_utf8(text);
    decode_utf8_encode_utf8(bytes.subrange(0, i));
    decode_utf8_encode_utf8(bytes.subrange(i, bytes.len() as int));
}

/// A character boundary lies within the byte string.
pub proof fn lemma_boundary_in_range(bytes: Seq<u8>, i: int)
    requires
        valid_utf8(bytes),
        is_char_boundary(bytes, i),
    ensures
        0 <= i <= bytes.len(),
{
}

/// The end of an encoded prefix is a character boundary of the whole encoding.
pub proof fn lemma_prefix_end_is_boundary(a: Seq<char>, b: Seq<char>)
    ensures
        is_char_boundary(encode_utf8(a + b), encode_utf8(a).len() as int),
{
    lemma_encode_concat(a, b);
    encode_utf8_valid_utf8(a);
    encode_utf8_valid_utf8(a + b);
    let c = encode_utf8(a + b);
    let p = encode_utf8(a);
    assert(c.subrange(0, p.len() as int) =~= p);
    lemma_valid_prefix_is_boundary(c, p);
}

/// A longer prefix of a text has a longer encoding.
pub proof fn lemma_prefix_len_monotone(text: Seq<char>, j: int, k: int)
    requires
        0 <= j < k <= text.len(),
    ensures
        encode_utf8(text.subrange(0, j)).len() < encode_utf8(text.subrange(0, k)).len(),
{
    let a = text.subrange(0, j);
    let b = text.subrange(j, k);
    assert(text.subrange(0, k) =~= a + b);
    lemma_encode_concat(a, b);
    lemma_encode_len(b);
}

/// Where a pattern occurs among the characters, its encoding occurs among
/// the bytes, at the offset that the characters before it take up.
pub proof fn lemma_char_occurrence_in_bytes(text: Seq<char>, pat: Seq<char>, k: int)
    requires
        occurs_at(text, pat, k),
    ensures
        occurs_at(
            encode_utf8(text),
            encode_utf8(pat),
            encode_utf8(text.subrange(0, k)).len() as int,
        ),
{
    let a = text.subrange(0, k);
    let c = text.subrange(k + pat.len(), text.len() as int);
    assert(text =~= (a + pat) + c);
    lemma_encode_concat(a + pat, c);
    lemma_encode_concat(a, pat);
    let bytes = encode_utf8(text);
    let i = encode_utf8(a).len() as int;
    assert(bytes.subrange(i, i + encode_utf8(pat).len()) =~= encode_utf8(pat));
}

/// A pattern whose encoding occurs nowhere among the bytes occurs nowhere
/// among the characters.
pub proof fn lemma_absent_in_bytes_absent_in_chars(text: Seq<char>, pat: Seq<char>)
    requires
        !occurs(encode_utf8(text), encode_utf8(pat)),
    ensures
        !occurs(text, pat),
{
    if occurs(text, pat) {
        let k = choose|k: int| occurs_at(text, pat, k);
        lemma_char_occurrence_in_bytes(text, pat, k);
    }
}

/// The leftmost occurrence of a pattern's encoding among the bytes of a text
/// is the encoding of the pattern's leftmost occurrence among the characters:
/// it starts and ends on character boundaries, and the text falls into what
/// stands before it, the pattern, and what stands after it.
pub proof fn lemma_byte_occurrence_in_chars(text: Seq<char>, pat: Seq<char>, i: int) -> (k: int)
    requires
        is_first_occurrence(encode_utf8(text), encode_utf8(pat), i),
    ensures
        is_first_occurrence(text, pat, k),
        encode_utf8(text.subrange(0, k)) == encode_utf8(text).subrange(0, i),
        encode_utf8(text.subrange(k, text.len() as int)) == encode_utf8(text).subrange(
            i,
            encode_utf8(text).len() as int,
        ),
        is_char_boundary(encode_utf8(text), i),
        is_char_boundary(
            encode_utf8(text.subrange(k, text.len() as int)),
            encode_utf8(pat).len() as int,
        ),
        encode_utf8(text.subrange(k + pat.len(), text.len() as int)) == encode_utf8(
            text.subrange(k, text.len() as int),
        ).subrange(
            encode_utf8(pat).len() as int,
            encode_utf8(text.subrange(k, text.len() as int)).len() as int,
        ),
{
    let bytes = encode_utf8(text);
    let pb = encode_utf8(pat);
    encode_utf8_valid_utf8(text);
    encode_utf8_valid_utf8(pat);
    assert(is_char_boundary(bytes, i)) by {
        if pb.len() == 0 {
            assert(bytes.subrange(0, 0) =~= pb);
            assert(occurs_at(bytes, pb, 0));
        } else {
            assert(bytes.subrange(i, i + pb.len())[0] == pb[0]);
            is_char_boundary_iff_not_is_continuation_byte(bytes, i);
        }
    }
    lemma_boundary_splits_text(text, i);
    let front = decode_utf8(bytes.subrange(0, i));
    let back = decode_utf8(bytes.subrange(i, bytes.len() as int));
    let k = front.len() as int;
    assert(text.subrange(0, k) =~= front);
    assert(text.subrange(k, text.len() as int) =~= back);
    let tail = encode_utf8(back);
    assert(tail.subrange(0, pb.len() as int) =~= pb);
    lemma_valid_prefix_is_boundary(tail, pb);
    lemma_boundary_splits_text(back, pb.len() as int);
    encode_utf8_decode_utf8(pat);
    let rest = decode_utf8(tail.subrange(pb.len() as int, tail.len() as int));
    assert(back == pat + rest);
    assert(text.subrange(k, k + pat.len()) =~= pat);
    assert(text.subrange(k + pat.len(), text.len() as int) =~= rest);
    assert forall|j: int| 0 <= j < k implies !occurs_at(text, pat, j) by {
        if occurs_at(text, pat, j) {
            lemma_char_occurrence_in_bytes(text, pat, j);
            lemma_prefix_len_monotone(text, j, k);
        }
    }
    k
}

} // verus!
