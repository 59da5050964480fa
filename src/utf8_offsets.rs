//! Byte offsets into the UTF-8 encoding of a text, and the character offsets they
//! stand for.
use vstd::prelude::*;
use vstd::utf8::{encode_scalar, encode_utf8};

verus! {

/// The number of bytes that UTF-8 spends on a character.
pub open spec fn char_width(c: char) -> nat {
    if (c as u32) < 0x80 {
        1
    } else if (c as u32) < 0x800 {
        2
    } else if (c as u32) < 0x10000 {
        3
    } else {
        4
    }
}

/// The length in bytes of the UTF-8 encoding of `s`.
pub open spec fn byte_len(s: Seq<char>) -> nat {
    encode_utf8(s).len()
}

/// The character offset that byte offset `b` stands for, when `b` falls on a
/// character boundary.
pub open spec fn char_at_byte(s: Seq<char>, b: int) -> Option<int> {
    if exists|k: int| 0 <= k <= s.len() && byte_len(#[trigger] s.take(k)) == b {
        Some(choose|k: int| 0 <= k <= s.len() && byte_len(#[trigger] s.take(k)) == b)
    } else {
        None
    }
}

proof fn lemma_encode_concat(a: Seq<char>, b: Seq<char>)
    ensures
        encode_utf8(a + b) == encode_utf8(a) + encode_utf8(b),
    decreases a.len(),
{
    if a.len() == 0 {
        assert(a + b =~= b);
        assert(encode_utf8(a) =~= Seq::<u8>::empty());
        assert(encode_utf8(a) + encode_utf8(b) =~= encode_utf8(b));
    } else {
        assert((a + b).drop_first() =~= a.drop_first() + b);
        assert((a + b)[0] == a[0]);
        lemma_encode_concat(a.drop_first(), b);
        assert(encode_scalar(a[0] as u32) + (encode_utf8(a.drop_first()) + encode_utf8(b))
            =~= (encode_scalar(a[0] as u32) + encode_utf8(a.drop_first())) + encode_utf8(b));
    }
}

proof fn lemma_scalar_width(c: char)
    ensures
        encode_scalar(c as u32).len() == char_width(c),
{
    vstd::utf8::char_is_scalar(c);
}

pub proof fn lemma_byte_len_push(s: Seq<char>, c: char)
    ensures
        byte_len(s.push(c)) == byte_len(s) + char_width(c),
{
    lemma_encode_concat(s, seq![c]);
    assert(s.push(c) =~= s + seq![c]);
    lemma_scalar_width(c);
    assert(seq![c].drop_first() =~= Seq::<char>::empty());
    assert(encode_utf8(Seq::<char>::empty()) =~= Seq::<u8>::empty());
    assert(encode_utf8(seq![c]) =~= encode_scalar(c as u32) + encode_utf8(Seq::<char>::empty()));
}

/// Longer prefixes take strictly more bytes.
pub proof fn lemma_byte_len_increasing(s: Seq<char>, i: int, j: int)
    requires
        0 <= i < j <= s.len(),
    ensures
        byte_len(s.take(i)) < byte_len(s.take(j)),
    decreases j - i,
{
    assert(s.take(j) =~= s.take(j - 1).push(s[j - 1]));
    lemma_byte_len_push(s.take(j - 1), s[j - 1]);
    if i < j - 1 {
        lemma_byte_len_increasing(s, i, j - 1);
    }
}

pub fn char_width_of(c: char) -> (r: usize)
    ensures
        r == char_width(c),
{
    let v = c as u32;
    if v < 0x80 {
        1
    } else if v < 0x800 {
        2
    } else if v < 0x10000 {
        3
    } else {
        4
    }
}

/// Finds the character offset of byte offset `b` in `text`, walking on from the place
/// `(*k, *bytes)` that an earlier call left (or from the start, when `b` lies before it).
pub fn char_offset_of_byte(text: &Vec<char>, k: &mut usize, bytes: &mut usize, b: usize) -> (r:
    Option<usize>)
    requires
        *old(k) <= text@.len(),
        *old(bytes) == byte_len(text@.take(*old(k) as int)),
    ensures
        *final(k) <= text@.len(),
        *final(bytes) == byte_len(text@.take(*final(k) as int)),
        r == match char_at_byte(text@, b as int) {
            Some(i) => Some(i as usize),
            None => None,
        },
{
    if b < *bytes {
        *k = 0;
        *bytes = 0;
        assert(text@.take(0) =~= Seq::<char>::empty());
        assert(encode_utf8(Seq::<char>::empty()) =~= Seq::<u8>::empty());
    }
    while *k < text.len() && *bytes < b
        invariant
            *k <= text@.len(),
            *bytes <= b,
            *bytes == byte_len(text@.take(*k as int)),
        decreases text@.len() - *k,
    {
        let w = char_width_of(text[*k]);
        proof {
            assert(text@.take(*k + 1) =~= text@.take(*k as int).push(text@[*k as int]));
            lemma_byte_len_push(text@.take(*k as int), text@[*k as int]);
        }
        if w > b - *bytes {
            proof {
                assert forall|j: int| 0 <= j <= text@.len() implies byte_len(
                    #[trigger] text@.take(j),
                ) != b by {
                    if j < *k {
                        lemma_byte_len_increasing(text@, j, *k as int);
                    } else if j > *k + 1 {
                        lemma_byte_len_increasing(text@, *k + 1, j);
                    }
                }
            }
            return None;
        }
        *bytes = *bytes + w;
        *k = *k + 1;
    }
    if *bytes == b {
        proof {
            let c = choose|j: int| 0 <= j <= text@.len() && byte_len(#[trigger] text@.take(j)) == b;
            if c < *k {
                lemma_byte_len_increasing(text@, c, *k as int);
            } else if c > *k {
                lemma_byte_len_increasing(text@, *k as int, c);
            }
        }
        Some(*k)
    } else {
        proof {
            assert forall|j: int| 0 <= j <= text@.len() implies byte_len(#[trigger] text@.take(j))
                != b by {
                if j < *k {
                    lemma_byte_len_increasing(text@, j, *k as int);
                } else if j > *k {
                    lemma_byte_len_increasing(text@, *k as int, j);
                }
            }
        }
        None
    }
}

} // verus!
