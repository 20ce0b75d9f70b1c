//! Byte offsets into the UTF-8 encoding of a line, the way `String`
//! indexes it, and the characters they fall on.
use vstd::prelude::*;

use vstd::utf8::{encode_scalar, encode_utf8};

verus! {

/// How many bytes the UTF-8 encoding of `c` takes.
pub open spec fn char_width(c: char) -> nat {
    encode_scalar(c as u32).len()
}

/// How many bytes the UTF-8 encoding of `s` takes.
pub open spec fn byte_len(s: Seq<char>) -> nat {
    encode_utf8(s).len()
}

/// The byte offset at which the `k`-th character of `s` starts.
pub open spec fn byte_offset(s: Seq<char>, k: int) -> nat {
    byte_len(s.take(k))
}

/// `b` is a byte offset at which a character of `s` starts, or the end of
/// `s`.
pub open spec fn is_boundary(s: Seq<char>, b: int) -> bool {
    exists|k: int| 0 <= k <= s.len() && byte_offset(s, k) == b
}

/// The character that starts at the byte offset `b` of `s`.
pub open spec fn char_index(s: Seq<char>, b: int) -> int {
    choose|k: int| 0 <= k <= s.len() && byte_offset(s, k) == b
}

/// The encoding of a concatenation is the concatenation of the encodings.
pub proof fn lemma_encode_concat(a: Seq<char>, b: Seq<char>)
    ensures
        encode_utf8(a + b) == encode_utf8(a) + encode_utf8(b),
    decreases a.len(),
{
    if a.len() == 0 {
        assert(a + b =~= b);
        assert(encode_utf8(a) =~= Seq::<u8>::empty());
        assert(encode_utf8(a) + encode_utf8(b) =~= encode_utf8(b));
    } else {
        assert((a + b).drop_first() =~= a.drop_first() + b);
        assert((a + b)[0] == a[0]);
        lemma_encode_concat(a.drop_first(), b);
        assert(encode_utf8(a + b) =~= encode_utf8(a) + encode_utf8(b));
    }
}

/// Each character takes one to four bytes, by its code point.
pub proof fn lemma_char_width(c: char)
    ensures
        char_width(c) == if (c as u32) <= 0x7f {
            1nat
        } else if (c as u32) <= 0x7ff {
            2nat
        } else if (c as u32) <= 0xffff {
            3nat
        } else {
            4nat
        },
{
}

/// The byte offset of the next character is that of this one plus its
/// width.
pub proof fn lemma_offset_step(s: Seq<char>, k: int)
    requires
        0 <= k < s.len(),
    ensures
        byte_offset(s, k + 1) == byte_offset(s, k) + char_width(s[k]),
{
    assert(s.take(k + 1) =~= s.take(k) + seq![s[k]]);
    lemma_encode_concat(s.take(k), seq![s[k]]);
    assert(seq![s[k]].drop_first() =~= Seq::<char>::empty());
    assert(encode_utf8(seq![s[k]]) =~= encode_scalar(s[k] as u32) + encode_utf8(Seq::<char>::empty()));
    lemma_char_width(s[k]);
}

/// Offsets grow with the character index; the first is 0, the last is the
/// length in bytes.
pub proof fn lemma_offset_mono(s: Seq<char>, j: int, k: int)
    requires
        0 <= j < k <= s.len(),
    ensures
        byte_offset(s, j) < byte_offset(s, k),
    decreases k - j,
{
    lemma_offset_step(s, j);
    lemma_char_width(s[j]);
    if j + 1 < k {
        lemma_offset_mono(s, j + 1, k);
    }
}

pub proof fn lemma_offset_ends(s: Seq<char>)
    ensures
        byte_offset(s, 0) == 0,
        byte_offset(s, s.len() as int) == byte_len(s),
{
    assert(s.take(0) =~= Seq::<char>::empty());
    assert(s.take(s.len() as int) =~= s);
}

/// At a boundary, the character index is the one whose offset it is.
pub proof fn lemma_char_index(s: Seq<char>, b: int, k: int)
    requires
        0 <= k <= s.len(),
        byte_offset(s, k) == b,
    ensures
        is_boundary(s, b),
        char_index(s, b) == k,
{
    let c = char_index(s, b);
    if c < k {
        lemma_offset_mono(s, c, k);
    } else if k < c {
        lemma_offset_mono(s, k, c);
    }
}

/// Every offset lies within the length in bytes.
pub proof fn lemma_offset_bound(s: Seq<char>, k: int)
    requires
        0 <= k <= s.len(),
    ensures
        byte_offset(s, k) <= byte_len(s),
{
    lemma_offset_ends(s);
    if k < s.len() {
        lemma_offset_mono(s, k, s.len() as int);
    }
}

/// The width of a character, in bytes.
pub fn char_width_exec(c: char) -> (w: usize)
    ensures
        w == char_width(c),
        1 <= w <= 4,
{
    proof {
        lemma_char_width(c);
    }
    let u = c as u32;
    if u <= 0x7f {
        1
    } else if u <= 0x7ff {
        2
    } else if u <= 0xffff {
        3
    } else {
        4
    }
}

/// The length of a string in bytes.
pub fn str_byte_len(s: &str) -> (n: usize)
    ensures
        n == byte_len(s@),
{
    let b = s.as_bytes();
    b.len()
}

/// The character that starts at byte offset `b`, if one does (or `b` is
/// the end).
pub fn char_index_of(l: &Vec<char>, b: usize) -> (r: Option<usize>)
    requires
        byte_len(l@) <= usize::MAX,
    ensures
        r is Some <==> is_boundary(l@, b as int),
        r matches Some(k) ==> k <= l.len() && byte_offset(l@, k as int) == b && char_index(l@, b as int) == k,
{
    let mut k: usize = 0;
    let mut off: usize = 0;
    proof {
        lemma_offset_ends(l@);
    }
    while k < l.len() && off < b
        invariant
            k <= l.len(),
            off == byte_offset(l@, k as int),
            byte_len(l@) <= usize::MAX,
            forall|j: int| 0 <= j < k ==> byte_offset(l@, j) < b,
        decreases l.len() - k,
    {
        proof {
            lemma_offset_step(l@, k as int);
            lemma_offset_bound(l@, k + 1);
            if k > 0 {
                lemma_offset_mono(l@, (k - 1) as int, k as int);
            }
        }
        off = off + char_width_exec(l[k]);
        k = k + 1;
    }
    if off == b {
        proof {
            lemma_char_index(l@, b as int, k as int);
        }
        Some(k)
    } else {
        proof {
            assert forall|j: int| 0 <= j <= l.len() implies byte_offset(l@, j) != b by {
                if j < k {
                } else if j > k {
                    lemma_offset_mono(l@, k as int, j);
                    if off < b {
                        assert(k == l.len());
                    }
                }
            }
        }
        None
    }
}

/// The byte offset at which the `k`-th character starts.
pub fn byte_offset_of(l: &Vec<char>, k: usize) -> (r: usize)
    requires
        k <= l.len(),
        byte_len(l@) <= usize::MAX,
    ensures
        r == byte_offset(l@, k as int),
{
    let mut i: usize = 0;
    let mut off: usize = 0;
    proof {
        lemma_offset_ends(l@);
    }
    while i < k
        invariant
            i <= k <= l.len(),
            off == byte_offset(l@, i as int),
            byte_len(l@) <= usize::MAX,
        decreases k - i,
    {
        proof {
            lemma_offset_step(l@, i as int);
            lemma_offset_bound(l@, i + 1);
        }
        off = off + char_width_exec(l[i]);
        i = i + 1;
    }
    off
}

} // verus!
