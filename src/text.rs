//! Byte-level facts about the UTF-8 text the matcher works on.
use vstd::prelude::*;
use vstd::utf8::{encode_utf8, encode_scalar, has_width_1_encoding, leading_byte_width_1};

verus! {

/// Number of bytes in the UTF-8 encoding of `s`.
pub open spec fn byte_len(s: Seq<char>) -> nat {
    encode_utf8(s).len()
}

/// Encoding a concatenation encodes each part in turn.
pub proof fn lemma_encode_concat(a: Seq<char>, b: Seq<char>)
    ensures
        encode_utf8(a + b) == encode_utf8(a) + encode_utf8(b),
    decreases a.len(),
{
    if a.len() == 0 {
        assert(a + b =~= b);
        assert(encode_utf8(a) =~= Seq::<u8>::empty());
        assert(encode_utf8(a) + encode_utf8(b) =~= encode_utf8(b));
    } else {
        assert((a + b).drop_first() =~= a.drop_first() + b);
        assert((a + b)[0] == a[0]);
        lemma_encode_concat(a.drop_first(), b);
        assert(encode_scalar(a[0] as u32) + (encode_utf8(a.drop_first()) + encode_utf8(b))
            =~= (encode_scalar(a[0] as u32) + encode_utf8(a.drop_first())) + encode_utf8(b));
    }
}

/// A line feed is the single byte 10.
pub proof fn lemma_encode_newline()
    ensures
        encode_utf8(seq!['\n']) == seq![10u8],
{
    let s = seq!['\n'];
    assert(s[0] as u32 == 10);
    assert(has_width_1_encoding(10u32));
    assert(leading_byte_width_1(10u32) == 10u8) by (bit_vector);
    assert(s.drop_first() =~= Seq::<char>::empty());
    assert(encode_utf8(s.drop_first()) =~= Seq::<u8>::empty());
    assert(encode_utf8(s) =~= seq![10u8]);
}

/// The bytes of `a`, a line feed, then `b`.
pub proof fn lemma_encode_joined(a: Seq<char>, b: Seq<char>)
    ensures
        encode_utf8(a + seq!['\n'] + b) == encode_utf8(a) + seq![10u8] + encode_utf8(b),
{
    lemma_encode_concat(a + seq!['\n'], b);
    lemma_encode_concat(a, seq!['\n']);
    lemma_encode_newline();
}

/// Byte length of `s`.
pub fn byte_len_exec(s: &str) -> (r: usize)
    ensures
        r == byte_len(s@),
{
    s.as_bytes().len()
}

/// Some byte in `[start, end)` of the encoding of `s` is a line feed.
pub open spec fn spans_newline(s: Seq<char>, start: int, end: int) -> bool {
    exists|i: int| start <= i < end && #[trigger] encode_utf8(s)[i] == 10u8
}

/// Whether the bytes `[start, end)` of `s` hold a line feed.
pub fn has_newline(s: &str, start: usize, end: usize) -> (r: bool)
    requires
        start <= end <= byte_len(s@),
    ensures
        r == spans_newline(s@, start as int, end as int),
{
    let b = s.as_bytes();
    let mut i = start;
    while i < end
        invariant
            start <= i <= end,
            end <= b@.len(),
            b@ == encode_utf8(s@),
            forall|j: int| start <= j < i ==> encode_utf8(s@)[j] != 10u8,
        decreases end - i,
    {
        if b[i] == 10u8 {
            return true;
        }
        i = i + 1;
    }
    false
}

} // verus!
