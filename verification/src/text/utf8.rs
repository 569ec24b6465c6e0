//! Byte lengths: positions in a document count the bytes of its UTF-8 form.
use vstd::prelude::*;
use vstd::utf8::*;
use super::chars::string_of;

verus! {

/// The number of bytes of `s` in UTF-8.
pub open spec fn bytes(s: Seq<char>) -> nat {
    encode_utf8(s).len()
}

/// Encoding goes character by character.
pub proof fn lemma_encode_concat(a: Seq<char>, b: Seq<char>)
    ensures
        encode_utf8(a + b) == encode_utf8(a) + encode_utf8(b),
    decreases a.len(),
{
    if a.len() == 0 {
        assert(a + b == b);
        assert(encode_utf8(a) == Seq::<u8>::empty());
    } else {
        assert((a + b).drop_first() == a.drop_first() + b);
        lemma_encode_concat(a.drop_first(), b);
        assert((a + b)[0] == a[0]);
    }
}

/// The number of bytes of `s`.
pub fn byte_len(s: &[char]) -> (r: usize)
    ensures
        r == bytes(s@),
{
    let t = string_of(s);
    t.as_str().as_bytes().len()
}

} // verus!
