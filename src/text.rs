use vstd::prelude::*;
use vstd::utf8::*;

verus! {

/// What `String::from_utf8_lossy` yields on bytes that are not valid UTF-8.
pub uninterp spec fn utf8_lossy(b: Seq<u8>) -> Seq<char>;

/// The text that lossy decoding gives for `b`: the decoded characters when
/// `b` is valid UTF-8, and the replacement-character form otherwise.
pub open spec fn lossy_text(b: Seq<u8>) -> Seq<char> {
    if valid_utf8(b) {
        decode_utf8(b)
    } else {
        utf8_lossy(b)
    }
}

/// The UTF-8 bytes of a string.
pub open spec fn utf8_of(s: Seq<char>) -> Seq<u8> {
    encode_utf8(s)
}

/// Relies on `String::from_utf8_lossy`: valid UTF-8 is decoded unchanged;
/// other input gives a string that depends on the bytes alone.
#[verifier::external_body]
pub(crate) fn lossy_string(b: &[u8]) -> (r: String)
    ensures
        valid_utf8(b@) ==> r@ == decode_utf8(b@),
        !valid_utf8(b@) ==> r@ == utf8_lossy(b@),
{
    String::from_utf8_lossy(b).into_owned()
}

/// Lossy decoding returns every string's own bytes to that string.
pub proof fn lemma_lossy_of_utf8(s: Seq<char>)
    ensures
        lossy_text(utf8_of(s)) == s,
{
    broadcast use encode_utf8_valid_utf8, encode_utf8_decode_utf8;
}

/// Appends the bytes of `b` to `out`.
pub fn push_bytes(out: &mut Vec<u8>, b: &[u8])
    ensures
        final(out)@ == old(out)@ + b@,
{
    let mut i: usize = 0;
    while i < b.len()
        invariant
            0 <= i <= b@.len(),
            out@ == old(out)@ + b@.subrange(0, i as int),
        decreases b@.len() - i,
    {
        out.push(b[i]);
        i = i + 1;
        proof {
            assert(b@.subrange(0, i as int) =~= b@.subrange(0, i - 1) + seq![b@[i - 1]]);
        }
    }
    proof {
        assert(b@.subrange(0, b@.len() as int) =~= b@);
    }
}

/// Appends the UTF-8 bytes of `s` to `out`.
pub fn push_str_bytes(out: &mut Vec<u8>, s: &String)
    ensures
        final(out)@ == old(out)@ + utf8_of(s@),
{
    push_bytes(out, s.as_str().as_bytes());
}

/// The length in bytes of the UTF-8 form of `s`.
pub fn utf8_len(s: &String) -> (r: usize)
    ensures
        r == utf8_of(s@).len(),
{
    s.as_str().as_bytes().len()
}

} // verus!
