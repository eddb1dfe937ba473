//! Verified UTF-8 encoding of character sequences.

use vstd::prelude::*;
use vstd::utf8::encode_scalar;
use vstd::utf8::encode_utf8;

verus! {

/// Appending a character to a sequence appends its scalar encoding to the
/// encoded bytes.
pub proof fn lemma_encode_utf8_push(s: Seq<char>, c: char)
    ensures
        encode_utf8(s.push(c)) == encode_utf8(s) + encode_scalar(c as u32),
    decreases s.len(),
{
    if s.len() == 0 {
        assert(s.push(c)[0] == c);
        assert(s.push(c).drop_first() =~= s);
        assert(encode_utf8(s) == Seq::<u8>::empty());
        assert(encode_utf8(s.push(c)) == encode_scalar(c as u32) + encode_utf8(s));
        assert(encode_scalar(c as u32) + encode_utf8(s) =~= encode_scalar(c as u32));
        assert(encode_utf8(s) + encode_scalar(c as u32) =~= encode_scalar(c as u32));
    } else {
        assert(s.push(c).drop_first() =~= s.drop_first().push(c));
        lemma_encode_utf8_push(s.drop_first(), c);
        assert(encode_utf8(s.push(c)) =~= encode_utf8(s) + encode_scalar(c as u32));
    }
}

/// Appends the UTF-8 encoding of one character to `out`.
pub fn push_encoded_char(out: &mut Vec<u8>, c: char)
    ensures
        final(out)@ == old(out)@ + encode_scalar(c as u32),
{
    proof {
        vstd::utf8::char_is_scalar(c);
    }
    let u = c as u32;
    if u <= 0x7F {
        out.push((u & 0x7F) as u8);
    } else if u <= 0x7FF {
        out.push(0xC0u8 | (((u >> 6u32) & 0x1F) as u8));
        out.push(0x80u8 | ((u & 0x3F) as u8));
    } else if u <= 0xFFFF {
        out.push(0xE0u8 | (((u >> 12u32) & 0x0F) as u8));
        out.push(0x80u8 | (((u >> 6u32) & 0x3F) as u8));
        out.push(0x80u8 | ((u & 0x3F) as u8));
    } else {
        out.push(0xF0u8 | (((u >> 18u32) & 0x7) as u8));
        out.push(0x80u8 | (((u >> 12u32) & 0x3F) as u8));
        out.push(0x80u8 | (((u >> 6u32) & 0x3F) as u8));
        out.push(0x80u8 | ((u & 0x3F) as u8));
    }
    assert(out@ =~= old(out)@ + encode_scalar(c as u32));
}

/// Relies on `char::from_u32`: yields the character with the given scalar
/// value when the value is at most `0x10FFFF` and not a surrogate, and
/// nothing otherwise.
#[verifier::external_body]
pub(crate) fn char_from_scalar(u: u32) -> (c: Option<char>)
    ensures
        c is Some <==> vstd::utf8::is_scalar(u),
        c matches Some(ch) ==> ch as u32 == u,
{
    char::from_u32(u)
}

/// Relies on `String::push`: appends the given character to the end of the
/// `String`.
#[verifier::external_body]
pub(crate) fn string_push_char(s: &mut String, c: char)
    ensures
        final(s)@ == old(s)@.push(c),
{
    s.push(c);
}

} // verus!
