use vstd::prelude::*;
use vstd::utf8::{
    decode_utf8, encode_utf8, is_char_boundary, is_continuation_byte, pop_first_scalar,
    valid_first_scalar, valid_utf8,
};
use crate::PADDING_LENGTH;

verus! {

broadcast use vstd::utf8::decode_utf8_encode_utf8;

/// The run of zero bytes that marks each end of a message.
pub open spec fn zero_padding() -> Seq<u8> {
    Seq::new(PADDING_LENGTH as nat, |i: int| 0u8)
}

/// A message with its zero padding before and after.
pub open spec fn framed(m: Seq<u8>) -> Seq<u8> {
    zero_padding() + m + zero_padding()
}

/// Zero bytes in front of a byte sequence do not change whether it is UTF-8.
proof fn lemma_zeros_before(z: Seq<u8>, b: Seq<u8>)
    requires
        forall|i: int| 0 <= i < z.len() ==> z[i] == 0,
    ensures
        valid_utf8(z + b) <==> valid_utf8(b),
    decreases z.len(),
{
    if z.len() == 0 {
        assert(z + b =~= b);
    } else {
        let bytes = z + b;
        assert(bytes[0] == 0);
        assert(valid_first_scalar(bytes));
        assert(pop_first_scalar(bytes) =~= z.drop_first() + b);
        lemma_zeros_before(z.drop_first(), b);
    }
}

/// Zero bytes after a byte sequence do not change whether it is UTF-8.
proof fn lemma_zeros_after(b: Seq<u8>, z: Seq<u8>)
    requires
        forall|i: int| 0 <= i < z.len() ==> z[i] == 0,
    ensures
        valid_utf8(b + z) <==> valid_utf8(b),
{
    lemma_zeros_before(z, Seq::empty());
    assert(z + Seq::<u8>::empty() =~= z);
    if valid_utf8(b) {
        vstd::utf8::valid_utf8_concat(b, z);
    }
    if valid_utf8(b + z) && z.len() > 0 {
        let bytes = b + z;
        let k = b.len() as int;
        assert(!is_continuation_byte(bytes[k]));
        vstd::utf8::is_char_boundary_iff_not_is_continuation_byte(bytes, k);
        assert(is_char_boundary(bytes, k));
        vstd::utf8::valid_utf8_split(bytes, k);
        assert(bytes.subrange(0, k) =~= b);
    }
    if z.len() == 0 {
        assert(b + z =~= b);
    }
}

/// The padding around a message does not change whether it is UTF-8.
pub proof fn lemma_framed_utf8(m: Seq<u8>)
    ensures
        valid_utf8(framed(m)) <==> valid_utf8(m),
{
    lemma_zeros_after(zero_padding() + m, zero_padding());
    lemma_zeros_before(zero_padding(), m);
}

/// Why a text cannot be carried.
#[derive(Debug, Clone, Copy, PartialEq, Eq, Structural)]
pub enum TextError {
    /// The bytes are not UTF-8.
    InvalidUtf8,
}

/// Relies on String::from_utf8: it accepts exactly the byte sequences that
/// are UTF-8, and the string it returns holds the characters they encode.
#[verifier::external_body]
fn utf8_string(bytes: Vec<u8>) -> (r: Option<String>)
    ensures
        r is Some <==> valid_utf8(bytes@),
        r matches Some(s) ==> s@ == decode_utf8(bytes@),
{
    String::from_utf8(bytes).ok()
}

/// Decodes `bytes` as UTF-8 text; `None` when they are not UTF-8.
pub fn text_of_bytes(bytes: Vec<u8>) -> (r: Option<String>)
    ensures
        r is Some <==> valid_utf8(bytes@),
        r matches Some(s) ==> s@ == decode_utf8(bytes@) && encode_utf8(s@) == bytes@,
{
    utf8_string(bytes)
}

/// Puts the zero padding before and after the message bytes.
pub fn frame_message(raw: &[u8]) -> (r: Vec<u8>)
    requires
        raw@.len() + 2 * PADDING_LENGTH <= usize::MAX,
    ensures
        r@ == framed(raw@),
{
    let mut out: Vec<u8> = Vec::new();
    let mut k: usize = 0;
    while k < PADDING_LENGTH
        invariant
            k <= PADDING_LENGTH,
            out@ == zero_padding().subrange(0, k as int),
        decreases PADDING_LENGTH - k,
    {
        out.push(0);
        k = k + 1;
        assert(out@ =~= zero_padding().subrange(0, k as int));
    }
    let mut i: usize = 0;
    while i < raw.len()
        invariant
            i <= raw@.len(),
            out@ == zero_padding() + raw@.subrange(0, i as int),
        decreases raw@.len() - i,
    {
        out.push(raw[i]);
        i = i + 1;
        assert(out@ =~= zero_padding() + raw@.subrange(0, i as int));
    }
    assert(raw@.subrange(0, raw@.len() as int) =~= raw@);
    k = 0;
    while k < PADDING_LENGTH
        invariant
            k <= PADDING_LENGTH,
            out@ == zero_padding() + raw@ + zero_padding().subrange(0, k as int),
        decreases PADDING_LENGTH - k,
    {
        out.push(0);
        k = k + 1;
        assert(out@ =~= zero_padding() + raw@ + zero_padding().subrange(0, k as int));
    }
    assert(out@ =~= framed(raw@));
    out
}

/// Frames the raw bytes of a message and reads them as text. The text is
/// refused when the framed bytes are not UTF-8.
pub fn open_text(raw: Vec<u8>) -> (r: Result<String, TextError>)
    requires
        raw@.len() + 2 * PADDING_LENGTH <= usize::MAX,
    ensures
        r is Ok <==> valid_utf8(raw@),
        r matches Ok(s) ==> encode_utf8(s@) == framed(raw@),
        r matches Err(e) ==> e == TextError::InvalidUtf8,
{
    proof {
        lemma_framed_utf8(raw@);
    }
    let bytes = frame_message(raw.as_slice());
    match text_of_bytes(bytes) {
        Some(s) => Ok(s),
        None => Err(TextError::InvalidUtf8),
    }
}

} // verus!
