use vstd::prelude::*;
use vstd::utf8::{decode_utf8, encode_utf8, valid_utf8};
use crate::embed::{embed_bytes, embedded};
use crate::extract::{decoded, extract_payload, header_clear, header_is_clear, run_channels};
use crate::frame::text_of_bytes;

verus! {

/// Pixels in row-major order, three channel bytes (red, green, blue) each.
pub struct PixelGrid {
    pub width: u32,
    pub height: u32,
    pub channels: Vec<u8>,
}

impl PixelGrid {
    /// The channel count matches the dimensions.
    pub open spec fn wf(&self) -> bool {
        self.channels@.len() == 3 * self.width * self.height
    }

    /// A grid of the given size over `channels`; `None` when their number is
    /// not three per pixel.
    pub fn from_raw(width: u32, height: u32, channels: Vec<u8>) -> (r: Option<PixelGrid>)
        ensures
            r is Some <==> channels@.len() == 3 * width * height,
            r matches Some(g) ==> g.wf() && g.width == width && g.height == height
                && g.channels@ == channels@,
    {
        let w = width as u128;
        let h = height as u128;
        assert(w * h <= 0xffff_ffff * 0xffff_ffffu128) by (nonlinear_arith)
            requires
                w <= 0xffff_ffff,
                h <= 0xffff_ffff,
        ;
        let total: u128 = 3 * (w * h);
        assert(total == 3 * width * height) by (nonlinear_arith)
            requires
                total == 3 * (w * h),
                w == width,
                h == height,
        ;
        if channels.len() as u128 == total {
            Some(PixelGrid { width, height, channels })
        } else {
            None
        }
    }
}

/// Payload bits a grid is taken to hold: six per unit of the square of its
/// width, whatever its height.
pub open spec fn capacity_bits(width: u32) -> int {
    6 * (width * width)
}

/// A message too long for the grid it was meant for.
#[derive(Debug, Clone, Copy, PartialEq, Eq, Structural)]
pub struct CapacityError {
    /// Bits the framed message needs.
    pub required_bits: u128,
    /// Bits the grid is taken to hold.
    pub capacity_bits: u128,
}

/// Accepts a bitstream of `bits` bits for a grid `width` pixels wide when it
/// does not exceed the capacity.
pub fn check_capacity(width: u32, bits: u128) -> (r: Result<(), CapacityError>)
    ensures
        r is Ok <==> bits <= capacity_bits(width),
        r matches Err(e) ==> e.required_bits == bits && e.capacity_bits == capacity_bits(width),
{
    let w = width as u128;
    assert(w * w <= 0xffff_ffff * 0xffff_ffffu128) by (nonlinear_arith)
        requires
            w <= 0xffff_ffff,
    ;
    let capacity: u128 = 6 * (w * w);
    if bits <= capacity {
        Ok(())
    } else {
        Err(CapacityError { required_bits: bits, capacity_bits: capacity })
    }
}

/// Writes the bitstream of `txt` into the grid's channels when it fits the
/// capacity; leaves the grid as it was otherwise.
pub fn write_to_image(img: &mut PixelGrid, txt: &str) -> (r: Result<(), CapacityError>)
    ensures
        r is Ok <==> 8 * encode_utf8(txt@).len() <= capacity_bits(old(img).width),
        r matches Err(e) ==> e.required_bits == 8 * encode_utf8(txt@).len() && e.capacity_bits
            == capacity_bits(old(img).width) && *final(img) == *old(img),
        r is Ok ==> final(img).width == old(img).width && final(img).height == old(img).height
            && final(img).channels@ == embedded(old(img).channels@, encode_utf8(txt@)),
{
    let bytes = txt.as_bytes();
    let bits: u128 = 8 * (bytes.len() as u128);
    match check_capacity(img.width, bits) {
        Ok(()) => {
            embed_bytes(&mut img.channels, bytes);
            Ok(())
        },
        Err(e) => Err(e),
    }
}

/// Where reading starts.
#[derive(Debug, Clone, Copy, PartialEq, Eq, Structural)]
pub enum ReadMode {
    /// After the leading padding, which must carry only zero pairs.
    Checked,
    /// From the first channel, with no check of the leading padding.
    Forced,
}

/// Why no message was read.
#[derive(Debug, Clone, Copy, PartialEq, Eq, Structural)]
pub enum ReadError {
    /// The leading padding carries a nonzero pair; reading may be retried
    /// with `ReadMode::Forced`.
    HeaderMismatch,
    /// The bytes read are not UTF-8.
    InvalidUtf8,
}

/// The bytes read from `ch` in `mode`, or `None` on a header mismatch.
pub open spec fn payload(ch: Seq<u8>, mode: ReadMode) -> Option<Seq<u8>> {
    match mode {
        ReadMode::Checked => if header_clear(ch) {
            Some(decoded(ch, run_channels()))
        } else {
            None
        },
        ReadMode::Forced => Some(decoded(ch, 0)),
    }
}

/// Reads the bytes of the message carried by the grid.
pub fn read_payload(img: &PixelGrid, mode: ReadMode) -> (r: Result<Vec<u8>, ReadError>)
    ensures
        match payload(img.channels@, mode) {
            Some(b) => r matches Ok(v) && v@ == b,
            None => r == Err::<Vec<u8>, ReadError>(ReadError::HeaderMismatch),
        },
{
    match mode {
        ReadMode::Checked => {
            if header_is_clear(&img.channels) {
                Ok(extract_payload(&img.channels, crate::PADDING_LENGTH * 4))
            } else {
                Err(ReadError::HeaderMismatch)
            }
        },
        ReadMode::Forced => Ok(extract_payload(&img.channels, 0)),
    }
}

/// Reads the message carried by the grid as text.
pub fn read_from_image(img: &PixelGrid, mode: ReadMode) -> (r: Result<String, ReadError>)
    ensures
        match payload(img.channels@, mode) {
            Some(b) => if valid_utf8(b) {
                r matches Ok(s) && s@ == decode_utf8(b)
            } else {
                r == Err::<String, ReadError>(ReadError::InvalidUtf8)
            },
            None => r == Err::<String, ReadError>(ReadError::HeaderMismatch),
        },
{
    match read_payload(img, mode) {
        Ok(bytes) => match text_of_bytes(bytes) {
            Some(s) => Ok(s),
            None => Err(ReadError::InvalidUtf8),
        },
        Err(e) => Err(e),
    }
}

} // verus!
