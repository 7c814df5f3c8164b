//! Bitmap files of 24 bits to the pixel, decoded from their bytes into rows
//! of pixels, top row first.

use crate::display::pixel_of;
use byteorder::{ByteOrder, LittleEndian};
use vstd::arithmetic::div_mod::lemma_fundamental_div_mod_converse;
use vstd::prelude::*;
use vstd::slice::slice_subrange;

verus! {

/// The two bytes that a bitmap file begins with, read as a number.
pub const BITMAP_TYPE: u16 = 0x4D42;

/// Bytes of the header that the decoder reads.
pub const HEADER_SIZE: usize = 30;

/// The fields of the header of a bitmap file that the decoder uses.
#[derive(Debug, Clone, Copy, PartialEq, Eq, Structural)]
pub struct BmpHeader {
    /// Where the pixel data begins in the file.
    pub offset: u32,
    /// Pixels to the row.
    pub width: u32,
    /// Rows.
    pub height: u32,
    /// Bits to the pixel.
    pub bit_count: u16,
}

/// Why the bytes of a file could not be decoded.
#[derive(Debug, Clone, Copy, PartialEq, Eq, Structural)]
pub enum BitmapError {
    /// The file ends before the header or the pixel data does.
    Truncated,
    /// The file does not begin as a bitmap file does, but with these two
    /// bytes, read as a number.
    NotABitmap(u16),
    /// The pixels do not have 24 bits but this many.
    UnsupportedBitCount(u16),
    /// The size of the pixel data does not fit in 32 bits.
    TooLarge,
}

/// The number that two bytes at a place hold, low byte first.
pub open spec fn le16(bytes: Seq<u8>, at: int) -> int {
    bytes[at] + 0x100 * bytes[at + 1]
}

/// The number that four bytes at a place hold, low byte first.
pub open spec fn le32(bytes: Seq<u8>, at: int) -> int {
    bytes[at] + 0x100 * bytes[at + 1] + 0x1_0000 * bytes[at + 2] + 0x100_0000 * bytes[at + 3]
}

/// The header that the bytes of a file begin with, or why there is none.
pub open spec fn header_of(bytes: Seq<u8>) -> Result<BmpHeader, BitmapError> {
    if bytes.len() < 2 {
        Err(BitmapError::Truncated)
    } else if le16(bytes, 0) != BITMAP_TYPE {
        Err(BitmapError::NotABitmap(le16(bytes, 0) as u16))
    } else if bytes.len() < HEADER_SIZE {
        Err(BitmapError::Truncated)
    } else {
        Ok(
            BmpHeader {
                offset: le32(bytes, 10) as u32,
                width: le32(bytes, 18) as u32,
                height: le32(bytes, 22) as u32,
                bit_count: le16(bytes, 28) as u16,
            },
        )
    }
}

impl BmpHeader {
    /// Bytes to the row in the file: three to the pixel, rounded up to a
    /// multiple of four.
    pub open spec fn stride(self) -> int {
        (3 * self.width + 3) / 4 * 4
    }

    /// Bytes of the pixel data.
    pub open spec fn data_size(self) -> int {
        self.height * self.stride()
    }

    /// Where in the file the pixel in the column `x` of the row `y` begins,
    /// the rows counted from the bottom.
    pub open spec fn pixel_at(self, x: int, y: int) -> int {
        self.offset + self.stride() * y + 3 * x
    }
}

/// The `k`-th pixel of the picture, row by row from the top. The file holds
/// the rows from the bottom, and of each pixel the blue byte, the green one
/// and the red one.
pub open spec fn pixel(bytes: Seq<u8>, header: BmpHeader, k: int) -> u32 {
    let width = header.width as int;
    let at = header.pixel_at(k % width, header.height - 1 - k / width);
    pixel_of(bytes[at + 2] as u32, bytes[at + 1] as u32, bytes[at] as u32)
}

/// The pixels that the bytes of a file hold, or why they cannot be had.
pub open spec fn decoded(bytes: Seq<u8>) -> Result<Seq<u32>, BitmapError> {
    match header_of(bytes) {
        Err(error) => Err(error),
        Ok(header) => if header.bit_count != 24 {
            Err(BitmapError::UnsupportedBitCount(header.bit_count))
        } else if 3 * header.width + 3 > u32::MAX || header.data_size() > u32::MAX {
            Err(BitmapError::TooLarge)
        } else if header.data_size() > 0 && header.offset + header.data_size() > bytes.len() {
            Err(BitmapError::Truncated)
        } else {
            Ok(Seq::new((header.width * header.height) as nat, |k: int| pixel(bytes, header, k)))
        },
    }
}

/// `byteorder::ByteOrder::read_u16` of `LittleEndian` reads the first two
/// bytes as a number, low byte first. It needs two bytes.
#[verifier::external_body]
fn read_u16_le(buf: &[u8]) -> (value: u16)
    requires
        buf@.len() >= 2,
    ensures
        value == le16(buf@, 0),
{
    LittleEndian::read_u16(buf)
}

/// `byteorder::ByteOrder::read_u32` of `LittleEndian` reads the first four
/// bytes as a number, low byte first. It needs four bytes.
#[verifier::external_body]
fn read_u32_le(buf: &[u8]) -> (value: u32)
    requires
        buf@.len() >= 4,
    ensures
        value == le32(buf@, 0),
{
    LittleEndian::read_u32(buf)
}

fn u16_at(bytes: &[u8], at: usize) -> (value: u16)
    requires
        at + 2 <= bytes.len(),
    ensures
        value == le16(bytes@, at as int),
{
    read_u16_le(slice_subrange(bytes, at, at + 2))
}

fn u32_at(bytes: &[u8], at: usize) -> (value: u32)
    requires
        at + 4 <= bytes.len(),
    ensures
        value == le32(bytes@, at as int),
{
    read_u32_le(slice_subrange(bytes, at, at + 4))
}

/// Reads the header that the bytes of a bitmap file begin with.
pub fn read_bitmap_header(bytes: &[u8]) -> (result: Result<BmpHeader, BitmapError>)
    ensures
        result == header_of(bytes@),
{
    if bytes.len() < 2 {
        return Err(BitmapError::Truncated);
    }
    let bm_type: u16 = u16_at(bytes, 0);
    if bm_type != BITMAP_TYPE {
        return Err(BitmapError::NotABitmap(bm_type));
    }
    if bytes.len() < HEADER_SIZE {
        return Err(BitmapError::Truncated);
    }
    let bm_offset: u32 = u32_at(bytes, 10);
    let bm_width: u32 = u32_at(bytes, 18);
    let bm_height: u32 = u32_at(bytes, 22);
    let bm_bit_count: u16 = u16_at(bytes, 28);
    Ok(BmpHeader { offset: bm_offset, width: bm_width, height: bm_height, bit_count: bm_bit_count })
}

/// Rounding down to a multiple of four, with a mask or by division.
pub proof fn lemma_mask_is_rounding(v: u32)
    ensures
        v & !3u32 == v / 4 * 4,
{
    assert(v & !3u32 == v / 4 * 4) by (bit_vector);
}

/// Decodes the bytes of a bitmap file of 24 bits to the pixel into its
/// pixels, row by row from the top, each as red, green and blue in the low
/// three bytes.
pub fn decode_bitmap(bytes: &[u8]) -> (result: Result<Vec<u32>, BitmapError>)
    ensures
        match result {
            Ok(pixels) => decoded(bytes@) == Ok::<Seq<u32>, BitmapError>(pixels@),
            Err(error) => decoded(bytes@) == Err::<Seq<u32>, BitmapError>(error),
        },
{
    let header: BmpHeader = match read_bitmap_header(bytes) {
        Ok(header) => header,
        Err(error) => {
            return Err(error);
        },
    };
    if header.bit_count != 24 {
        return Err(BitmapError::UnsupportedBitCount(header.bit_count));
    }
    let bytes_per_pixel: u32 = (header.bit_count / 8) as u32;
    if header.width > (u32::MAX - bytes_per_pixel) / bytes_per_pixel {
        return Err(BitmapError::TooLarge);
    }
    let stride: u32 = (header.width * bytes_per_pixel + bytes_per_pixel) & (!bytes_per_pixel);
    proof {
        lemma_mask_is_rounding((header.width * 3 + 3) as u32);
        assert(stride == header.stride());
    }
    let size: u32 = match header.height.checked_mul(stride) {
        Some(size) => size,
        None => {
            return Err(BitmapError::TooLarge);
        },
    };
    let len: usize = bytes.len();
    if size > 0 && (header.offset as usize > len || size as usize > len - header.offset as usize) {
        return Err(BitmapError::Truncated);
    }
    let ghost wanted = Seq::new(
        (header.width * header.height) as nat,
        |k: int| pixel(bytes@, header, k),
    );
    let mut xrgb_array: Vec<u32> = Vec::new();
    let mut y: u32 = header.height;
    proof {
        assert(0 <= header.width * header.height && (header.height - y) * header.width == 0)
            by (nonlinear_arith)
            requires
                y == header.height,
        ;
    }
    while y > 0
        invariant
            y <= header.height,
            header_of(bytes@) == Ok::<BmpHeader, BitmapError>(header),
            stride == header.stride(),
            3 * header.width + 3 <= u32::MAX,
            size == header.data_size(),
            size > 0 ==> header.offset + size <= bytes@.len(),
            wanted == Seq::new(
                (header.width * header.height) as nat,
                |k: int| pixel(bytes@, header, k),
            ),
            0 <= (header.height - y) * header.width <= header.width * header.height,
            xrgb_array@.len() == (header.height - y) * header.width,
            xrgb_array@ == wanted.subrange(0, (header.height - y) * header.width),
            bytes_per_pixel == 3,
        decreases y,
    {
        y -= 1;
        let ghost row = header.height - 1 - y;
        proof {
            assert(0 <= row * header.width && row * header.width + header.width <= header.width
                * header.height && (header.height - y) * header.width == row * header.width
                + header.width) by (nonlinear_arith)
                requires
                    row == header.height - 1 - y,
                    0 <= y < header.height,
                    0 <= header.width,
            ;
        }
        let mut x: u32 = 0;
        while x < header.width
            invariant
                x <= header.width,
                y < header.height,
                row == header.height - 1 - y,
                header_of(bytes@) == Ok::<BmpHeader, BitmapError>(header),
                stride == header.stride(),
                3 * header.width + 3 <= u32::MAX,
                size == header.data_size(),
                size > 0 ==> header.offset + size <= bytes@.len(),
                wanted == Seq::new(
                    (header.width * header.height) as nat,
                    |k: int| pixel(bytes@, header, k),
                ),
                0 <= row * header.width,
                row * header.width + header.width <= header.width * header.height,
                xrgb_array@.len() == row * header.width + x,
                xrgb_array@ == wanted.subrange(0, row * header.width + x),
                bytes_per_pixel == 3,
            decreases header.width - x,
        {
            let ghost k = row * header.width + x;
            proof {
                let w = header.width as int;
                let h = header.height as int;
                let s = stride as int;
                assert(3 * w <= s && s * y + s <= s * h && s * h == h * s && 0 <= s * y && row * w
                    + w <= h * w && 0 <= row * w && h * w == w * h) by (nonlinear_arith)
                    requires
                        s == (3 * w + 3) / 4 * 4,
                        0 <= y < h,
                        row == h - 1 - y,
                        0 <= w,
                ;
                assert(k == row * w + x);
                lemma_fundamental_div_mod_converse(k, w, row, x as int);
                assert(s * y + 3 * x + 3 <= size);
                assert(bytes@.len() == bytes.len());
            }
            let index: u32 = (stride * y) + (x * bytes_per_pixel);
            let at: usize = header.offset as usize + index as usize;
            let r: u8 = bytes[at + 2];
            let g: u8 = bytes[at + 1];
            let b: u8 = bytes[at];
            xrgb_array.push((r as u32) << 16 | (g as u32) << 8 | (b as u32));
            x += 1;
            proof {
                assert(wanted[k] == pixel(bytes@, header, k));
                assert(xrgb_array@ =~= wanted.subrange(0, k + 1));
            }
        }
    }
    assert(xrgb_array@ =~= wanted) by {
        assert((header.height - 0) * header.width == header.width * header.height)
            by (nonlinear_arith);
    }
    Ok(xrgb_array)
}

} // verus!
