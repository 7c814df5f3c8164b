use tetrust::bitmap::{decode_bitmap, read_bitmap_header, BitmapError, BmpHeader};

fn header(offset: u32, width: u32, height: u32, bit_count: u16) -> Vec<u8> {
    let mut bytes = vec![0x42, 0x4D];
    bytes.extend_from_slice(&[0u8; 8]);
    bytes.extend_from_slice(&offset.to_le_bytes());
    bytes.extend_from_slice(&40u32.to_le_bytes());
    bytes.extend_from_slice(&width.to_le_bytes());
    bytes.extend_from_slice(&height.to_le_bytes());
    bytes.extend_from_slice(&1u16.to_le_bytes());
    bytes.extend_from_slice(&bit_count.to_le_bytes());
    bytes
}

fn file(width: u32, height: u32, rows_bottom_up: &[Vec<u8>]) -> Vec<u8> {
    let mut bytes = header(54, width, height, 24);
    bytes.resize(54, 0);
    for row in rows_bottom_up {
        bytes.extend_from_slice(row);
    }
    bytes
}

#[test]
fn the_header_is_read_low_byte_first() {
    let bytes = header(0x0102_0304, 0x0000_0201, 0x1000_0000, 0x0118);
    assert_eq!(
        read_bitmap_header(&bytes),
        Ok(BmpHeader { offset: 0x0102_0304, width: 0x201, height: 0x1000_0000, bit_count: 0x118 })
    );
}

#[test]
fn a_file_that_does_not_begin_as_a_bitmap_is_refused() {
    let mut bytes = header(54, 1, 1, 24);
    bytes[0] = 0x50;
    bytes[1] = 0x4B;
    assert_eq!(read_bitmap_header(&bytes), Err(BitmapError::NotABitmap(0x4B50)));
    assert_eq!(decode_bitmap(&bytes), Err(BitmapError::NotABitmap(0x4B50)));
    assert_eq!(read_bitmap_header(&[0x50, 0x4B]), Err(BitmapError::NotABitmap(0x4B50)));
}

#[test]
fn a_header_that_ends_early_is_truncated() {
    let bytes = header(54, 1, 1, 24);
    assert_eq!(bytes.len(), 30);
    assert!(read_bitmap_header(&bytes).is_ok());
    assert_eq!(read_bitmap_header(&bytes[..29]), Err(BitmapError::Truncated));
    assert_eq!(read_bitmap_header(&bytes[..2]), Err(BitmapError::Truncated));
    assert_eq!(read_bitmap_header(&bytes[..1]), Err(BitmapError::Truncated));
    assert_eq!(read_bitmap_header(&[]), Err(BitmapError::Truncated));
}

#[test]
fn only_24_bits_to_the_pixel_are_decoded() {
    let mut bytes = header(54, 1, 1, 32);
    bytes.resize(58, 0);
    assert_eq!(decode_bitmap(&bytes), Err(BitmapError::UnsupportedBitCount(32)));
}

#[test]
fn pixel_data_that_ends_early_is_truncated() {
    let whole = file(1, 2, &[vec![1, 2, 3, 0], vec![4, 5, 6, 0]]);
    assert_eq!(decode_bitmap(&whole), Ok(vec![0x0006_0504, 0x0003_0201]));
    assert_eq!(decode_bitmap(&whole[..whole.len() - 1]), Err(BitmapError::Truncated));
    assert_eq!(decode_bitmap(&whole[..40]), Err(BitmapError::Truncated));
}

#[test]
fn sizes_beyond_32_bits_are_too_large() {
    let mut wide = header(54, 0x5555_5555, 1, 24);
    wide.resize(64, 0);
    assert_eq!(decode_bitmap(&wide), Err(BitmapError::TooLarge));
    let mut tall = header(54, 0x1_0000, 0x1_0000, 24);
    tall.resize(64, 0);
    assert_eq!(decode_bitmap(&tall), Err(BitmapError::TooLarge));
}

#[test]
fn rows_come_out_top_first_and_pixels_as_red_green_blue() {
    // Two pixels to the row: six bytes, padded to eight.
    let bottom = vec![0x01, 0x02, 0x03, 0x11, 0x12, 0x13, 0xEE, 0xEE];
    let top = vec![0x21, 0x22, 0x23, 0x31, 0x32, 0x33, 0xEE, 0xEE];
    let bytes = file(2, 2, &[bottom, top]);
    assert_eq!(
        decode_bitmap(&bytes),
        Ok(vec![0x0023_2221, 0x0033_3231, 0x0003_0201, 0x0013_1211])
    );
}

#[test]
fn a_row_is_padded_to_a_multiple_of_four_bytes() {
    // Three pixels: nine bytes, padded to twelve.
    let mut bottom: Vec<u8> = (1..=9).collect();
    bottom.extend_from_slice(&[0xEE; 3]);
    let mut top: Vec<u8> = (21..=29).collect();
    top.extend_from_slice(&[0xEE; 3]);
    let bytes = file(3, 2, &[bottom, top]);
    assert_eq!(
        decode_bitmap(&bytes),
        Ok(vec![0x0017_1615, 0x001A_1918, 0x001D_1C1B, 0x0003_0201, 0x0006_0504, 0x0009_0807])
    );
    assert_eq!(decode_bitmap(&bytes[..bytes.len() - 1]), Err(BitmapError::Truncated));
    // Four pixels: twelve bytes, and no padding.
    let row: Vec<u8> = (1..=12).collect();
    let four = file(4, 1, &[row]);
    assert_eq!(four.len(), 54 + 12);
    assert_eq!(
        decode_bitmap(&four),
        Ok(vec![0x0003_0201, 0x0006_0504, 0x0009_0807, 0x000C_0B0A])
    );
}

#[test]
fn the_pixel_data_begins_where_the_header_says() {
    let mut bytes = header(60, 1, 1, 24);
    bytes.resize(60, 0xAA);
    bytes.extend_from_slice(&[7, 8, 9, 0]);
    assert_eq!(decode_bitmap(&bytes), Ok(vec![0x0009_0807]));
}

#[test]
fn a_picture_without_pixels_is_empty() {
    let bytes = header(1000, 0, 5, 24);
    assert_eq!(decode_bitmap(&bytes), Ok(Vec::new()));
    let flat = header(1000, 5, 0, 24);
    assert_eq!(decode_bitmap(&flat), Ok(Vec::new()));
}
