use pgs::wire::{decode_image_data, decode_image_data_code, ImageDataCode};
use pgs::{decode_rle_data, DecodeError};

#[test]
fn end_of_line_code_takes_two_bytes() {
    assert_eq!(decode_image_data_code(&[0x00, 0x00]), Ok((ImageDataCode::EndOfLine, 2)));
}

#[test]
fn short_run_of_color_zero() {
    assert_eq!(
        decode_image_data_code(&[0x00, 0x01]),
        Ok((ImageDataCode::Color { color: 0, count: 1 }, 2))
    );
    assert_eq!(
        decode_image_data_code(&[0x00, 0x3F]),
        Ok((ImageDataCode::Color { color: 0, count: 63 }, 2))
    );
}

#[test]
fn long_run_of_color_zero_is_one_short() {
    let expected = (((0x45u16 & 0x3F) << 8) | 0x09) - 1;
    assert_eq!(expected, 1288);
    assert_eq!(
        decode_image_data_code(&[0x00, 0x45, 0x09]),
        Ok((ImageDataCode::Color { color: 0, count: expected }, 3))
    );
}

#[test]
fn long_run_of_zero_length_stays_zero() {
    assert_eq!(
        decode_image_data_code(&[0x00, 0x40, 0x00]),
        Ok((ImageDataCode::Color { color: 0, count: 0 }, 3))
    );
}

#[test]
fn single_pixel_code() {
    assert_eq!(
        decode_image_data_code(&[0x07, 0x00]),
        Ok((ImageDataCode::Color { color: 7, count: 1 }, 1))
    );
}

#[test]
fn short_run_of_a_color() {
    assert_eq!(
        decode_image_data_code(&[0x00, 0x85, 0x09]),
        Ok((ImageDataCode::Color { color: 9, count: 5 }, 3))
    );
}

#[test]
fn long_run_of_a_color() {
    assert_eq!(
        decode_image_data_code(&[0x00, 0xC1, 0x02, 0x33]),
        Ok((ImageDataCode::Color { color: 0x33, count: 0x102 }, 4))
    );
}

#[test]
fn cut_short_codes_are_invalid() {
    assert_eq!(decode_image_data_code(&[]), Err(DecodeError::UnexpectedEof));
    assert_eq!(decode_image_data_code(&[0x00]), Err(DecodeError::InvalidRle));
    assert_eq!(decode_image_data_code(&[0x00, 0x45]), Err(DecodeError::InvalidRle));
    assert_eq!(decode_image_data_code(&[0x00, 0xC1, 0x02]), Err(DecodeError::InvalidRle));
}

#[test]
fn decoder_walks_codes_in_order() {
    let data = [0x05, 0x00, 0x00, 0x00, 0x83, 0x02];
    let mut decoder = decode_image_data(&data);
    assert_eq!(decoder.next(), Some(Ok(ImageDataCode::Color { color: 5, count: 1 })));
    assert_eq!(decoder.next(), Some(Ok(ImageDataCode::EndOfLine)));
    assert_eq!(decoder.next(), Some(Ok(ImageDataCode::Color { color: 2, count: 3 })));
    assert_eq!(decoder.next(), None);
}

#[test]
fn decoder_repeats_an_error() {
    let data = [0x05, 0x00];
    let mut decoder = decode_image_data(&data);
    assert_eq!(decoder.next(), Some(Ok(ImageDataCode::Color { color: 5, count: 1 })));
    assert_eq!(decoder.next(), Some(Err(DecodeError::InvalidRle)));
    assert_eq!(decoder.next(), Some(Err(DecodeError::InvalidRle)));
}

#[test]
fn rle_with_exact_pixel_count_decodes() {
    // 2x2: row one is 1, 1; row two is a run of two pixels of color 3.
    let data = [0x01, 0x01, 0x00, 0x00, 0x00, 0x82, 0x03, 0x00, 0x00];
    assert_eq!(decode_rle_data(&data, 2, 2), Ok(vec![1, 1, 3, 3]));
}

#[test]
fn rle_end_of_line_adds_no_pixels() {
    assert_eq!(decode_rle_data(&[0x00, 0x00], 0, 0), Ok(vec![]));
    assert_eq!(decode_rle_data(&[0x00, 0x00], 1, 1), Err(DecodeError::RleLengthMismatch));
}

#[test]
fn rle_with_other_pixel_count_is_a_mismatch() {
    let data = [0x01, 0x01, 0x01];
    assert_eq!(decode_rle_data(&data, 2, 2), Err(DecodeError::RleLengthMismatch));
    assert_eq!(decode_rle_data(&data, 1, 2), Err(DecodeError::RleLengthMismatch));
    assert_eq!(decode_rle_data(&data, 3, 1), Ok(vec![1, 1, 1]));
}

#[test]
fn rle_long_zero_run_expands() {
    let px = decode_rle_data(&[0x00, 0x45, 0x09], 1288, 1).unwrap();
    assert_eq!(px.len(), 1288);
    assert!(px.iter().all(|&p| p == 0));
}

#[test]
fn rle_grammar_error_wins() {
    assert_eq!(decode_rle_data(&[0x01, 0x00], 1, 1), Err(DecodeError::InvalidRle));
}
