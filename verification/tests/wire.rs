use enigmatic::errors::RegistryError;
use enigmatic::storage::little_endian::{read_le, write_le};
use enigmatic::storage::wire::{
    read_bytes, read_i32, read_i32_option, read_string, write_bytes, write_i32, write_string,
};

#[test]
fn write_i32_is_little_endian() {
    let mut out = Vec::new();
    write_i32(&mut out, 1);
    write_i32(&mut out, -1);
    write_i32(&mut out, 0x0102_0304);
    assert_eq!(out, vec![1, 0, 0, 0, 0xff, 0xff, 0xff, 0xff, 4, 3, 2, 1]);
}

#[test]
fn read_i32_reads_what_write_i32_wrote() {
    let mut out = vec![9u8];
    write_i32(&mut out, -123_456);
    assert_eq!(read_i32(&out, 1), Ok((-123_456, 5)));
}

#[test]
fn read_i32_needs_four_bytes() {
    assert_eq!(read_i32(&[1, 2, 3], 0), Err(RegistryError::TruncatedRecord));
    assert_eq!(read_i32(&[1, 2, 3, 4], 1), Err(RegistryError::TruncatedRecord));
    assert_eq!(read_i32(&[1, 2, 3, 4], 9), Err(RegistryError::TruncatedRecord));
}

#[test]
fn read_i32_option_tells_a_clean_end_from_a_cut() {
    assert_eq!(read_i32_option(&[], 0), Ok(None));
    assert_eq!(read_i32_option(&[7, 0, 0, 0], 4), Ok(None));
    assert_eq!(read_i32_option(&[7, 0, 0, 0], 0), Ok(Some((7, 4))));
    assert_eq!(read_i32_option(&[7, 0, 0], 0), Err(RegistryError::TruncatedRecord));
}

#[test]
fn a_present_field_is_length_then_bytes() {
    let mut out = Vec::new();
    assert_eq!(write_bytes(&mut out, Some(&[0xaa, 0xbb, 0xcc])), Ok(()));
    assert_eq!(out, vec![3, 0, 0, 0, 0xaa, 0xbb, 0xcc]);
    assert_eq!(read_bytes(&out, 0), Ok((Some(vec![0xaa, 0xbb, 0xcc]), 7)));
}

#[test]
fn an_absent_field_is_minus_one() {
    let mut out = Vec::new();
    assert_eq!(write_bytes(&mut out, None), Ok(()));
    assert_eq!(out, vec![0xff, 0xff, 0xff, 0xff]);
    assert_eq!(read_bytes(&out, 0), Ok((None, 4)));
}

#[test]
fn an_empty_field_is_present() {
    let mut out = Vec::new();
    assert_eq!(write_bytes(&mut out, Some(&[])), Ok(()));
    assert_eq!(out, vec![0, 0, 0, 0]);
    assert_eq!(read_bytes(&out, 0), Ok((Some(vec![]), 4)));
}

#[test]
fn a_length_below_minus_one_is_malformed() {
    let mut out = Vec::new();
    write_i32(&mut out, -2);
    assert_eq!(read_bytes(&out, 0), Err(RegistryError::MalformedField));
}

#[test]
fn a_field_cut_short_is_truncated() {
    assert_eq!(read_bytes(&[5, 0, 0, 0, 1, 2], 0), Err(RegistryError::TruncatedRecord));
    assert_eq!(read_bytes(&[5, 0], 0), Err(RegistryError::TruncatedRecord));
}

#[test]
fn text_is_written_as_utf8() {
    let mut out = Vec::new();
    assert_eq!(write_string(&mut out, Some("hé")), Ok(()));
    assert_eq!(out, vec![3, 0, 0, 0, b'h', 0xc3, 0xa9]);
    assert_eq!(read_string(&out, 0), Ok((Some(String::from("hé")), 7)));
}

#[test]
fn text_that_is_not_utf8_is_malformed() {
    assert_eq!(read_string(&[2, 0, 0, 0, 0xc3, 0x28], 0), Err(RegistryError::MalformedField));
}

#[test]
fn absent_text_is_read_as_none() {
    let mut out = Vec::new();
    assert_eq!(write_string(&mut out, None), Ok(()));
    assert_eq!(read_string(&out, 0), Ok((None, 4)));
}

#[test]
fn a_field_longer_than_its_prefix_can_say_is_refused() {
    let big = vec![0u8; 0x8000_0000];
    let mut out = vec![1u8, 2, 3];
    assert_eq!(write_bytes(&mut out, Some(&big)), Err(RegistryError::FieldTooLarge));
    assert_eq!(out, vec![1, 2, 3]);
}

#[test]
fn a_number_is_written_least_byte_first() {
    let mut out = vec![0xeeu8];
    write_le(&mut out, 0x0102_0304_0506_0708_090a_0b0c_0d0e_0f10, 16);
    assert_eq!(
        out,
        vec![0xee, 0x10, 0x0f, 0x0e, 0x0d, 0x0c, 0x0b, 0x0a, 9, 8, 7, 6, 5, 4, 3, 2, 1]
    );
    assert_eq!(read_le(&out, 1, 16), 0x0102_0304_0506_0708_090a_0b0c_0d0e_0f10);
    assert_eq!(read_le(&out, 1, 2), 0x0f10);
    assert_eq!(read_le(&out, 3, 0), 0);
}

#[test]
fn a_number_wider_than_its_width_loses_its_top() {
    let mut out = Vec::new();
    write_le(&mut out, 0x1_0203, 2);
    assert_eq!(out, vec![3, 2]);
    write_le(&mut out, 7, 0);
    assert_eq!(out, vec![3, 2]);
}

#[test]
fn the_greatest_and_the_least_numbers_are_read_back() {
    for value in [0u128, 1, 255, 256, u128::MAX, u128::MAX - 1, 1 << 127] {
        let mut out = Vec::new();
        write_le(&mut out, value, 16);
        assert_eq!(out.len(), 16);
        assert_eq!(read_le(&out, 0, 16), value);
    }
    for value in [i32::MIN, -2, -1, 0, 1, i32::MAX] {
        let mut out = Vec::new();
        write_i32(&mut out, value);
        assert_eq!(out, value.to_le_bytes().to_vec());
        assert_eq!(read_i32(&out, 0), Ok((value, 4)));
    }
}
