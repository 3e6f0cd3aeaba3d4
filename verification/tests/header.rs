use enigmatic::errors::RegistryError;
use enigmatic::storage::registries::registry_header::{HEADER_SIZE, NAME_LIMIT, NAME_SIZE};
use enigmatic::storage::registries::RegistryHeader;

fn sample_header() -> RegistryHeader {
    let mut name = [0u8; 256];
    name[0] = b'v';
    name[1] = b'a';
    name[2] = b'u';
    name[3] = b'l';
    name[4] = b't';
    RegistryHeader { version: 1, name, key_type: 1, public_key_size: 33, private_key_size: 88 }
}

#[test]
fn the_header_is_272_bytes_in_field_order() {
    let mut out = Vec::new();
    sample_header().write(&mut out);
    assert_eq!(out.len(), 272);
    assert_eq!(HEADER_SIZE, 272);
    assert_eq!(NAME_SIZE, 256);
    assert_eq!(&out[0..4], &[1, 0, 0, 0]);
    assert_eq!(&out[4..9], b"vault");
    assert!(out[9..260].iter().all(|b| *b == 0));
    assert_eq!(&out[260..264], &[1, 0, 0, 0]);
    assert_eq!(&out[264..268], &[33, 0, 0, 0]);
    assert_eq!(&out[268..272], &[88, 0, 0, 0]);
}

#[test]
fn a_header_is_read_back_from_its_bytes() {
    let header = sample_header();
    let mut out = Vec::new();
    header.write(&mut out);
    out.extend_from_slice(&[0xde, 0xad]);
    assert_eq!(RegistryHeader::read(&out), Ok(header));
}

#[test]
fn a_header_with_negative_fields_is_read_back() {
    let header = RegistryHeader {
        version: -7,
        name: [0xff; 256],
        key_type: i32::MIN,
        public_key_size: i32::MAX,
        private_key_size: -1,
    };
    let mut out = Vec::new();
    header.write(&mut out);
    assert_eq!(RegistryHeader::read(&out), Ok(header));
}

#[test]
fn fewer_bytes_than_a_header_are_truncated() {
    let mut out = Vec::new();
    sample_header().write(&mut out);
    out.pop();
    assert_eq!(RegistryHeader::read(&out), Err(RegistryError::TruncatedHeader));
    assert_eq!(RegistryHeader::read(&[]), Err(RegistryError::TruncatedHeader));
}

#[test]
fn a_short_name_is_padded_with_zeros() {
    let field = RegistryHeader::pack_name("alice");
    assert_eq!(&field[0..5], b"alice");
    assert!(field[5..].iter().all(|b| *b == 0));
}

#[test]
fn a_long_name_is_cut_to_64_characters() {
    assert_eq!(NAME_LIMIT, 64);
    let name: String = "abcdefghij".repeat(10);
    let field = RegistryHeader::pack_name(&name);
    assert_eq!(&field[0..64], name[0..64].as_bytes());
    assert!(field[64..].iter().all(|b| *b == 0));
}

#[test]
fn sixty_four_wide_characters_fill_the_field() {
    let name: String = "😀".repeat(70);
    let field = RegistryHeader::pack_name(&name);
    assert_eq!(&field[..], "😀".repeat(64).as_bytes());
    assert_eq!(RegistryHeader::unpack_name(&field), Ok("😀".repeat(64)));
}

#[test]
fn a_name_is_read_back_without_its_padding() {
    let field = RegistryHeader::pack_name("héllo wörld");
    assert_eq!(RegistryHeader::unpack_name(&field), Ok(String::from("héllo wörld")));
}

#[test]
fn an_empty_name_field_is_the_empty_name() {
    assert_eq!(RegistryHeader::unpack_name(&[0u8; 256]), Ok(String::new()));
    assert_eq!(RegistryHeader::pack_name(""), [0u8; 256]);
}

#[test]
fn zeros_inside_a_name_stay() {
    let mut field = [0u8; 256];
    field[0] = b'a';
    field[2] = b'b';
    assert_eq!(RegistryHeader::unpack_name(&field), Ok(String::from("a\0b")));
}

#[test]
fn a_name_field_that_is_not_text_is_malformed() {
    let mut field = [0u8; 256];
    field[0] = 0xff;
    assert_eq!(RegistryHeader::unpack_name(&field), Err(RegistryError::MalformedField));
}

#[test]
fn a_zero_at_the_end_of_a_name_is_taken_for_padding() {
    let field = RegistryHeader::pack_name("a\0");
    assert_eq!(field, RegistryHeader::pack_name("a"));
    assert_eq!(RegistryHeader::unpack_name(&field), Ok(String::from("a")));
}

#[test]
fn the_cut_falls_between_characters() {
    let name: String = format!("{}{}", "é".repeat(63), "😀😀");
    let field = RegistryHeader::pack_name(&name);
    let kept: String = format!("{}{}", "é".repeat(63), "😀");
    assert_eq!(RegistryHeader::unpack_name(&field), Ok(kept));
}
