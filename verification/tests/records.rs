use enigmatic::errors::RegistryError;
use enigmatic::storage::entries::EntryOperationDto;
use enigmatic::storage::wire::write_i32;

fn sample_add() -> EntryOperationDto {
    EntryOperationDto::Add {
        hash: [0x11; 32],
        timestamp: 0x0102,
        name: String::from("db"),
        description: String::from("prod"),
        secret: vec![9, 8, 7],
    }
}

fn sample_update() -> EntryOperationDto {
    EntryOperationDto::Update {
        hash: [0x22; 32],
        timestamp: u128::MAX,
        src_name: String::from("db"),
        dst_name: Some(String::from("database")),
        dst_description: None,
        dst_secret: Some(vec![]),
    }
}

fn sample_del() -> EntryOperationDto {
    EntryOperationDto::Del { hash: [0x33; 32], timestamp: 0, name: String::from("dé") }
}

fn head(code: u8, hash: u8, stamp: [u8; 16]) -> Vec<u8> {
    let mut bytes = vec![code, 0, 0, 0];
    bytes.extend_from_slice(&[hash; 32]);
    bytes.extend_from_slice(&stamp);
    bytes
}

#[test]
fn an_addition_on_the_wire() {
    let mut stamp = [0u8; 16];
    stamp[0] = 2;
    stamp[1] = 1;
    let mut expected = head(1, 0x11, stamp);
    expected.extend_from_slice(&[2, 0, 0, 0, b'd', b'b']);
    expected.extend_from_slice(&[4, 0, 0, 0, b'p', b'r', b'o', b'd']);
    expected.extend_from_slice(&[3, 0, 0, 0, 9, 8, 7]);
    assert_eq!(sample_add().encode(), Ok(expected));
}

#[test]
fn an_update_on_the_wire() {
    let mut expected = head(2, 0x22, [0xff; 16]);
    expected.extend_from_slice(&[2, 0, 0, 0, b'd', b'b']);
    expected.extend_from_slice(&[8, 0, 0, 0]);
    expected.extend_from_slice(b"database");
    expected.extend_from_slice(&[0xff, 0xff, 0xff, 0xff]);
    expected.extend_from_slice(&[0, 0, 0, 0]);
    assert_eq!(sample_update().encode(), Ok(expected));
}

#[test]
fn a_deletion_on_the_wire() {
    let mut expected = head(3, 0x33, [0; 16]);
    expected.extend_from_slice(&[3, 0, 0, 0, b'd', 0xc3, 0xa9]);
    assert_eq!(sample_del().encode(), Ok(expected));
}

#[test]
fn every_kind_of_record_is_read_back() {
    for operation in [sample_add(), sample_update(), sample_del()] {
        let encoded = operation.encode().unwrap();
        let end = encoded.len();
        assert_eq!(EntryOperationDto::decode(&encoded, 0), Ok((operation, end)));
    }
}

#[test]
fn a_record_is_read_back_from_the_middle_of_a_log() {
    let mut log = sample_del().encode().unwrap();
    let at = log.len();
    log.extend_from_slice(&sample_update().encode().unwrap());
    let end = log.len();
    log.extend_from_slice(&sample_add().encode().unwrap());
    assert_eq!(EntryOperationDto::decode(&log, at), Ok((sample_update(), end)));
}

#[test]
fn an_update_with_nothing_to_change_is_read_back() {
    let operation = EntryOperationDto::Update {
        hash: [0; 32],
        timestamp: 5,
        src_name: String::new(),
        dst_name: None,
        dst_description: None,
        dst_secret: None,
    };
    let encoded = operation.encode().unwrap();
    assert_eq!(encoded.len(), 4 + 32 + 16 + 4 + 4 + 4 + 4);
    assert_eq!(EntryOperationDto::decode(&encoded, 0), Ok((operation, 68)));
}

#[test]
fn a_record_cut_anywhere_is_truncated() {
    let encoded = sample_add().encode().unwrap();
    for cut in 0..encoded.len() {
        assert_eq!(
            EntryOperationDto::decode(&encoded[..cut], 0),
            Err(RegistryError::TruncatedRecord),
            "cut at {}",
            cut
        );
    }
}

#[test]
fn a_code_that_names_no_operation_is_unknown() {
    for code in [0, 4, -1, 256] {
        let mut bytes = Vec::new();
        write_i32(&mut bytes, code);
        bytes.extend_from_slice(&[0u8; 200]);
        assert_eq!(
            EntryOperationDto::decode(&bytes, 0),
            Err(RegistryError::UnknownOperationCode)
        );
    }
}

#[test]
fn an_unknown_code_is_told_before_the_rest_is_missed() {
    assert_eq!(
        EntryOperationDto::decode(&[9, 0, 0, 0], 0),
        Err(RegistryError::UnknownOperationCode)
    );
}

#[test]
fn a_required_field_marked_absent_is_malformed() {
    let mut bytes = head(3, 0, [0; 16]);
    bytes.extend_from_slice(&[0xff, 0xff, 0xff, 0xff]);
    assert_eq!(EntryOperationDto::decode(&bytes, 0), Err(RegistryError::MalformedField));
}

#[test]
fn a_name_that_is_not_text_is_malformed() {
    let mut bytes = head(3, 0, [0; 16]);
    bytes.extend_from_slice(&[1, 0, 0, 0, 0x80]);
    assert_eq!(EntryOperationDto::decode(&bytes, 0), Err(RegistryError::MalformedField));
}

#[test]
fn a_secret_too_long_for_its_prefix_has_no_wire_form() {
    let operation = EntryOperationDto::Add {
        hash: [0; 32],
        timestamp: 0,
        name: String::from("big"),
        description: String::new(),
        secret: vec![0u8; 0x8000_0000],
    };
    assert_eq!(operation.encode(), Err(RegistryError::FieldTooLarge));
}

#[test]
fn with_hash_changes_the_hash_only() {
    let changed = sample_add().with_hash([0x77; 32]);
    assert_eq!(
        changed,
        EntryOperationDto::Add {
            hash: [0x77; 32],
            timestamp: 0x0102,
            name: String::from("db"),
            description: String::from("prod"),
            secret: vec![9, 8, 7],
        }
    );
}
