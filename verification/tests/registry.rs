use enigmatic::errors::RegistryError;
use enigmatic::storage::entries::EntryOperationDto;
use enigmatic::storage::registries::key_custodian::{
    accept_plaintext, ciphertext_of, decrypt_secret, encrypt_secret, passphrase_length,
    seal_private_key, unseal_private_key, unsealed_key, UnsealFault,
};
use enigmatic::storage::registries::{RegistryHeader, RegistryRepository};

fn operation(name: &str) -> EntryOperationDto {
    EntryOperationDto::Del { hash: [5; 32], timestamp: 77, name: String::from(name) }
}

#[test]
fn a_new_registry_is_header_keys_and_an_empty_log() {
    let registry = RegistryRepository::init("alice", "correct horse").unwrap();
    let image = registry.image().clone();
    assert_eq!(image.len(), 272 + 33 + 88);
    let header = RegistryHeader::read(&image).unwrap();
    assert_eq!(header.version, 1);
    assert_eq!(header.key_type, 1);
    assert_eq!(header.public_key_size, 33);
    assert_eq!(header.private_key_size, 88);
    assert_eq!(header.name, RegistryHeader::pack_name("alice"));
    assert_eq!(&image[272..305], &registry.public_key()[..]);
    assert_eq!(registry.name(), "alice");
    assert_eq!(registry.log_start(), image.len());
    assert_eq!(registry.position(), image.len());
    assert!(registry.decrypted());
}

#[test]
fn two_new_registries_have_different_keys() {
    let first = RegistryRepository::init("a", "pw").unwrap();
    let second = RegistryRepository::init("a", "pw").unwrap();
    assert_ne!(first.public_key(), second.public_key());
}

#[test]
fn init_keeps_the_first_64_characters_of_the_name() {
    let name = "x".repeat(100);
    let registry = RegistryRepository::init(&name, "pw").unwrap();
    assert_eq!(registry.name(), "x".repeat(64));
}

#[test]
fn assemble_lays_the_sections_out_in_order() {
    let registry =
        RegistryRepository::assemble("bob", vec![1, 2, 3], vec![4, 5], vec![6, 7, 8, 9]).unwrap();
    let mut expected = Vec::new();
    RegistryHeader {
        version: 1,
        name: RegistryHeader::pack_name("bob"),
        key_type: 1,
        public_key_size: 3,
        private_key_size: 4,
    }
    .write(&mut expected);
    expected.extend_from_slice(&[1, 2, 3, 6, 7, 8, 9]);
    assert_eq!(registry.image(), &expected);
    assert_eq!(registry.log_start(), 279);
    assert_eq!(registry.position(), 279);
    assert_eq!(registry.sealed_key(), vec![6, 7, 8, 9]);
    assert!(registry.decrypted());
}

#[test]
fn assemble_refuses_a_key_section_too_long_for_the_header() {
    let r = RegistryRepository::assemble("bob", vec![0u8; 0x8000_0000], vec![], vec![]);
    assert!(matches!(r, Err(RegistryError::FieldTooLarge)));
}

#[test]
fn open_reads_the_name_and_the_public_key() {
    let created = RegistryRepository::init("carol", "pw").unwrap();
    let opened = RegistryRepository::open(created.image().clone()).unwrap();
    assert_eq!(opened.name(), "carol");
    assert_eq!(opened.public_key(), created.public_key());
    assert_eq!(opened.image(), created.image());
    assert_eq!(opened.position(), 393);
    assert_eq!(opened.log_start(), 393);
    assert!(!opened.decrypted());
}

#[test]
fn open_refuses_an_image_shorter_than_a_header() {
    let r = RegistryRepository::open(vec![0u8; 271]);
    assert!(matches!(r, Err(RegistryError::TruncatedHeader)));
}

#[test]
fn open_refuses_key_sections_that_are_cut_short() {
    let created = RegistryRepository::init("carol", "pw").unwrap();
    let mut image = created.image().clone();
    image.pop();
    assert!(matches!(RegistryRepository::open(image), Err(RegistryError::CorruptKeyMaterial)));
}

#[test]
fn open_refuses_negative_key_sizes() {
    let mut image = Vec::new();
    RegistryHeader {
        version: 1,
        name: [0; 256],
        key_type: 1,
        public_key_size: -1,
        private_key_size: 0,
    }
    .write(&mut image);
    assert!(matches!(RegistryRepository::open(image), Err(RegistryError::CorruptKeyMaterial)));
    let mut image = Vec::new();
    RegistryHeader {
        version: 1,
        name: [0; 256],
        key_type: 1,
        public_key_size: 0,
        private_key_size: -5,
    }
    .write(&mut image);
    assert!(matches!(RegistryRepository::open(image), Err(RegistryError::CorruptKeyMaterial)));
}

#[test]
fn open_refuses_a_name_that_is_not_text() {
    let mut image = Vec::new();
    RegistryHeader {
        version: 1,
        name: [0xff; 256],
        key_type: 1,
        public_key_size: 0,
        private_key_size: 0,
    }
    .write(&mut image);
    assert!(matches!(RegistryRepository::open(image), Err(RegistryError::MalformedField)));
}

#[test]
fn open_decrypt_unseals_the_private_key() {
    let created = RegistryRepository::init("dave", "s3cret").unwrap();
    let opened = RegistryRepository::open_decrypt(created.image().clone(), "s3cret").unwrap();
    assert!(opened.decrypted());
    assert_eq!(opened.name(), "dave");
    let ciphertext = created.encrypt(b"hunter2").unwrap();
    assert_eq!(opened.decrypt(&ciphertext), Some(b"hunter2".to_vec()));
}

#[test]
fn open_decrypt_refuses_a_wrong_password() {
    let created = RegistryRepository::init("dave", "s3cret").unwrap();
    let r = RegistryRepository::open_decrypt(created.image().clone(), "secret");
    assert!(matches!(r, Err(RegistryError::WrongPassword)));
}

#[test]
fn open_decrypt_refuses_a_sealed_key_that_is_too_short() {
    let created = RegistryRepository::assemble("eve", vec![1; 33], vec![2; 32], vec![3; 55]).unwrap();
    let r = RegistryRepository::open_decrypt(created.image().clone(), "pw");
    assert!(matches!(r, Err(RegistryError::CorruptKeyMaterial)));
}

#[test]
fn unsealing_faults_become_errors() {
    assert_eq!(unsealed_key(Ok(vec![1, 2])), Ok(vec![1, 2]));
    assert_eq!(unsealed_key(Err(UnsealFault::Rejected)), Err(RegistryError::WrongPassword));
    for fault in
        [UnsealFault::IncompleteSalt, UnsealFault::IncompleteNonce, UnsealFault::IncompleteMac]
    {
        assert_eq!(unsealed_key(Err(fault)), Err(RegistryError::CorruptKeyMaterial));
    }
}

#[test]
fn sealed_bytes_of_every_short_length_are_corrupt() {
    for len in [0usize, 15, 16, 39, 40, 55] {
        assert_eq!(
            unseal_private_key(&vec![7u8; len], "pw"),
            Err(RegistryError::CorruptKeyMaterial)
        );
    }
    assert_eq!(unseal_private_key(&[7u8; 56], "pw"), Err(RegistryError::WrongPassword));
}

#[test]
fn a_registry_without_its_password_encrypts_but_does_not_decrypt() {
    let created = RegistryRepository::init("frank", "pw").unwrap();
    let opened = RegistryRepository::open(created.image().clone()).unwrap();
    let ciphertext = opened.encrypt(b"top secret").unwrap();
    assert_ne!(ciphertext, b"top secret".to_vec());
    assert_eq!(opened.decrypt(&ciphertext), None);
    assert_eq!(created.decrypt(&ciphertext), Some(b"top secret".to_vec()));
}

#[test]
fn encryption_is_not_the_identity_and_decryption_undoes_it() {
    let created = RegistryRepository::init("frank", "pw").unwrap();
    let first = created.encrypt(b"abc").unwrap();
    let second = created.encrypt(b"abc").unwrap();
    assert_ne!(first, second);
    assert_eq!(created.decrypt(&first), Some(b"abc".to_vec()));
    assert_eq!(created.decrypt(&second), Some(b"abc".to_vec()));
}

#[test]
fn garbage_does_not_decrypt() {
    let created = RegistryRepository::init("frank", "pw").unwrap();
    assert_eq!(created.decrypt(&[1, 2, 3]), None);
    assert_eq!(created.decrypt(&[]), None);
}

#[test]
fn a_key_that_is_no_curve_point_does_not_encrypt() {
    assert_eq!(encrypt_secret(&[1, 2, 3], b"x"), Err(RegistryError::CorruptKeyMaterial));
    let registry =
        RegistryRepository::assemble("bad", vec![0u8; 33], vec![0u8; 32], vec![0u8; 88]).unwrap();
    assert_eq!(registry.encrypt(b"x"), Err(RegistryError::CorruptKeyMaterial));
}

#[test]
fn a_key_of_no_public_keys_length_does_not_encrypt() {
    for len in [0usize, 1, 32, 34, 63, 66, 100] {
        assert_eq!(
            encrypt_secret(&vec![2u8; len], b"x"),
            Err(RegistryError::CorruptKeyMaterial),
            "length {}",
            len
        );
    }
    let registry =
        RegistryRepository::assemble("short", vec![2u8; 32], vec![0u8; 32], vec![0u8; 88])
            .unwrap();
    assert_eq!(registry.encrypt(b"x"), Err(RegistryError::CorruptKeyMaterial));
}

#[test]
fn a_compressed_key_encrypts_and_the_private_key_decrypts() {
    let created = RegistryRepository::init("forms", "pw").unwrap();
    let compressed = created.public_key().clone();
    assert_eq!(compressed.len(), 33);
    let ciphertext = encrypt_secret(&compressed, b"abc").unwrap();
    assert_eq!(created.decrypt(&ciphertext), Some(b"abc".to_vec()));
}

#[test]
fn an_encryption_outcome_as_the_registry_reports_it() {
    assert_eq!(ciphertext_of(Some(vec![4, 5, 6])), Ok(vec![4, 5, 6]));
    assert_eq!(ciphertext_of(Some(vec![])), Ok(vec![]));
    assert_eq!(ciphertext_of(None), Err(RegistryError::CorruptKeyMaterial));
}

#[test]
fn an_empty_plaintext_under_a_ciphertext_is_no_secret() {
    assert_eq!(accept_plaintext(97, Some(vec![])), None);
    assert_eq!(accept_plaintext(0, Some(vec![])), Some(vec![]));
    assert_eq!(accept_plaintext(5, Some(vec![1])), Some(vec![1]));
    assert_eq!(accept_plaintext(5, None), None);
    assert_eq!(accept_plaintext(0, None), None);
}

#[test]
fn an_encrypted_empty_secret_decrypts_to_nothing() {
    let created = RegistryRepository::init("gina", "pw").unwrap();
    let ciphertext = created.encrypt(b"").unwrap();
    assert!(!ciphertext.is_empty());
    assert_eq!(created.decrypt(&ciphertext), None);
    let opened = RegistryRepository::open_decrypt(created.image().clone(), "pw").unwrap();
    let key_holder = opened.decrypt(&created.encrypt(b"x").unwrap());
    assert_eq!(key_holder, Some(b"x".to_vec()));
    assert_eq!(decrypt_secret(&[0u8; 32], &ciphertext), None);
}

#[test]
fn records_are_appended_and_read_in_order() {
    let mut registry = RegistryRepository::assemble("log", vec![], vec![], vec![]).unwrap();
    assert_eq!(registry.write_operation(&operation("one")), Ok(()));
    assert_eq!(registry.write_operation(&operation("two")), Ok(()));
    assert_eq!(registry.position(), registry.image().len());
    assert_eq!(registry.read_operation(), Ok(None));
    registry.rewind();
    assert_eq!(registry.position(), 272);
    assert_eq!(registry.read_operation(), Ok(Some(operation("one"))));
    assert_eq!(registry.read_operation(), Ok(Some(operation("two"))));
    assert_eq!(registry.read_operation(), Ok(None));
    assert_eq!(registry.read_operation(), Ok(None));
}

#[test]
fn the_log_of_a_reopened_registry_is_read_from_its_start() {
    let mut registry = RegistryRepository::init("log", "pw").unwrap();
    registry.write_operation(&operation("one")).unwrap();
    let mut reopened = RegistryRepository::open(registry.image().clone()).unwrap();
    assert_eq!(reopened.read_operation(), Ok(Some(operation("one"))));
    assert_eq!(reopened.read_operation(), Ok(None));
}

#[test]
fn a_write_in_the_middle_goes_over_what_lies_there() {
    let mut registry = RegistryRepository::assemble("log", vec![], vec![], vec![]).unwrap();
    registry.write_operation(&operation("aa")).unwrap();
    registry.write_operation(&operation("bb")).unwrap();
    registry.write_operation(&operation("cc")).unwrap();
    let len = registry.image().len();
    registry.rewind();
    registry.read_operation().unwrap();
    registry.write_operation(&operation("xx")).unwrap();
    assert_eq!(registry.image().len(), len);
    assert_eq!(registry.read_operation(), Ok(Some(operation("cc"))));
    registry.rewind();
    assert_eq!(registry.read_operation(), Ok(Some(operation("aa"))));
    assert_eq!(registry.read_operation(), Ok(Some(operation("xx"))));
}

#[test]
fn a_long_write_in_the_middle_reaches_beyond_the_end() {
    let mut registry = RegistryRepository::assemble("log", vec![], vec![], vec![]).unwrap();
    registry.write_operation(&operation("a")).unwrap();
    registry.rewind();
    registry.write_operation(&operation("a much longer name")).unwrap();
    assert_eq!(registry.position(), registry.image().len());
    registry.rewind();
    assert_eq!(registry.read_operation(), Ok(Some(operation("a much longer name"))));
    assert_eq!(registry.read_operation(), Ok(None));
}

#[test]
fn a_failed_read_leaves_the_cursor() {
    let mut image = RegistryRepository::assemble("log", vec![], vec![], vec![])
        .unwrap()
        .image()
        .clone();
    image.extend_from_slice(&[3, 0, 0]);
    let mut registry = RegistryRepository::open(image).unwrap();
    assert_eq!(registry.read_operation(), Err(RegistryError::TruncatedRecord));
    assert_eq!(registry.position(), 272);
}

#[test]
fn a_record_that_cannot_be_encoded_is_not_written() {
    let mut registry = RegistryRepository::assemble("log", vec![], vec![], vec![]).unwrap();
    let big = EntryOperationDto::Add {
        hash: [0; 32],
        timestamp: 0,
        name: String::from("big"),
        description: String::new(),
        secret: vec![0u8; 0x8000_0000],
    };
    assert_eq!(registry.write_operation(&big), Err(RegistryError::FieldTooLarge));
    assert_eq!(registry.image().len(), 272);
    assert_eq!(registry.position(), 272);
}

#[test]
fn a_passphrase_longer_than_the_cipher_takes_is_refused() {
    assert_eq!(passphrase_length(0), Ok(()));
    assert_eq!(passphrase_length(4_294_967_295), Ok(()));
    assert_eq!(passphrase_length(4_294_967_296), Err(RegistryError::PasswordTooLong));
    assert_eq!(passphrase_length(usize::MAX), Err(RegistryError::PasswordTooLong));
}

#[test]
fn a_sealed_key_is_56_bytes_longer_and_opens_under_its_password() {
    let key = vec![7u8; 32];
    let sealed = seal_private_key(&key, "pässword").unwrap();
    assert_eq!(sealed.len(), 88);
    assert_ne!(&sealed[56..], &key[..]);
    assert_eq!(unseal_private_key(&sealed, "pässword"), Ok(key));
    assert_eq!(unseal_private_key(&sealed, "password"), Err(RegistryError::WrongPassword));
}

#[test]
fn sealing_works_on_data_of_any_length_and_an_empty_password() {
    let sealed = seal_private_key(&[], "").unwrap();
    assert_eq!(sealed.len(), 56);
    assert_eq!(unseal_private_key(&sealed, ""), Ok(vec![]));
    let sealed = seal_private_key(&[1, 2, 3], "").unwrap();
    assert_eq!(unseal_private_key(&sealed, ""), Ok(vec![1, 2, 3]));
}

#[test]
fn a_new_registry_opens_under_its_password_to_its_private_key() {
    let created = RegistryRepository::init("keys", "pw").unwrap();
    let opened = RegistryRepository::open_decrypt(created.image().clone(), "pw").unwrap();
    let sealed = created.sealed_key();
    assert_eq!(sealed.len(), 88);
    let key = unseal_private_key(&sealed, "pw").unwrap();
    assert_eq!(key.len(), 32);
    let ciphertext = created.encrypt(b"same key").unwrap();
    assert_eq!(decrypt_secret(&key, &ciphertext), Some(b"same key".to_vec()));
    assert_eq!(opened.decrypt(&ciphertext), Some(b"same key".to_vec()));
}

#[test]
fn a_ciphertext_is_97_bytes_longer_than_its_secret() {
    let created = RegistryRepository::init("len", "pw").unwrap();
    for len in [0usize, 1, 16, 1000] {
        let ciphertext = created.encrypt(&vec![5u8; len]).unwrap();
        assert_eq!(ciphertext.len(), len + 97);
    }
}

#[test]
fn a_secret_longer_than_the_cipher_takes_is_too_large() {
    let created = RegistryRepository::init("big", "pw").unwrap();
    let big = vec![0u8; 0x8000_0000];
    assert_eq!(created.encrypt(&big), Err(RegistryError::FieldTooLarge));
    assert_eq!(encrypt_secret(&[1, 2, 3], &big), Err(RegistryError::FieldTooLarge));
    assert_eq!(
        encrypt_secret(&[1, 2, 3], &big[..0x7fff_ffff]),
        Err(RegistryError::CorruptKeyMaterial)
    );
}

#[test]
fn a_ciphertext_longer_than_the_cipher_takes_decrypts_to_nothing() {
    let created = RegistryRepository::init("big", "pw").unwrap();
    let big = vec![0u8; 0x8000_0000];
    assert_eq!(created.decrypt(&big), None);
    assert_eq!(decrypt_secret(&[1u8; 32], &big), None);
}
