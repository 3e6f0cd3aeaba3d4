//! The registry store: one byte image and a cursor into its log.
//!
//! The image is the registry as it lies in its file: header, public key,
//! sealed private key, then the log. The store never touches a file. Its
//! caller reads the image in and writes out what an append has added.

use crate::errors::RegistryError;
use crate::storage::entries::entry_operation_dto::{
    lemma_record_advances, parse_next, EntryOperationDto,
};
use crate::storage::registries::key_custodian::{
    ciphertext_length, decrypt_secret, decryption, encrypt_secret, encryption_refusal,
    generate_keypair, passphrase_length, seal_private_key, unseal_private_key, unsealing,
    CIPHER_LIMIT,
    PASSPHRASE_LIMIT, PRIVATE_KEY_SIZE, PUBLIC_KEY_SIZE, SEAL_OVERHEAD,
};
use crate::storage::registries::registry_header::{
    header_round_trip, name_field, name_text, parse_header, stored_name, stored_name_is_text,
    HeaderView, RegistryHeader, HEADER_SIZE,
};
use crate::storage::wire::{option_vec, read_i32_option};
use vstd::prelude::*;
use vstd::slice::*;
use vstd::utf8::*;

verus! {

/// The format version that this library writes.
pub const FORMAT_VERSION: i32 = 1;

/// The tag of the one key scheme there is.
pub const KEY_TYPE: i32 = 1;

/// What stands in front of the log: the header and the two key sections.
pub struct Preamble {
    pub header: HeaderView,
    pub public_key: Seq<u8>,
    pub sealed_key: Seq<u8>,
    pub log_start: int,
}

/// Reads the header and finds the key sections that it announces.
pub open spec fn parse_preamble(image: Seq<u8>) -> Result<Preamble, RegistryError> {
    match parse_header(image) {
        None => Err(RegistryError::TruncatedHeader),
        Some(header) => {
            let keys_end = HEADER_SIZE + header.public_key_size + header.private_key_size;
            if header.public_key_size < 0 || header.private_key_size < 0 || keys_end
                > image.len() {
                Err(RegistryError::CorruptKeyMaterial)
            } else {
                Ok(
                    Preamble {
                        header,
                        public_key: image.subrange(
                            HEADER_SIZE as int,
                            HEADER_SIZE + header.public_key_size,
                        ),
                        sealed_key: image.subrange(
                            HEADER_SIZE + header.public_key_size,
                            keys_end,
                        ),
                        log_start: keys_end,
                    },
                )
            }
        },
    }
}

/// What opening an image finds: the preamble, once its name is known to be
/// text.
pub open spec fn parse_registry(image: Seq<u8>) -> Result<Preamble, RegistryError> {
    match parse_preamble(image) {
        Err(e) => Err(e),
        Ok(preamble) => if valid_utf8(name_text(preamble.header.name)) {
            Ok(preamble)
        } else {
            Err(RegistryError::MalformedField)
        },
    }
}

/// What opening an image with a password finds: the preamble and the
/// private key. A password that the sealing cipher does not take is
/// refused before the image is looked at; then the image must open; then
/// the sealed key must open under the password.
pub open spec fn unlocked(image: Seq<u8>, password: Seq<char>) -> Result<
    (Preamble, Seq<u8>),
    RegistryError,
> {
    if encode_utf8(password).len() > PASSPHRASE_LIMIT {
        Err(RegistryError::PasswordTooLong)
    } else {
        match parse_registry(image) {
            Err(e) => Err(e),
            Ok(preamble) => match unsealing(preamble.sealed_key, password) {
                Ok(key) => Ok((preamble, key)),
                Err(e) => Err(e),
            },
        }
    }
}

/// The image of a new registry: header, public key, sealed private key, and
/// an empty log.
pub open spec fn new_image(name: Seq<char>, public_key: Seq<u8>, sealed_key: Seq<u8>) -> Seq<u8> {
    HeaderView {
        version: FORMAT_VERSION,
        name: name_field(name),
        key_type: KEY_TYPE,
        public_key_size: public_key.len() as i32,
        private_key_size: sealed_key.len() as i32,
    }.bytes() + public_key + sealed_key
}

/// The image after `data` is written at `at`, as a file takes a write:
/// over what lies there, and beyond the end where it reaches that far.
pub open spec fn written_at(image: Seq<u8>, at: int, data: Seq<u8>) -> Seq<u8> {
    image.subrange(0, at) + data + if at + data.len() < image.len() {
        image.subrange(at + data.len(), image.len() as int)
    } else {
        Seq::<u8>::empty()
    }
}

/// The store as a mathematical value.
pub struct RegistryView {
    pub name: Seq<char>,
    pub public_key: Seq<u8>,
    pub private_key: Option<Seq<u8>>,
    pub image: Seq<u8>,
    pub log_start: int,
    pub position: int,
}

impl RegistryView {
    /// The image opens, the store holds the public key that the image
    /// announces, and its cursor stands in the log.
    pub open spec fn wf(self) -> bool {
        &&& parse_registry(self.image) matches Ok(preamble)
        &&& preamble.public_key == self.public_key
        &&& preamble.log_start == self.log_start
        &&& self.log_start <= self.position <= self.image.len()
    }

    /// The cursor stands behind the last record.
    pub open spec fn at_end(self) -> bool {
        self.position == self.image.len()
    }
}

/// An open registry.
pub struct RegistryRepository {
    name: String,
    public_key: Vec<u8>,
    private_key: Option<Vec<u8>>,
    image: Vec<u8>,
    log_start: usize,
    position: usize,
}

impl View for RegistryRepository {
    type V = RegistryView;

    closed spec fn view(&self) -> RegistryView {
        RegistryView {
            name: self.name@,
            public_key: self.public_key@,
            private_key: option_vec(self.private_key),
            image: self.image@,
            log_start: self.log_start as int,
            position: self.position as int,
        }
    }
}

/// What lies in front of the log does not change when the log does.
pub proof fn lemma_preamble_stable(image: Seq<u8>, other: Seq<u8>)
    requires
        parse_preamble(image) matches Ok(preamble) && preamble.log_start <= other.len()
            && other.subrange(0, preamble.log_start) == image.subrange(0, preamble.log_start),
    ensures
        parse_preamble(other) == parse_preamble(image),
{
    let preamble = parse_preamble(image)->Ok_0;
    let end = preamble.log_start;
    let a = image.subrange(0, end);
    let b = other.subrange(0, end);
    assert forall|from: int, to: int| 0 <= from <= to <= end implies #[trigger] image.subrange(
        from,
        to,
    ) == other.subrange(from, to) by {
        assert(image.subrange(from, to) =~= a.subrange(from, to));
        assert(other.subrange(from, to) =~= b.subrange(from, to));
    }
    assert(parse_header(other) == parse_header(image));
}

/// The log does not touch the keys: an image that opens still opens when
/// its log has grown, to the same header and the same keys, and under any
/// password to the same private key.
pub proof fn keys_outlast_the_log(image: Seq<u8>, more: Seq<u8>, password: Seq<char>)
    requires
        parse_registry(image) is Ok,
    ensures
        parse_registry(image + more) == parse_registry(image),
        unlocked(image + more, password) == unlocked(image, password),
{
    let preamble = parse_preamble(image)->Ok_0;
    assert((image + more).subrange(0, preamble.log_start) =~= image.subrange(
        0,
        preamble.log_start,
    ));
    lemma_preamble_stable(image, image + more);
}

/// What a new registry writes, opening reads: the image of a new registry
/// opens, whatever its name, and is found to hold the very keys that went
/// into it, with the log starting at its end.
pub proof fn new_image_opens(name: Seq<char>, public_key: Seq<u8>, sealed_key: Seq<u8>)
    requires
        public_key.len() <= i32::MAX,
        sealed_key.len() <= i32::MAX,
    ensures
        parse_registry(new_image(name, public_key, sealed_key)) matches Ok(preamble) && {
            &&& preamble.header.version == FORMAT_VERSION
            &&& preamble.header.key_type == KEY_TYPE
            &&& preamble.header.name == name_field(name)
            &&& preamble.public_key == public_key
            &&& preamble.sealed_key == sealed_key
            &&& preamble.log_start == new_image(name, public_key, sealed_key).len()
        },
{
    let header = HeaderView {
        version: FORMAT_VERSION,
        name: name_field(name),
        key_type: KEY_TYPE,
        public_key_size: public_key.len() as i32,
        private_key_size: sealed_key.len() as i32,
    };
    let image = new_image(name, public_key, sealed_key);
    header_round_trip(header, public_key + sealed_key);
    assert(image =~= header.bytes() + (public_key + sealed_key));
    assert(image.subrange(HEADER_SIZE as int, HEADER_SIZE + public_key.len()) =~= public_key);
    assert(image.subrange(
        HEADER_SIZE + public_key.len(),
        HEADER_SIZE + public_key.len() + sealed_key.len(),
    ) =~= sealed_key);
    stored_name_is_text(name);
}

impl RegistryRepository {
    /// Puts a new registry together from its name and keys. The sealed key
    /// is what goes into the image; the private key itself stays in memory.
    /// Key sections too long for the header's size fields are refused.
    pub fn assemble(
        name: &str,
        public_key: Vec<u8>,
        private_key: Vec<u8>,
        sealed_key: Vec<u8>,
    ) -> (r: Result<Self, RegistryError>)
        ensures
            public_key@.len() <= i32::MAX && sealed_key@.len() <= i32::MAX <==> r is Ok,
            r matches Err(e) ==> e == RegistryError::FieldTooLarge,
            r matches Ok(registry) ==> {
                &&& registry@.wf()
                &&& registry@.at_end()
                &&& registry@ == (RegistryView {
                    name: stored_name(name@),
                    public_key: public_key@,
                    private_key: Some(private_key@),
                    image: new_image(name@, public_key@, sealed_key@),
                    log_start: HEADER_SIZE + public_key@.len() + sealed_key@.len(),
                    position: HEADER_SIZE + public_key@.len() + sealed_key@.len(),
                })
            },
    {
        if public_key.len() > 0x7fff_ffff || sealed_key.len() > 0x7fff_ffff {
            return Err(RegistryError::FieldTooLarge);
        }
        let header = RegistryHeader {
            version: FORMAT_VERSION,
            name: RegistryHeader::pack_name(name),
            key_type: KEY_TYPE,
            public_key_size: public_key.len() as i32,
            private_key_size: sealed_key.len() as i32,
        };
        let mut image: Vec<u8> = Vec::new();
        header.write(&mut image);
        image.extend_from_slice(public_key.as_slice());
        image.extend_from_slice(sealed_key.as_slice());
        let count: usize = name.unicode_len();
        let kept: &str = if count > 64 {
            name.substring_char(0, 64)
        } else {
            name
        };
        let stored: String = kept.to_owned();
        let log_start: usize = image.len();
        proof {
            assert(image@ =~= new_image(name@, public_key@, sealed_key@));
            new_image_opens(name@, public_key@, sealed_key@);
            assert(stored@ =~= stored_name(name@));
        }
        Ok(
            RegistryRepository {
                name: stored,
                public_key,
                private_key: Some(private_key),
                image,
                log_start,
                position: log_start,
            },
        )
    }

    /// Creates a registry: a fresh key pair, the private key sealed under
    /// the password, and an empty log. Which keys and which sealed bytes
    /// come out is up to chance; the rest is fixed, and the image opens
    /// under the password to the private key that the registry holds. A
    /// password that the sealing cipher does not take is refused.
    pub fn init(name: &str, password: &str) -> (r: Result<Self, RegistryError>)
        ensures
            encode_utf8(password@).len() > PASSPHRASE_LIMIT <==> r is Err,
            r matches Err(e) ==> e == RegistryError::PasswordTooLong,
            r matches Ok(registry) ==> {
                &&& registry@.wf()
                &&& registry@.at_end()
                &&& registry@.log_start == registry@.image.len()
                &&& registry@.name == stored_name(name@)
                &&& registry@.public_key.len() == PUBLIC_KEY_SIZE
                &&& unlocked(registry@.image, password@) matches Ok((preamble, key))
                &&& registry@.private_key == Some(key)
                &&& key.len() == PRIVATE_KEY_SIZE
                &&& preamble.sealed_key.len() == PRIVATE_KEY_SIZE + SEAL_OVERHEAD
                &&& registry@.image == new_image(
                    name@,
                    registry@.public_key,
                    preamble.sealed_key,
                )
            },
    {
        let (private_key, public_key) = generate_keypair();
        let sealed_key: Vec<u8> = seal_private_key(private_key.as_slice(), password)?;
        proof {
            new_image_opens(name@, public_key@, sealed_key@);
        }
        Self::assemble(name, public_key, private_key, sealed_key)
    }

    /// Opens a registry for encryption only: reads the header and the
    /// public key, passes over the sealed private key, and leaves the
    /// cursor at the start of the log.
    pub fn open(image: Vec<u8>) -> (r: Result<Self, RegistryError>)
        ensures
            match parse_registry(image@) {
                Ok(preamble) => r matches Ok(registry) && registry@.wf() && registry@
                    == (RegistryView {
                    name: decode_utf8(name_text(preamble.header.name)),
                    public_key: preamble.public_key,
                    private_key: None,
                    image: image@,
                    log_start: preamble.log_start,
                    position: preamble.log_start,
                }),
                Err(e) => r matches Err(fault) && fault == e,
            },
    {
        let header = RegistryHeader::read(image.as_slice())?;
        if header.public_key_size < 0 || header.private_key_size < 0 {
            return Err(RegistryError::CorruptKeyMaterial);
        }
        let left: usize = image.len() - HEADER_SIZE;
        let public_size: usize = header.public_key_size as usize;
        let sealed_size: usize = header.private_key_size as usize;
        if left < public_size || left - public_size < sealed_size {
            return Err(RegistryError::CorruptKeyMaterial);
        }
        let public_key: Vec<u8> = slice_to_vec(
            slice_subrange(image.as_slice(), HEADER_SIZE, HEADER_SIZE + public_size),
        );
        let log_start: usize = HEADER_SIZE + public_size + sealed_size;
        let name: String = RegistryHeader::unpack_name(&header.name)?;
        Ok(
            RegistryRepository {
                name,
                public_key,
                private_key: None,
                image,
                log_start,
                position: log_start,
            },
        )
    }

    /// The sealed private key as it lies in the image.
    pub fn sealed_key(&self) -> (sealed: Vec<u8>)
        requires
            self@.wf(),
        ensures
            parse_preamble(self@.image) matches Ok(preamble) && sealed@ == preamble.sealed_key,
    {
        let from: usize = HEADER_SIZE + self.public_key.len();
        slice_to_vec(slice_subrange(self.image.as_slice(), from, self.log_start))
    }

    /// The same registry with the private key that an unsealing gave, or
    /// the error that its fault stands for.
    pub fn unlock(self, unsealing: Result<Vec<u8>, RegistryError>) -> (r: Result<
        Self,
        RegistryError,
    >)
        ensures
            match unsealing {
                Ok(key) => r matches Ok(registry) && registry@ == (RegistryView {
                    private_key: Some(key@),
                    ..self@
                }),
                Err(e) => r matches Err(fault) && fault == e,
            },
    {
        match unsealing {
            Ok(key) => {
                let mut registry = self;
                registry.private_key = Some(key);
                Ok(registry)
            },
            Err(e) => Err(e),
        }
    }

    /// Opens a registry for decryption too: as `open`, and unseals the
    /// private key with the password. A password that the sealing cipher
    /// does not take is refused before the image is looked at.
    pub fn open_decrypt(image: Vec<u8>, password: &str) -> (r: Result<Self, RegistryError>)
        ensures
            match unlocked(image@, password@) {
                Ok((preamble, key)) => r matches Ok(registry) && registry@.wf() && registry@
                    == (RegistryView {
                    name: decode_utf8(name_text(preamble.header.name)),
                    public_key: preamble.public_key,
                    private_key: Some(key),
                    image: image@,
                    log_start: preamble.log_start,
                    position: preamble.log_start,
                }),
                Err(e) => r matches Err(fault) && fault == e,
            },
    {
        passphrase_length(password.as_bytes().len())?;
        let registry = Self::open(image)?;
        let sealed: Vec<u8> = registry.sealed_key();
        let unsealing = unseal_private_key(sealed.as_slice(), password);
        registry.unlock(unsealing)
    }

    /// Writes one record at the cursor and moves the cursor behind it, as
    /// a file takes a write: at the end of the log the record is appended,
    /// anywhere else it goes over what lies there. Header and keys are
    /// never touched. A record that cannot be encoded is refused and
    /// nothing changes.
    pub fn write_operation(&mut self, operation: &EntryOperationDto) -> (r: Result<
        (),
        RegistryError,
    >)
        requires
            old(self)@.wf(),
        ensures
            final(self)@.wf(),
            operation@.fits() <==> r is Ok,
            r is Ok ==> final(self)@ == (RegistryView {
                image: written_at(old(self)@.image, old(self)@.position, operation@.bytes()),
                position: old(self)@.position + operation@.bytes().len(),
                ..old(self)@
            }),
            r is Ok && old(self)@.at_end() ==> final(self)@.image == old(self)@.image
                + operation@.bytes() && final(self)@.at_end(),
            final(self)@.image.subrange(0, old(self)@.log_start) == old(self)@.image.subrange(
                0,
                old(self)@.log_start,
            ),
            r matches Err(e) ==> e == RegistryError::FieldTooLarge && final(self)@ == old(self)@,
    {
        let encoded: Vec<u8> = operation.encode()?;
        let ghost before = self@;
        if self.position == self.image.len() {
            self.image.extend_from_slice(encoded.as_slice());
        } else {
            let mut next: Vec<u8> = slice_to_vec(
                slice_subrange(self.image.as_slice(), 0, self.position),
            );
            next.extend_from_slice(encoded.as_slice());
            if encoded.len() < self.image.len() - self.position {
                next.extend_from_slice(
                    slice_subrange(
                        self.image.as_slice(),
                        self.position + encoded.len(),
                        self.image.len(),
                    ),
                );
            }
            self.image = next;
        }
        assert(self.image@ =~= written_at(before.image, before.position, encoded@));
        assert(self.position + encoded.len() <= self.image.len());
        self.position = self.position + encoded.len();
        proof {
            assert(self.image@.subrange(0, before.log_start) =~= before.image.subrange(
                0,
                before.log_start,
            ));
            lemma_preamble_stable(before.image, self.image@);
        }
        Ok(())
    }

    /// Reads the record at the cursor and moves the cursor behind it; at
    /// the end of the log there is none. On an error the cursor stays.
    pub fn read_operation(&mut self) -> (r: Result<Option<EntryOperationDto>, RegistryError>)
        requires
            old(self)@.wf(),
        ensures
            final(self)@.wf(),
            match parse_next(old(self)@.image, old(self)@.position) {
                Ok(Some((record, behind))) => r matches Ok(Some(operation)) && operation@
                    == record && final(self)@ == (RegistryView { position: behind, ..old(self)@ }),
                Ok(None) => r matches Ok(None) && final(self)@ == old(self)@,
                Err(e) => r matches Err(fault) && fault == e && final(self)@ == old(self)@,
            },
    {
        match read_i32_option(self.image.as_slice(), self.position)? {
            None => Ok(None),
            Some((code, behind)) => {
                let (operation, end) = EntryOperationDto::decode_body(
                    self.image.as_slice(),
                    code,
                    behind,
                )?;
                proof {
                    lemma_record_advances(self.image@, self.position as int);
                }
                self.position = end;
                Ok(Some(operation))
            },
        }
    }

    /// Encrypts a secret to the registry's public key. A secret longer
    /// than the cipher takes is refused as too large; a registry whose
    /// public key has the length of no public key encrypts nothing.
    pub fn encrypt(&self, data: &[u8]) -> (r: Result<Vec<u8>, RegistryError>)
        ensures
            encryption_refusal(self@.public_key.len(), data@.len()) matches Some(e) ==> (
            r matches Err(fault) && fault == e),
            r matches Err(e) ==> e == RegistryError::CorruptKeyMaterial || (e
                == RegistryError::FieldTooLarge && data@.len() > CIPHER_LIMIT),
            r matches Ok(ciphertext) ==> ciphertext_length(data@.len(), ciphertext@.len()),
    {
        encrypt_secret(self.public_key.as_slice(), data)
    }

    /// Decrypts a secret. A registry opened without its password has no
    /// private key and decrypts nothing, and a ciphertext that is not empty
    /// never gives an empty secret.
    pub fn decrypt(&self, data: &[u8]) -> (r: Option<Vec<u8>>)
        ensures
            option_vec(r) == decryption(self@.private_key, data@),
            self@.private_key is None ==> r is None,
            r matches Some(plaintext) ==> data@.len() == 0 || plaintext@.len() > 0,
    {
        match &self.private_key {
            Some(key) => decrypt_secret(key.as_slice(), data),
            None => None,
        }
    }

    /// The name of the registry.
    pub fn name(&self) -> (name: &str)
        ensures
            name@ == self@.name,
    {
        self.name.as_str()
    }

    /// The whole image, as it is to lie in the registry's file.
    pub fn image(&self) -> (image: &Vec<u8>)
        ensures
            image@ == self@.image,
    {
        &self.image
    }

    /// The public key.
    pub fn public_key(&self) -> (key: &Vec<u8>)
        ensures
            key@ == self@.public_key,
    {
        &self.public_key
    }

    /// Whether the registry can decrypt.
    pub fn decrypted(&self) -> (b: bool)
        ensures
            b == self@.private_key is Some,
    {
        self.private_key.is_some()
    }

    /// Where the log starts in the image.
    pub fn log_start(&self) -> (at: usize)
        ensures
            at == self@.log_start,
    {
        self.log_start
    }

    /// Where the cursor stands in the image.
    pub fn position(&self) -> (at: usize)
        ensures
            at == self@.position,
    {
        self.position
    }

    /// Moves the cursor back to the start of the log.
    pub fn rewind(&mut self)
        ensures
            final(self)@ == (RegistryView { position: old(self)@.log_start, ..old(self)@ }),
    {
        self.position = self.log_start;
    }
}

} // verus!
