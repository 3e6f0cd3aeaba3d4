//! The ciphers that guard the registry.
//!
//! Secrets are encrypted to the registry's public key; the private key is
//! kept sealed under a password. The ciphers themselves are outside code:
//! every function of this file that calls one states what is taken on trust.

use crate::errors::RegistryError;
use crate::storage::wire::option_vec;
use vstd::prelude::*;
use vstd::utf8::encode_utf8;

verus! {

/// The width of a private key.
pub const PRIVATE_KEY_SIZE: usize = 32;

/// The width of a public key in its compressed form.
pub const PUBLIC_KEY_SIZE: usize = 33;

/// What sealing adds to the data: a 16-byte salt, a 24-byte nonce and a
/// 16-byte authentication code.
pub const SEAL_OVERHEAD: usize = 56;

/// The longest passphrase, in bytes, that the sealing cipher takes.
pub const PASSPHRASE_LIMIT: usize = 0xffff_ffff;

/// The longest plaintext or ciphertext, in bytes, that the secret cipher
/// takes.
pub const CIPHER_LIMIT: usize = 0x7fff_ffff;

/// Why a sealed private key did not open.
#[derive(Clone, Copy, Debug, PartialEq, Eq, Structural)]
pub enum UnsealFault {
    /// The sealed bytes end inside the salt.
    IncompleteSalt,
    /// The sealed bytes end inside the nonce.
    IncompleteNonce,
    /// The sealed bytes end inside the authentication code.
    IncompleteMac,
    /// The cipher rejects the bytes under this password.
    Rejected,
}

/// What `simplecrypt::decrypt` returns for sealed bytes and a passphrase.
pub uninterp spec fn unsealed(sealed: Seq<u8>, passphrase: Seq<u8>) -> Result<Seq<u8>, UnsealFault>;

/// What `ecies::decrypt` returns for a private key and a ciphertext:
/// the plaintext, or nothing where it fails.
pub uninterp spec fn ecies_plaintext(private_key: Seq<u8>, ciphertext: Seq<u8>) -> Option<Seq<u8>>;

/// The fault that sealed bytes of a given length can be turned down with:
/// the first part that they are too short for, or else a rejection by the
/// cipher.
pub open spec fn seal_fault(len: nat) -> UnsealFault {
    if len < 16 {
        UnsealFault::IncompleteSalt
    } else if len < 40 {
        UnsealFault::IncompleteNonce
    } else if len < SEAL_OVERHEAD {
        UnsealFault::IncompleteMac
    } else {
        UnsealFault::Rejected
    }
}

/// The view of an unsealing outcome.
pub open spec fn unseal_view(outcome: Result<Vec<u8>, UnsealFault>) -> Result<Seq<u8>, UnsealFault> {
    match outcome {
        Ok(key) => Ok(key@),
        Err(fault) => Err(fault),
    }
}

/// `ecies::utils::generate_keypair`: a fresh key pair, private key first,
/// each key in the serialised form that `ecies::encrypt` and
/// `ecies::decrypt` take. Trusted: the two widths, which are those of the
/// arrays that `serialize` and `serialize_compressed` return. Nothing is
/// claimed of the keys themselves, which are random. The call does not
/// return where the system's random source fails.
#[verifier::external_body]
pub(crate) fn generate_keypair() -> (keys: (Vec<u8>, Vec<u8>))
    ensures
        keys.0@.len() == PRIVATE_KEY_SIZE,
        keys.1@.len() == PUBLIC_KEY_SIZE,
{
    let (private_key, public_key) = ecies::utils::generate_keypair();
    (private_key.serialize().to_vec(), public_key.serialize_compressed().to_vec())
}

/// `simplecrypt::encrypt`: the data sealed under a passphrase. Trusted: the
/// length, which is that of the data plus salt, nonce and authentication
/// code, and that the sealed bytes open under the same passphrase to the
/// data, since `simplecrypt::decrypt` takes salt and nonce from the sealed
/// bytes and derives the same key. Nothing else is claimed of the bytes,
/// which depend on a random salt and nonce. A passphrase beyond the limit
/// is left out: the key derivation refuses it and the call does not
/// return. Nor does it return where the cipher's library cannot be set up.
#[verifier::external_body]
pub(crate) fn seal(data: &[u8], passphrase: &[u8]) -> (sealed: Vec<u8>)
    requires
        passphrase@.len() <= PASSPHRASE_LIMIT,
    ensures
        sealed@.len() == data@.len() + SEAL_OVERHEAD,
        unsealed(sealed@, passphrase@) is Ok,
        unsealed(sealed@, passphrase@)->Ok_0 == data@,
{
    simplecrypt::encrypt(data, passphrase)
}

/// `simplecrypt::decrypt`: the data that sealed bytes hold under a
/// passphrase. Trusted: that the outcome is a function of the two byte
/// strings, that bytes too short for salt, nonce and authentication code
/// are turned down for that, in this order, before the cipher is asked,
/// and that longer bytes are turned down only by the cipher. A passphrase
/// beyond the limit is left out: the key derivation refuses it and the
/// call does not return. Nor does it return where the cipher's library
/// cannot be set up.
#[verifier::external_body]
pub(crate) fn unseal(sealed: &[u8], passphrase: &[u8]) -> (outcome: Result<Vec<u8>, UnsealFault>)
    requires
        passphrase@.len() <= PASSPHRASE_LIMIT,
    ensures
        unseal_view(outcome) == unsealed(sealed@, passphrase@),
        outcome matches Err(fault) ==> fault == seal_fault(sealed@.len()),
        seal_fault(sealed@.len()) != UnsealFault::Rejected ==> outcome is Err,
{
    match simplecrypt::decrypt(sealed, passphrase) {
        Ok(data) => Ok(data),
        Err(simplecrypt::DecryptionError::IncompleteSalt(_)) => Err(UnsealFault::IncompleteSalt),
        Err(simplecrypt::DecryptionError::IncompleteNonce(_)) => Err(UnsealFault::IncompleteNonce),
        Err(simplecrypt::DecryptionError::IncompleteMac(_)) => Err(UnsealFault::IncompleteMac),
        Err(simplecrypt::DecryptionError::Decryption) => Err(UnsealFault::Rejected),
    }
}

/// Whether a public key can have this length: that of its compressed, its
/// raw or its full serialised form.
pub open spec fn public_key_length(len: nat) -> bool {
    len == PUBLIC_KEY_SIZE || len == 64 || len == 65
}

/// Whether a ciphertext of this length can come of data of that length:
/// the cipher puts an ephemeral public key, in full or compressed, a
/// 16-byte nonce and a 16-byte authentication tag in front of the data.
pub open spec fn ciphertext_length(data_len: nat, len: nat) -> bool {
    len == data_len + 97 || len == data_len + 65
}

/// `ecies::config::reset_config`: puts the configuration that the cipher
/// keeps for the whole process back to its default. Nothing is claimed of
/// it here; the two calls below say what they rest on.
#[verifier::external_body]
pub(crate) fn use_default_configuration() {
    ecies::config::reset_config()
}

/// `ecies::encrypt`: the data encrypted to a public key, or nothing where
/// the call fails, as it does on a key that is no curve point. Trusted:
/// that a key is turned down where its length is that of no serialised
/// public key, which the call tells before anything else, and the length
/// of a ciphertext. Nothing else is claimed of the ciphertext, which
/// depends on a random ephemeral key, nor of when the call succeeds. Data
/// beyond the limit is left out: the cipher does not return on it.
#[verifier::external_body]
pub(crate) fn encrypt_to(public_key: &[u8], data: &[u8]) -> (ciphertext: Option<Vec<u8>>)
    requires
        data@.len() <= CIPHER_LIMIT,
    ensures
        !public_key_length(public_key@.len()) ==> ciphertext is None,
        ciphertext matches Some(bytes) ==> ciphertext_length(data@.len(), bytes@.len()),
{
    ecies::encrypt(public_key, data).ok()
}

/// `ecies::decrypt`: the plaintext of a ciphertext under a private key, or
/// nothing where the call fails. Trusted: that the outcome is a function of
/// the two byte strings, which holds as long as the configuration that the
/// cipher keeps for the whole process stands at its default; this library
/// puts it there before every call and never anywhere else. A ciphertext
/// beyond the limit is left out: the cipher does not return on it.
#[verifier::external_body]
pub(crate) fn decrypt_with(private_key: &[u8], ciphertext: &[u8]) -> (plaintext: Option<Vec<u8>>)
    requires
        ciphertext@.len() <= CIPHER_LIMIT,
    ensures
        option_vec(plaintext) == ecies_plaintext(private_key@, ciphertext@),
{
    ecies::decrypt(private_key, ciphertext).ok()
}

/// The error that an unsealing fault is reported as: bytes that cannot be
/// a sealed key are corrupt key material, a rejection is a wrong password.
pub open spec fn unseal_error(fault: UnsealFault) -> RegistryError {
    match fault {
        UnsealFault::Rejected => RegistryError::WrongPassword,
        _ => RegistryError::CorruptKeyMaterial,
    }
}

/// The private key that an unsealing outcome stands for.
pub fn unsealed_key(outcome: Result<Vec<u8>, UnsealFault>) -> (r: Result<Vec<u8>, RegistryError>)
    ensures
        match outcome {
            Ok(key) => r matches Ok(opened) && opened@ == key@,
            Err(fault) => r matches Err(e) && e == unseal_error(fault),
        },
{
    match outcome {
        Ok(key) => Ok(key),
        Err(UnsealFault::Rejected) => Err(RegistryError::WrongPassword),
        Err(_) => Err(RegistryError::CorruptKeyMaterial),
    }
}

/// What comes of opening sealed bytes under a password: a password that
/// the cipher does not take is refused before anything else; then the
/// cipher decides.
pub open spec fn unsealing(sealed: Seq<u8>, password: Seq<char>) -> Result<Seq<u8>, RegistryError> {
    if encode_utf8(password).len() > PASSPHRASE_LIMIT {
        Err(RegistryError::PasswordTooLong)
    } else {
        match unsealed(sealed, encode_utf8(password)) {
            Ok(key) => Ok(key),
            Err(fault) => Err(unseal_error(fault)),
        }
    }
}

/// Judges the length of a passphrase in bytes: one that the sealing
/// cipher does not take is refused.
pub fn passphrase_length(len: usize) -> (r: Result<(), RegistryError>)
    ensures
        len > PASSPHRASE_LIMIT <==> r is Err,
        r matches Err(e) ==> e == RegistryError::PasswordTooLong,
{
    if len > PASSPHRASE_LIMIT {
        Err(RegistryError::PasswordTooLong)
    } else {
        Ok(())
    }
}

/// Seals a private key under a password. The sealed bytes are 56 longer
/// than the key and open under the same password to the key. A password
/// that the cipher does not take is refused.
pub fn seal_private_key(private_key: &[u8], password: &str) -> (r: Result<Vec<u8>, RegistryError>)
    ensures
        encode_utf8(password@).len() > PASSPHRASE_LIMIT <==> r is Err,
        r matches Err(e) ==> e == RegistryError::PasswordTooLong,
        r matches Ok(sealed) ==> {
            &&& sealed@.len() == private_key@.len() + SEAL_OVERHEAD
            &&& unsealing(sealed@, password@) matches Ok(key) && key == private_key@
        },
{
    let passphrase: &[u8] = password.as_bytes();
    passphrase_length(passphrase.len())?;
    Ok(seal(private_key, passphrase))
}

/// Opens a sealed private key under a password.
pub fn unseal_private_key(sealed: &[u8], password: &str) -> (r: Result<Vec<u8>, RegistryError>)
    ensures
        match unsealing(sealed@, password@) {
            Ok(key) => r matches Ok(opened) && opened@ == key,
            Err(e) => r matches Err(fault) && fault == e,
        },
        encode_utf8(password@).len() <= PASSPHRASE_LIMIT && sealed@.len() < SEAL_OVERHEAD ==> (
        r matches Err(e) && e == RegistryError::CorruptKeyMaterial),
{
    let passphrase: &[u8] = password.as_bytes();
    passphrase_length(passphrase.len())?;
    unsealed_key(unseal(sealed, passphrase))
}

/// What is handed out of a decryption outcome: the plaintext, but nothing
/// where a ciphertext that is not empty gave an empty plaintext, as bytes
/// that were never a secret do under a key that is not theirs.
pub open spec fn accepted_plaintext(ciphertext_len: nat, outcome: Option<Seq<u8>>) -> Option<Seq<u8>> {
    match outcome {
        Some(plaintext) => if ciphertext_len > 0 && plaintext.len() == 0 {
            None
        } else {
            Some(plaintext)
        },
        None => None,
    }
}

/// What a private key decrypts a ciphertext to: nothing where the
/// ciphertext is longer than the cipher takes, else what the cipher gives,
/// judged as above.
pub open spec fn decrypted(private_key: Seq<u8>, ciphertext: Seq<u8>) -> Option<Seq<u8>> {
    if ciphertext.len() > CIPHER_LIMIT {
        None
    } else {
        accepted_plaintext(ciphertext.len(), ecies_plaintext(private_key, ciphertext))
    }
}

/// What a registry decrypts a ciphertext to: nothing without the private
/// key, and with it what the key decrypts the ciphertext to.
pub open spec fn decryption(private_key: Option<Seq<u8>>, ciphertext: Seq<u8>) -> Option<Seq<u8>> {
    match private_key {
        Some(key) => decrypted(key, ciphertext),
        None => None,
    }
}

/// Judges a decryption outcome for a ciphertext of the given length.
pub fn accept_plaintext(ciphertext_len: usize, outcome: Option<Vec<u8>>) -> (r: Option<Vec<u8>>)
    ensures
        option_vec(r) == accepted_plaintext(
            ciphertext_len as nat,
            option_vec(outcome),
        ),
        r matches Some(plaintext) ==> ciphertext_len == 0 || plaintext@.len() > 0,
{
    match outcome {
        Some(plaintext) => {
            if ciphertext_len > 0 && plaintext.len() == 0 {
                None
            } else {
                Some(plaintext)
            }
        },
        None => None,
    }
}

/// Decrypts a secret with a private key. A ciphertext longer than the
/// cipher takes decrypts to nothing.
pub fn decrypt_secret(private_key: &[u8], ciphertext: &[u8]) -> (r: Option<Vec<u8>>)
    ensures
        option_vec(r) == decrypted(private_key@, ciphertext@),
        r matches Some(plaintext) ==> ciphertext@.len() == 0 || plaintext@.len() > 0,
{
    if ciphertext.len() > CIPHER_LIMIT {
        return None;
    }
    use_default_configuration();
    accept_plaintext(ciphertext.len(), decrypt_with(private_key, ciphertext))
}

/// Why an encryption is refused before the cipher is asked: a secret
/// longer than the cipher takes is too large, whatever the key; a key
/// whose length is that of no public key is corrupt key material.
pub open spec fn encryption_refusal(key_len: nat, data_len: nat) -> Option<RegistryError> {
    if data_len > CIPHER_LIMIT {
        Some(RegistryError::FieldTooLarge)
    } else if !public_key_length(key_len) {
        Some(RegistryError::CorruptKeyMaterial)
    } else {
        None
    }
}

/// Encrypts a secret to a public key. A secret that is too long and a key
/// of no public key's length are refused; any other key that the cipher
/// turns down is corrupt key material too. Which ciphertext comes back is
/// up to chance; how long it is, is not.
pub fn encrypt_secret(public_key: &[u8], plaintext: &[u8]) -> (r: Result<Vec<u8>, RegistryError>)
    ensures
        encryption_refusal(public_key@.len(), plaintext@.len()) matches Some(e) ==> (
        r matches Err(fault) && fault == e),
        r matches Err(e) ==> e == RegistryError::CorruptKeyMaterial || (e
            == RegistryError::FieldTooLarge && plaintext@.len() > CIPHER_LIMIT),
        r matches Ok(ciphertext) ==> ciphertext_length(plaintext@.len(), ciphertext@.len()),
{
    if plaintext.len() > CIPHER_LIMIT {
        return Err(RegistryError::FieldTooLarge);
    }
    use_default_configuration();
    ciphertext_of(encrypt_to(public_key, plaintext))
}

/// The outcome of an encryption as the registry reports it: the
/// ciphertext as it came, or corrupt key material where the cipher gave
/// none.
pub fn ciphertext_of(outcome: Option<Vec<u8>>) -> (r: Result<Vec<u8>, RegistryError>)
    ensures
        match outcome {
            Some(ciphertext) => r matches Ok(same) && same@ == ciphertext@,
            None => r matches Err(e) && e == RegistryError::CorruptKeyMaterial,
        },
{
    match outcome {
        Some(ciphertext) => Ok(ciphertext),
        None => Err(RegistryError::CorruptKeyMaterial),
    }
}

} // verus!
