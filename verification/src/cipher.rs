//! Sealing with AES-256-GCM: a random nonce, followed by ciphertext and tag.

use aes_gcm::aead::{Aead, KeyInit};
use rand_core::RngCore;
use vstd::prelude::*;

verus! {

/// Bytes in an AES-256 key.
pub const KEY_SIZE: usize = 32;

/// Bytes in an AES-GCM nonce (96 bits).
pub const NONCE_SIZE: usize = 12;

/// Bytes in an AES-GCM tag (128 bits).
pub const TAG_SIZE: usize = 16;

/// Most bytes that one AES-GCM call encrypts.
pub const MAX_PLAINTEXT: u64 = 0x10_0000_0000;

/// Why sealing or opening failed.
#[derive(Debug, Clone, Copy, PartialEq, Eq, Structural)]
pub enum CipherError {
    /// The operating system gave no random bytes for the nonce.
    NoRandomness,
    /// The cipher refused the plaintext: it is too long.
    EncryptionFailed,
    /// Too short, sealed under another key, or altered.
    DecryptionFailed,
}

/// The error of the AES-GCM implementation, which holds no detail.
#[verifier::external_type_specification]
#[verifier::external_body]
pub struct ExAeadError(aes_gcm::aead::Error);

/// The error of the random number generator.
#[verifier::external_type_specification]
#[verifier::external_body]
pub struct ExRandError(rand_core::Error);

/// What AES-256-GCM makes of `plain` under `key` and `nonce`, without
/// associated data: ciphertext, then tag.
pub uninterp spec fn gcm_sealed(key: Seq<u8>, nonce: Seq<u8>, plain: Seq<u8>) -> Seq<u8>;

/// What AES-256-GCM opens `ciphertext` to under `key` and `nonce`, without
/// associated data, where the tag at its end is right.
pub uninterp spec fn gcm_opened(key: Seq<u8>, nonce: Seq<u8>, ciphertext: Seq<u8>) -> Option<
    Seq<u8>,
>;

/// `Aead::encrypt` of `aes_gcm::Aes256Gcm`. It does not fail on so few bytes;
/// the result is a tag longer than the plaintext, and opens to the plaintext.
#[verifier::external_body]
fn gcm_encrypt(key: &[u8], nonce: &[u8], plain: &[u8]) -> (r: Result<
    Vec<u8>,
    aes_gcm::aead::Error,
>)
    requires
        key@.len() == KEY_SIZE,
        nonce@.len() == NONCE_SIZE,
        plain@.len() <= MAX_PLAINTEXT,
    ensures
        r is Ok,
        r matches Ok(c) ==> c@ == gcm_sealed(key@, nonce@, plain@),
        r matches Ok(c) ==> c@.len() == plain@.len() + TAG_SIZE,
        r matches Ok(c) ==> gcm_opened(key@, nonce@, c@) == Some(plain@),
{
    let cipher = aes_gcm::Aes256Gcm::new(aes_gcm::Key::<aes_gcm::Aes256Gcm>::from_slice(key));
    cipher.encrypt(aes_gcm::Nonce::from_slice(nonce), plain)
}

/// `Aead::decrypt` of `aes_gcm::Aes256Gcm`. The plaintext is a tag shorter
/// than the ciphertext; and the ciphertext, with the tag that was found right,
/// is what encrypting that plaintext gives, where it is not too long for that.
#[verifier::external_body]
fn gcm_decrypt(key: &[u8], nonce: &[u8], ciphertext: &[u8]) -> (r: Result<
    Vec<u8>,
    aes_gcm::aead::Error,
>)
    requires
        key@.len() == KEY_SIZE,
        nonce@.len() == NONCE_SIZE,
    ensures
        r is Ok <==> gcm_opened(key@, nonce@, ciphertext@) is Some,
        r matches Ok(p) ==> gcm_opened(key@, nonce@, ciphertext@) == Some(p@),
        r matches Ok(p) ==> ciphertext@.len() == p@.len() + TAG_SIZE,
        r matches Ok(p) ==> (p@.len() <= MAX_PLAINTEXT ==> ciphertext@ == gcm_sealed(
            key@,
            nonce@,
            p@,
        )),
{
    let cipher = aes_gcm::Aes256Gcm::new(aes_gcm::Key::<aes_gcm::Aes256Gcm>::from_slice(key));
    cipher.decrypt(aes_gcm::Nonce::from_slice(nonce), ciphertext)
}

/// `RngCore::try_fill_bytes` of `rand_core::OsRng`, on a fresh array. Nothing
/// is claimed of the bytes: they come from the operating system, which may
/// also have none.
#[verifier::external_body]
pub(crate) fn random_bytes<const N: usize>() -> (r: Result<[u8; N], rand_core::Error>) {
    let mut bytes = [0u8; N];
    rand_core::OsRng.try_fill_bytes(&mut bytes)?;
    Ok(bytes)
}

/// The nonce at the front of a sealed message.
pub open spec fn nonce_of(sealed: Seq<u8>) -> Seq<u8> {
    sealed.subrange(0, NONCE_SIZE as int)
}

/// What a sealed message opens to under `key`: nothing where it is too short
/// for a nonce, and else what AES-256-GCM makes of the bytes after the nonce.
pub open spec fn opened(key: Seq<u8>, sealed: Seq<u8>) -> Option<Seq<u8>> {
    if sealed.len() < NONCE_SIZE {
        None
    } else {
        gcm_opened(
            key,
            nonce_of(sealed),
            sealed.subrange(NONCE_SIZE as int, sealed.len() as int),
        )
    }
}

/// `sealed` is `plain` sealed under `key` with the nonce at its front, and
/// opens to `plain`.
pub open spec fn is_sealed(key: Seq<u8>, sealed: Seq<u8>, plain: Seq<u8>) -> bool {
    &&& sealed.len() == NONCE_SIZE + plain.len() + TAG_SIZE
    &&& sealed == nonce_of(sealed) + gcm_sealed(key, nonce_of(sealed), plain)
    &&& opened(key, sealed) == Some(plain)
}

/// What is sealed is twelve bytes of nonce and what AES-256-GCM makes of the
/// plaintext under the key and those very bytes. It opens under the key to what
/// AES-256-GCM makes of the bytes after the nonce; and fewer bytes than a nonce
/// open to nothing. Up to 64 GiB can be sealed.
pub proof fn law_sealed_form(key: Seq<u8>, sealed: Seq<u8>, plain: Seq<u8>)
    ensures
        is_sealed(key, sealed, plain) ==> sealed.len() == 12 + plain.len() + 16
            && sealed.subrange(12, sealed.len() as int) == gcm_sealed(
            key,
            sealed.subrange(0, 12),
            plain,
        ) && opened(key, sealed) == Some(plain),
        sealed.len() < 12 ==> opened(key, sealed) is None,
        sealed.len() >= 12 ==> opened(key, sealed) == gcm_opened(
            key,
            sealed.subrange(0, 12),
            sealed.subrange(12, sealed.len() as int),
        ),
        MAX_PLAINTEXT == 64 * 1024 * 1024 * 1024,
{
    if is_sealed(key, sealed, plain) {
        let nonce = nonce_of(sealed);
        assert(sealed.subrange(12, sealed.len() as int) =~= gcm_sealed(key, nonce, plain));
    }
}

/// Seals `data` under `key` with the given nonce, which goes in front.
pub fn seal_with_nonce(data: &[u8], key: &[u8], nonce: &[u8]) -> (r: Result<Vec<u8>, CipherError>)
    requires
        key@.len() == KEY_SIZE,
        nonce@.len() == NONCE_SIZE,
    ensures
        r is Ok <==> data@.len() <= MAX_PLAINTEXT,
        r matches Ok(s) ==> s@ == nonce@ + gcm_sealed(key@, nonce@, data@),
        r matches Ok(s) ==> is_sealed(key@, s@, data@) && nonce_of(s@) == nonce@,
        r matches Err(e) ==> e == CipherError::EncryptionFailed,
{
    if data.len() as u64 > MAX_PLAINTEXT {
        return Err(CipherError::EncryptionFailed);
    }
    match gcm_encrypt(key, nonce, data) {
        Err(_) => Err(CipherError::EncryptionFailed),
        Ok(ciphertext) => {
            let mut sealed: Vec<u8> = Vec::new();
            sealed.extend_from_slice(nonce);
            sealed.extend_from_slice(ciphertext.as_slice());
            assert(sealed@ =~= nonce@ + ciphertext@);
            assert(nonce_of(sealed@) =~= nonce@);
            assert(sealed@.subrange(NONCE_SIZE as int, sealed@.len() as int) =~= ciphertext@);
            Ok(sealed)
        },
    }
}

/// `nonce` is what the random number generator gave for a nonce.
pub closed spec fn is_drawn_nonce(nonce: Seq<u8>) -> bool {
    exists|bytes: [u8; NONCE_SIZE]|
        bytes@ == nonce && #[trigger] call_ensures(
            random_bytes::<NONCE_SIZE>,
            (),
            Ok::<[u8; NONCE_SIZE], rand_core::Error>(bytes),
        )
}

/// The random number generator had no bytes for a nonce.
pub closed spec fn no_nonce_came() -> bool {
    exists|e: rand_core::Error| #[trigger]
        call_ensures(random_bytes::<NONCE_SIZE>, (), Err::<[u8; NONCE_SIZE], rand_core::Error>(e))
}

/// A drawn nonce, and the want of one, are outcomes of asking the random number
/// generator for twelve bytes.
pub(crate) proof fn law_nonces_are_drawn(nonce: Seq<u8>)
    ensures
        is_drawn_nonce(nonce) ==> exists|bytes: [u8; 12]|
            bytes@ == nonce && #[trigger] call_ensures(
                random_bytes::<12>,
                (),
                Ok::<[u8; 12], rand_core::Error>(bytes),
            ),
        no_nonce_came() ==> exists|e: rand_core::Error| #[trigger]
            call_ensures(random_bytes::<12>, (), Err::<[u8; 12], rand_core::Error>(e)),
{
}

/// A fresh random nonce, where the operating system has one.
pub(crate) fn draw_nonce() -> (r: Result<[u8; NONCE_SIZE], CipherError>)
    ensures
        r matches Ok(nonce) ==> is_drawn_nonce(nonce@),
        r matches Err(e) ==> e == CipherError::NoRandomness && no_nonce_came(),
{
    let draw = random_bytes::<NONCE_SIZE>;
    match draw() {
        Ok(nonce) => Ok(nonce),
        Err(e) => {
            assert(call_ensures(
                random_bytes::<NONCE_SIZE>,
                (),
                Err::<[u8; NONCE_SIZE], rand_core::Error>(e),
            ));
            Err(CipherError::NoRandomness)
        },
    }
}

/// Seals `data` under `key` with a fresh random nonce, which goes in front.
/// Which nonce comes, and whether one comes at all, rests with the operating
/// system; data that is too long is refused whatever comes.
pub fn aes_encrypt(data: &[u8], key: &[u8]) -> (r: Result<Vec<u8>, CipherError>)
    requires
        key@.len() == KEY_SIZE,
    ensures
        r matches Ok(s) ==> is_sealed(key@, s@, data@) && data@.len() <= MAX_PLAINTEXT,
        r matches Ok(s) ==> is_drawn_nonce(nonce_of(s@)),
        r matches Err(e) ==> (e == CipherError::NoRandomness && no_nonce_came()) || (e
            == CipherError::EncryptionFailed && data@.len() > MAX_PLAINTEXT),
{
    match draw_nonce() {
        Err(e) => Err(e),
        Ok(nonce) => seal_with_nonce(data, key, nonce.as_slice()),
    }
}

/// Opens what `aes_encrypt` sealed. What opens is a sealed form of what comes
/// out. Too few bytes are refused before the key is looked at.
pub fn aes_decrypt(encrypted: &[u8], key: &[u8]) -> (r: Result<Vec<u8>, CipherError>)
    requires
        encrypted@.len() >= NONCE_SIZE ==> key@.len() == KEY_SIZE,
    ensures
        r is Ok <==> opened(key@, encrypted@) is Some,
        r matches Ok(p) ==> opened(key@, encrypted@) == Some(p@),
        r matches Ok(p) ==> encrypted@.len() == NONCE_SIZE + p@.len() + TAG_SIZE,
        r matches Ok(p) ==> (p@.len() <= MAX_PLAINTEXT ==> is_sealed(key@, encrypted@, p@)),
        r matches Err(e) ==> e == CipherError::DecryptionFailed,
{
    if encrypted.len() < NONCE_SIZE {
        return Err(CipherError::DecryptionFailed);
    }
    let nonce = vstd::slice::slice_subrange(encrypted, 0, NONCE_SIZE);
    let ciphertext = vstd::slice::slice_subrange(encrypted, NONCE_SIZE, encrypted.len());
    assert(encrypted@ =~= nonce@ + ciphertext@);
    match gcm_decrypt(key, nonce, ciphertext) {
        Ok(plain) => Ok(plain),
        Err(_) => Err(CipherError::DecryptionFailed),
    }
}

} // verus!
