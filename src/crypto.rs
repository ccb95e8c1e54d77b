//! Key derivation and authenticated encryption.
//!
//! A passphrase and a salt give a derived key (Argon2 with default parameters); the derived
//! key wraps the random master key, and the master key encrypts every payload
//! (AES-256-GCM, no associated data).
use aes_gcm::aead::{Aead, KeyInit};
use aes_gcm::Aes256Gcm;
use argon2::Argon2;
use vstd::prelude::*;

use crate::error::PassManagerErr;

verus! {

/// Longest plaintext, in bytes, that AES-256-GCM seals in one message.
pub const MAX_PLAINTEXT_LEN: u64 = 68719476736;

/// Longest passphrase, in bytes, that Argon2 accepts.
pub const MAX_PASSPHRASE_LEN: u64 = 4294967295;

#[verifier::external_type_specification]
#[verifier::external_body]
pub struct ExAeadError(aes_gcm::Error);

#[verifier::external_type_specification]
#[verifier::external_body]
pub struct ExArgon2Error(argon2::Error);

/// The ciphertext (tag appended) that AES-256-GCM makes of `plaintext` under `key` and `nonce`.
pub uninterp spec fn aes_gcm_seal(key: Seq<u8>, nonce: Seq<u8>, plaintext: Seq<u8>) -> Seq<u8>;

/// What AES-256-GCM recovers from `ciphertext` under `key` and `nonce`; `None` when the tag
/// does not authenticate.
pub uninterp spec fn aes_gcm_open(key: Seq<u8>, nonce: Seq<u8>, ciphertext: Seq<u8>) -> Option<
    Seq<u8>,
>;

/// The 32-byte key that Argon2 (default parameters) derives from `passphrase` and `salt`.
pub uninterp spec fn argon2_key(passphrase: Seq<u8>, salt: Seq<u8>) -> Seq<u8>;

/// Relies on `Aead::encrypt` of `aes_gcm::Aes256Gcm`: it fails only on a plaintext longer
/// than 2^36 bytes, returns the ciphertext followed by the 16-byte tag, and `decrypt` under
/// the same key and nonce gives the plaintext back.
#[verifier::external_body]
fn aes_encrypt(key: &[u8; 32], nonce: &[u8; 12], plaintext: &[u8]) -> (r: Result<Vec<u8>, aes_gcm::Error>)
    ensures
        r is Ok <==> plaintext@.len() <= MAX_PLAINTEXT_LEN,
        r matches Ok(c) ==> c@ == aes_gcm_seal(key@, nonce@, plaintext@),
        r matches Ok(c) ==> c@.len() == plaintext@.len() + 16,
        r matches Ok(c) ==> aes_gcm_open(key@, nonce@, c@) == Some(plaintext@),
{
    Aes256Gcm::new(key.into()).encrypt(nonce.into(), plaintext)
}

/// Relies on `Aead::decrypt` of `aes_gcm::Aes256Gcm`: it returns the plaintext exactly when the
/// tag authenticates; the result depends on the key, the nonce and the ciphertext alone.
#[verifier::external_body]
fn aes_decrypt(key: &[u8; 32], nonce: &[u8; 12], ciphertext: &[u8]) -> (r: Result<Vec<u8>, aes_gcm::Error>)
    ensures
        r is Ok <==> aes_gcm_open(key@, nonce@, ciphertext@) is Some,
        r matches Ok(p) ==> aes_gcm_open(key@, nonce@, ciphertext@) == Some(p@),
{
    Aes256Gcm::new(key.into()).decrypt(nonce.into(), ciphertext)
}

/// Relies on `Argon2::hash_password_into` with default parameters: with a 16-byte salt and a
/// 32-byte output it fails only on a passphrase longer than `u32::MAX` bytes.
#[verifier::external_body]
fn argon2_hash(passphrase: &[u8], salt: &[u8; 16]) -> (r: Result<[u8; 32], argon2::Error>)
    ensures
        passphrase@.len() <= MAX_PASSPHRASE_LEN ==> r is Ok,
        r matches Ok(k) ==> k@ == argon2_key(passphrase@, salt@),
{
    let mut out = [0u8; 32];
    Argon2::default().hash_password_into(passphrase, salt, &mut out).map(|_| out)
}

/// Relies on `rand::random`, drawing from the thread-local generator: nothing is known of
/// the value.
pub assume_specification<T>[ rand::random::<T> ]() -> (r: T)
    where
        rand::distributions::Standard: rand::distributions::Distribution<T>,
;

/// Derives the 32-byte wrapping key from a passphrase and a salt.
pub fn derive_key(passphrase: &[u8], salt: &[u8; 16]) -> (r: Result<[u8; 32], PassManagerErr>)
    ensures
        passphrase@.len() <= MAX_PASSPHRASE_LEN ==> r is Ok,
        r matches Ok(k) ==> k@ == argon2_key(passphrase@, salt@),
{
    match argon2_hash(passphrase, salt) {
        Ok(k) => Ok(k),
        Err(err) => Err(PassManagerErr::Argon2 { err }),
    }
}

/// Encrypts `plaintext` under `key` and `nonce`.
pub fn encrypt(key: &[u8; 32], nonce: &[u8; 12], plaintext: &[u8]) -> (r: Result<Vec<u8>, PassManagerErr>)
    ensures
        r is Ok <==> plaintext@.len() <= MAX_PLAINTEXT_LEN,
        r matches Ok(c) ==> c@ == aes_gcm_seal(key@, nonce@, plaintext@),
        r matches Ok(c) ==> aes_gcm_open(key@, nonce@, c@) == Some(plaintext@),
        r matches Err(e) ==> e is Aes,
{
    match aes_encrypt(key, nonce, plaintext) {
        Ok(c) => Ok(c),
        Err(err) => Err(PassManagerErr::Aes { err }),
    }
}

/// Decrypts `ciphertext` under `key` and `nonce`; fails when it does not authenticate.
pub fn decrypt(key: &[u8; 32], nonce: &[u8; 12], ciphertext: &[u8]) -> (r: Result<Vec<u8>, PassManagerErr>)
    ensures
        r is Ok <==> aes_gcm_open(key@, nonce@, ciphertext@) is Some,
        r matches Ok(p) ==> aes_gcm_open(key@, nonce@, ciphertext@) == Some(p@),
        r matches Err(e) ==> e is Aes,
{
    match aes_decrypt(key, nonce, ciphertext) {
        Ok(p) => Ok(p),
        Err(err) => Err(PassManagerErr::Aes { err }),
    }
}

/// Wraps the master key under the derived key.
pub fn wrap(derived_key: &[u8; 32], nonce: &[u8; 12], master_key: &[u8; 32]) -> (r: Vec<u8>)
    ensures
        r@ == aes_gcm_seal(derived_key@, nonce@, master_key@),
        aes_gcm_open(derived_key@, nonce@, r@) == Some(master_key@),
{
    match aes_encrypt(derived_key, nonce, master_key) {
        Ok(c) => c,
        Err(_) => Vec::new(),
    }
}

/// Unwraps the master key; fails when the derived key (so the passphrase) is wrong or the
/// wrapped key is corrupted.
pub fn unwrap(derived_key: &[u8; 32], nonce: &[u8; 12], wrapped: &[u8]) -> (r: Result<[u8; 32], PassManagerErr>)
    ensures
        r is Ok <==> (aes_gcm_open(derived_key@, nonce@, wrapped@) matches Some(k) && k.len()
            == 32),
        r matches Ok(k) ==> aes_gcm_open(derived_key@, nonce@, wrapped@) == Some(k@),
        forall|k: [u8; 32]|
            aes_gcm_open(derived_key@, nonce@, wrapped@) == Some(#[trigger] k@) ==> r == Ok::<
                [u8; 32],
                PassManagerErr,
            >(k),
{
    let plain = match aes_decrypt(derived_key, nonce, wrapped) {
        Ok(p) => p,
        Err(err) => {
            return Err(PassManagerErr::Aes { err });
        },
    };
    if plain.len() != 32 {
        return Err(PassManagerErr::TryFrom);
    }
    let mut key = [0u8; 32];
    let mut i: usize = 0;
    while i < 32
        invariant
            plain@.len() == 32,
            0 <= i <= 32,
            forall|j: int| 0 <= j < i ==> key@[j] == plain@[j],
        decreases 32 - i,
    {
        key[i] = plain[i];
        i = i + 1;
    }
    assert(key@ =~= plain@);
    proof {
        assert forall|k: [u8; 32]|
            aes_gcm_open(derived_key@, nonce@, wrapped@) == Some(#[trigger] k@) implies key == k by {
            assert(key =~= k);
        }
    }
    Ok(key)
}

} // verus!
