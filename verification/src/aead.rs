//! The AEAD primitive and the random source, taken from outside crates behind
//! trusted contracts. Everything else in the library is proved against what is
//! stated here.

use vstd::prelude::*;

use aes_gcm::aead::rand_core::RngCore as _;
use aes_gcm::aead::{Aead, KeyInit, OsRng};
use aes_gcm::{Aes256Gcm, Key, Nonce};
use rand::RngCore;

verus! {

/// The AES-256-GCM ciphertext (with its postfix authentication tag) of `plain`
/// under `key` and `nonce`. GCM is deterministic in these three inputs, so the
/// result is a function of the arguments alone; its value is not axiomatized.
pub uninterp spec fn aes_gcm_seal(key: Seq<u8>, nonce: Seq<u8>, plain: Seq<u8>) -> Seq<u8>;

/// Relies on aes_gcm::Aes256Gcm with aead::Aead::encrypt: the ciphertext is
/// the plaintext's GCM encryption plus a 16-byte tag. Within GCM's message
/// bound (2^36 bytes) and with no associated data, encryption has no failure
/// path, so the call is owed to succeed.
#[verifier::external_body]
pub(crate) fn aead_encrypt(key: &Vec<u8>, nonce: &Vec<u8>, plain: &Vec<u8>) -> (r: Result<
    Vec<u8>,
    (),
>)
    requires
        key@.len() == 32,
        nonce@.len() == 12,
        plain@.len() <= 0x10_0000_0000,
    ensures
        r matches Ok(c) ==> c@ == aes_gcm_seal(key@, nonce@, plain@) && c@.len() == plain@.len()
            + 16,
        r is Ok,
{
    let cipher = Aes256Gcm::new(Key::<Aes256Gcm>::from_slice(key));
    cipher.encrypt(Nonce::from_slice(nonce), plain.as_slice()).map_err(|_| ())
}

/// Relies on aes_gcm::Aes256Gcm with aead::Aead::decrypt: GCM decryption
/// recomputes the tag, so it succeeds exactly when the ciphertext is the GCM
/// encryption of some plaintext under the same key and nonce, and then returns
/// that plaintext.
#[verifier::external_body]
pub(crate) fn aead_open(key: &Vec<u8>, nonce: &Vec<u8>, ciphertext: &Vec<u8>) -> (r: Result<
    Vec<u8>,
    (),
>)
    requires
        key@.len() == 32,
        nonce@.len() == 12,
    ensures
        r matches Ok(p) ==> ciphertext@ == aes_gcm_seal(key@, nonce@, p@) && (forall|q: Seq<u8>|
            ciphertext@ == #[trigger] aes_gcm_seal(key@, nonce@, q) ==> p@ == q),
        r is Err ==> forall|p: Seq<u8>| ciphertext@ != #[trigger] aes_gcm_seal(key@, nonce@, p),
{
    let cipher = Aes256Gcm::new(Key::<Aes256Gcm>::from_slice(key));
    cipher.decrypt(Nonce::from_slice(nonce), ciphertext.as_slice()).map_err(|_| ())
}

/// Relies on rand::rng() and rand::RngCore::fill_bytes: fresh bytes from the
/// thread's cryptographically secure generator. Nothing is promised of the
/// values; two calls may differ. Panics only if the operating system's
/// entropy source fails when the generator is first seeded.
#[verifier::external_body]
pub(crate) fn session_random_bytes(n: usize) -> (r: Vec<u8>)
    ensures
        r@.len() == n,
{
    let mut buf = vec![0u8; n];
    rand::rng().fill_bytes(&mut buf);
    buf
}

/// Relies on aes_gcm::aead::OsRng (rand_core's operating-system generator) and
/// its fill_bytes: fresh bytes from the OS source. Nothing is promised of the
/// values; two calls may differ. Panics only if the operating system's
/// entropy source fails.
#[verifier::external_body]
pub(crate) fn os_random_bytes(n: usize) -> (r: Vec<u8>)
    ensures
        r@.len() == n,
{
    let mut buf = vec![0u8; n];
    OsRng.fill_bytes(&mut buf);
    buf
}

/// A fresh 32-byte master key from the operating-system random source.
pub fn generate_master_key() -> (r: Vec<u8>)
    ensures
        r@.len() == 32,
{
    os_random_bytes(32)
}

} // verus!
