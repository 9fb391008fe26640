//! The two ciphers. The chunk cipher seals one in-memory buffer under a
//! 256-bit key and 96-bit nonce, with the authentication tag appended. The
//! keychain cipher reuses it to seal the serialized keychain under the master
//! key, producing a blob of the fresh 12-byte nonce followed by the
//! ciphertext, and to open such a blob again.

use vstd::prelude::*;

use crate::aead::{aead_encrypt, aead_open, aes_gcm_seal, os_random_bytes};
use crate::codec::{appended, subvec};
use crate::errors::{message_prefix, wrap_err, EncryptionError, EncryptionErrors};

verus! {

/// Seals one buffer under the given key and nonce. A key that is not exactly
/// 32 bytes is rejected before any cipher call; encryption never reuses a
/// (key, nonce) pair, which callers owe by supplying fresh randomness.
pub fn encrypt_chunk(plaintext: &Vec<u8>, key: &Vec<u8>, nonce: &Vec<u8>) -> (r: Result<
    Vec<u8>,
    EncryptionError,
>)
    requires
        nonce@.len() == 12,
    ensures
        key@.len() != 32 ==> (r matches Err(e) && e.code == EncryptionErrors::CreateCypherError),
        r matches Ok(c) ==> key@.len() == 32 && c@ == aes_gcm_seal(key@, nonce@, plaintext@)
            && c@.len() == plaintext@.len() + 16,
        r matches Err(e) ==> e.code == (if key@.len() != 32 {
            EncryptionErrors::CreateCypherError
        } else {
            EncryptionErrors::CypherEncryptError
        }),
        key@.len() == 32 && plaintext@.len() <= 0x10_0000_0000 ==> r is Ok,
{
    if key.len() != 32 {
        return Err(wrap_err(EncryptionErrors::CreateCypherError, "Invalid Length"));
    }
    if plaintext.len() as u64 > 0x10_0000_0000u64 {
        return Err(wrap_err(EncryptionErrors::CypherEncryptError, "plaintext exceeds the GCM message bound"));
    }
    match aead_encrypt(key, nonce, plaintext) {
        Ok(ciphertext) => Ok(ciphertext),
        Err(_) => Err(wrap_err(EncryptionErrors::CypherEncryptError, "aead::Error")),
    }
}

/// Opens one sealed buffer under the given key and nonce. A key that is not
/// exactly 32 bytes is rejected before any cipher call; decryption succeeds
/// exactly when the ciphertext is a genuine sealing under this key and nonce,
/// so tampering never yields partial plaintext.
pub fn decrypt_chunk(ciphertext: &Vec<u8>, key: &Vec<u8>, nonce: &Vec<u8>) -> (r: Result<
    Vec<u8>,
    EncryptionError,
>)
    requires
        nonce@.len() == 12,
    ensures
        key@.len() != 32 ==> (r matches Err(e) && e.code == EncryptionErrors::CreateCypherError),
        r matches Ok(p) ==> key@.len() == 32 && ciphertext@ == aes_gcm_seal(key@, nonce@, p@),
        forall|p: Seq<u8>|
            key@.len() == 32 && ciphertext@ == #[trigger] aes_gcm_seal(key@, nonce@, p) ==> (
            r matches Ok(q) && q@ == p),
        r matches Err(e) ==> e.code == (if key@.len() != 32 {
            EncryptionErrors::CreateCypherError
        } else {
            EncryptionErrors::CypherDecryptError
        }),
{
    if key.len() != 32 {
        return Err(wrap_err(EncryptionErrors::CreateCypherError, "Invalid Length"));
    }
    match aead_open(key, nonce, ciphertext) {
        Ok(plain) => Ok(plain),
        Err(_) => Err(wrap_err(EncryptionErrors::CypherDecryptError, "aead::Error")),
    }
}

/// The blob's shape: 12 nonce bytes, then the GCM sealing of `data` under
/// `master_key` and that nonce.
pub open spec fn seals_bytes(blob: Seq<u8>, master_key: Seq<u8>, data: Seq<u8>) -> bool {
    &&& blob.len() >= 12
    &&& blob.skip(12) == aes_gcm_seal(master_key, blob.take(12), data)
}

/// Encrypts the serialized keychain under the master key: a fresh 12-byte
/// nonce from the OS random source, prepended to the ciphertext. A master key
/// that is not exactly 32 bytes is rejected before any cipher call.
pub fn encrypt_metadata(data: &Vec<u8>, master_key: &Vec<u8>) -> (r: Result<
    Vec<u8>,
    EncryptionError,
>)
    ensures
        master_key@.len() != 32 ==> (r matches Err(e) && e.code
            == EncryptionErrors::CreateCypherError),
        r matches Ok(b) ==> master_key@.len() == 32 && b@.len() == data@.len() + 28 && seals_bytes(
            b@,
            master_key@,
            data@,
        ),
        r matches Err(e) ==> e.code == EncryptionErrors::CreateCypherError || e.code
            == EncryptionErrors::CypherEncryptError,
        master_key@.len() == 32 && data@.len() <= 0x10_0000_0000 ==> r is Ok,
{
    if master_key.len() != 32 {
        return Err(wrap_err(EncryptionErrors::CreateCypherError, "Invalid Length"));
    }
    let nonce = os_random_bytes(12);
    match encrypt_chunk(data, master_key, &nonce) {
        Ok(ciphertext) => {
            let out = appended(nonce, &ciphertext);
            proof {
                assert(out@.take(12) =~= nonce@);
                assert(out@.skip(12) =~= ciphertext@);
            }
            Ok(out)
        },
        Err(e) => Err(e),
    }
}

/// Opens a nonce-prefixed blob under the master key. A blob shorter than the
/// nonce size is rejected before anything else; then a master key that is not
/// exactly 32 bytes; decryption succeeds exactly when the blob past the nonce
/// is the sealing of some plaintext under the master key and the leading
/// nonce, and then returns that plaintext.
pub fn decrypt_metadata(encrypted: &Vec<u8>, master_key: &Vec<u8>) -> (r: Result<
    Vec<u8>,
    EncryptionError,
>)
    ensures
        encrypted@.len() < 12 ==> (r matches Err(e) && e.code == EncryptionErrors::NonceError
            && e.error_msg@ == message_prefix(EncryptionErrors::NonceError)
            + "Nonce too short"@),
        encrypted@.len() >= 12 && master_key@.len() != 32 ==> (r matches Err(e) && e.code
            == EncryptionErrors::CreateCypherError),
        r matches Ok(p) ==> master_key@.len() == 32 && seals_bytes(encrypted@, master_key@, p@),
        forall|p: Seq<u8>|
            master_key@.len() == 32 && seals_bytes(encrypted@, master_key@, p) ==> (r matches Ok(q)
                && q@ == p),
        r matches Err(e) ==> e.code == EncryptionErrors::NonceError || e.code
            == EncryptionErrors::CreateCypherError || e.code
            == EncryptionErrors::CypherDecryptError,
{
    if encrypted.len() < 12 {
        return Err(EncryptionError::new(EncryptionErrors::NonceError, "Nonce too short"));
    }
    if master_key.len() != 32 {
        return Err(wrap_err(EncryptionErrors::CreateCypherError, "Invalid Length"));
    }
    let nonce = subvec(encrypted, 0, 12);
    let ciphertext = subvec(encrypted, 12, encrypted.len());
    proof {
        assert(nonce@ =~= encrypted@.take(12));
        assert(ciphertext@ =~= encrypted@.skip(12));
    }
    match decrypt_chunk(&ciphertext, master_key, &nonce) {
        Ok(plain) => {
            proof {
                assert forall|p: Seq<u8>|
                    master_key@.len() == 32 && seals_bytes(encrypted@, master_key@, p) implies plain@
                    == p by {
                    assert(aes_gcm_seal(master_key@, nonce@, p) == aes_gcm_seal(
                        master_key@,
                        encrypted@.take(12),
                        p,
                    ));
                }
            }
            Ok(plain)
        },
        Err(e) => {
            proof {
                assert forall|p: Seq<u8>|
                    master_key@.len() == 32 && seals_bytes(encrypted@, master_key@, p) implies false by {
                    assert(aes_gcm_seal(master_key@, nonce@, p) == aes_gcm_seal(
                        master_key@,
                        encrypted@.take(12),
                        p,
                    ));
                }
            }
            Err(e)
        },
    }
}

} // verus!
