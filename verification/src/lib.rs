//! Chunked authenticated encryption: a file is split into fixed-size windows,
//! each window is sealed under its own fresh AES-256-GCM key and nonce, and the
//! per-chunk records (key, nonce, plaintext length) form a keychain that is
//! itself sealed under a single 32-byte master key.

use vstd::prelude::*;

pub mod aead;
pub mod cipher;
pub mod codec;
pub mod engine;
pub mod errors;

verus! {

/// Width of an AES-256 key in bytes.
pub const KEY_SIZE: usize = 32;

/// Width of a GCM nonce in bytes.
pub const NONCE_SIZE: usize = 12;

/// Width of the GCM authentication tag appended to every ciphertext.
pub const TAG_SIZE: usize = 16;

/// The fixed plaintext window: each chunk holds at most this many bytes.
pub const CHUNK_SIZE: usize = 1024 * 1024;

} // verus!
