use chunky_encryption::aead::generate_master_key;
use chunky_encryption::cipher::{decrypt_chunk, decrypt_metadata, encrypt_chunk, encrypt_metadata};
use chunky_encryption::codec::{deserialize_keychain, serialize_keychain, ChunkRecord, Keychain};
use chunky_encryption::engine::{decrypt_bytes, encrypt_bytes};
use chunky_encryption::errors::{wrap_err, EncryptionError, EncryptionErrors};
use chunky_encryption::NONCE_SIZE;

fn sample_key() -> Vec<u8> {
    (100u8..132u8).collect()
}

fn sample_input(len: usize) -> Vec<u8> {
    (0..len).map(|i| (i % 253) as u8).collect()
}

#[test]
fn master_key_wrong_length_rejected_on_encrypt() {
    for bad in [0usize, 16, 31, 33, 64] {
        let key = vec![9u8; bad];
        let input = sample_input(10);
        let r = encrypt_bytes(&input, &key, 4);
        assert!(matches!(r.unwrap_err().code, EncryptionErrors::CreateCypherError));
    }
}

#[test]
fn master_key_wrong_length_rejected_on_decrypt() {
    let key = sample_key();
    let input = sample_input(10);
    let payload = encrypt_bytes(&input, &key, 4).unwrap();
    let short_key = vec![9u8; 31];
    let r = decrypt_bytes(&payload.chunks, &payload.metadata, &short_key);
    assert!(matches!(r.unwrap_err().code, EncryptionErrors::CreateCypherError));
}

#[test]
fn metadata_shorter_than_nonce_rejected() {
    let key = sample_key();
    for len in 0..NONCE_SIZE {
        let blob = vec![0u8; len];
        let e = decrypt_metadata(&blob, &key).unwrap_err();
        assert!(matches!(e.code, EncryptionErrors::NonceError));
        assert_eq!(
            e.error_msg,
            "→ Not enought data to decode Nonce data from file: Nonce too short"
        );
        let chunks: Vec<Vec<u8>> = Vec::new();
        let r2 = decrypt_bytes(&chunks, &blob, &key);
        assert!(matches!(r2.unwrap_err().code, EncryptionErrors::NonceError));
        // the guard fires before the master key is looked at
        let short_key = vec![0u8; 5];
        let e2 = decrypt_metadata(&blob, &short_key).unwrap_err();
        assert!(matches!(e2.code, EncryptionErrors::NonceError));
    }
}

#[test]
fn tampered_chunk_fails_decryption() {
    let key = sample_key();
    let input = sample_input(50);
    let payload = encrypt_bytes(&input, &key, 16).unwrap();
    for chunk_index in 0..payload.chunks.len() {
        for byte_index in [0, payload.chunks[chunk_index].len() - 1] {
            for bit in 0..8 {
                let mut chunks = payload.chunks.clone();
                chunks[chunk_index][byte_index] ^= 1u8 << bit;
                let r = decrypt_bytes(&chunks, &payload.metadata, &key);
                assert!(matches!(r.unwrap_err().code, EncryptionErrors::CypherDecryptError));
            }
        }
    }
}

#[test]
fn tampered_metadata_fails_decryption() {
    let key = sample_key();
    let input = sample_input(50);
    let payload = encrypt_bytes(&input, &key, 16).unwrap();
    for byte_index in [0, NONCE_SIZE, payload.metadata.len() - 1] {
        let mut blob = payload.metadata.clone();
        blob[byte_index] ^= 0x01;
        let r = decrypt_bytes(&payload.chunks, &blob, &key);
        let code = r.unwrap_err().code;
        assert!(matches!(
            code,
            EncryptionErrors::CypherDecryptError | EncryptionErrors::DecodeError
        ));
    }
}

#[test]
fn wrong_master_key_fails_decryption() {
    let key = sample_key();
    let input = sample_input(20);
    let payload = encrypt_bytes(&input, &key, 16).unwrap();
    let mut other = sample_key();
    other[0] ^= 0xff;
    let r = decrypt_bytes(&payload.chunks, &payload.metadata, &other);
    assert!(matches!(r.unwrap_err().code, EncryptionErrors::CypherDecryptError));
}

#[test]
fn missing_chunk_fails_decryption() {
    let key = sample_key();
    let input = sample_input(40);
    let payload = encrypt_bytes(&input, &key, 16).unwrap();
    let mut chunks = payload.chunks.clone();
    chunks.pop();
    let r = decrypt_bytes(&chunks, &payload.metadata, &key);
    assert!(matches!(r.unwrap_err().code, EncryptionErrors::CypherDecryptError));
}

#[test]
fn garbage_keychain_gives_decode_error() {
    let key = sample_key();
    let garbage = vec![5u8; 51];
    let blob = encrypt_metadata(&garbage, &key).unwrap();
    let chunks: Vec<Vec<u8>> = Vec::new();
    let r = decrypt_bytes(&chunks, &blob, &key);
    assert!(matches!(r.unwrap_err().code, EncryptionErrors::DecodeError));
}

#[test]
fn metadata_round_trip() {
    let key = sample_key();
    let data = sample_input(104);
    let blob = encrypt_metadata(&data, &key).unwrap();
    assert_eq!(blob.len(), data.len() + NONCE_SIZE + 16);
    let back = decrypt_metadata(&blob, &key).unwrap();
    assert_eq!(back, data);
}

#[test]
fn codec_round_trip() {
    let mut records = Vec::new();
    for i in 0..3u8 {
        records.push(ChunkRecord {
            key: vec![i; 32],
            nonce: vec![i ^ 0xff; 12],
            length: 1000 * (i as usize + 1),
        });
    }
    let keychain = Keychain { records };
    let bytes = serialize_keychain(&keychain);
    assert_eq!(bytes.len(), 3 * 52);
    let back = deserialize_keychain(&bytes).unwrap();
    assert_eq!(back.records.len(), 3);
    for i in 0..3usize {
        assert_eq!(back.records[i].key, keychain.records[i].key);
        assert_eq!(back.records[i].nonce, keychain.records[i].nonce);
        assert_eq!(back.records[i].length, keychain.records[i].length);
    }
}

#[test]
fn codec_rejects_ragged_input() {
    for len in [1usize, 51, 53, 103] {
        let bytes = vec![0u8; len];
        let r = deserialize_keychain(&bytes);
        assert!(matches!(r.unwrap_err().code, EncryptionErrors::DecodeError));
    }
}

#[test]
fn error_messages_follow_the_templates() {
    let e = EncryptionError::new(EncryptionErrors::FileOpenError, "boom");
    assert!(matches!(e.code, EncryptionErrors::FileOpenError));
    assert_eq!(e.error_msg, "→ Not able to open a file: boom");
    assert_eq!(e.message(), "→ Not able to open a file: boom");
    let w = wrap_err(EncryptionErrors::NonceError, "too short");
    assert!(matches!(w.code, EncryptionErrors::NonceError));
    assert_eq!(w.error_msg, "→ Not enought data to decode Nonce data from file: too short");
}

#[test]
fn master_key_generation_is_fresh() {
    let a = generate_master_key();
    let b = generate_master_key();
    assert_eq!(a.len(), 32);
    assert_eq!(b.len(), 32);
    assert_ne!(a, b);
}

#[test]
fn chunk_cipher_round_trip() {
    let key = sample_key();
    let nonce = vec![3u8; 12];
    let plain = sample_input(77);
    let ciphertext = encrypt_chunk(&plain, &key, &nonce).unwrap();
    assert_eq!(ciphertext.len(), plain.len() + 16);
    assert_ne!(&ciphertext[..plain.len()], &plain[..]);
    let back = decrypt_chunk(&ciphertext, &key, &nonce).unwrap();
    assert_eq!(back, plain);
}

#[test]
fn chunk_cipher_rejects_bad_key_length() {
    let nonce = vec![3u8; 12];
    let plain = sample_input(8);
    let short_key = vec![1u8; 31];
    let r = encrypt_chunk(&plain, &short_key, &nonce);
    assert!(matches!(r.unwrap_err().code, EncryptionErrors::CreateCypherError));
    let r2 = decrypt_chunk(&plain, &short_key, &nonce);
    assert!(matches!(r2.unwrap_err().code, EncryptionErrors::CreateCypherError));
}

#[test]
fn chunk_cipher_detects_tampering() {
    let key = sample_key();
    let nonce = vec![9u8; 12];
    let plain = sample_input(33);
    let ciphertext = encrypt_chunk(&plain, &key, &nonce).unwrap();
    for byte_index in 0..ciphertext.len() {
        let mut bad = ciphertext.clone();
        bad[byte_index] ^= 0x80;
        let r = decrypt_chunk(&bad, &key, &nonce);
        assert!(matches!(r.unwrap_err().code, EncryptionErrors::CypherDecryptError));
    }
    let truncated: Vec<u8> = ciphertext[..ciphertext.len() - 1].to_vec();
    let r = decrypt_chunk(&truncated, &key, &nonce);
    assert!(matches!(r.unwrap_err().code, EncryptionErrors::CypherDecryptError));
}
