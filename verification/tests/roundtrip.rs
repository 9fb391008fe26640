use chunky_encryption::engine::{decrypt_bytes, decrypt_chunks, encrypt_bytes, open_keychain};
use chunky_encryption::errors::EncryptionErrors;
use chunky_encryption::{CHUNK_SIZE, TAG_SIZE};

fn sample_key() -> Vec<u8> {
    (0u8..32u8).collect()
}

fn sample_input(len: usize) -> Vec<u8> {
    (0..len).map(|i| (i % 251) as u8).collect()
}

#[test]
fn round_trip_empty_input() {
    let key = sample_key();
    let input: Vec<u8> = Vec::new();
    let payload = encrypt_bytes(&input, &key, CHUNK_SIZE).unwrap();
    assert_eq!(payload.chunks.len(), 0);
    let out = decrypt_bytes(&payload.chunks, &payload.metadata, &key).unwrap();
    assert_eq!(out, input);
}

#[test]
fn round_trip_single_byte() {
    let key = sample_key();
    let input = vec![42u8];
    let payload = encrypt_bytes(&input, &key, CHUNK_SIZE).unwrap();
    assert_eq!(payload.chunks.len(), 1);
    let out = decrypt_bytes(&payload.chunks, &payload.metadata, &key).unwrap();
    assert_eq!(out, input);
}

#[test]
fn round_trip_many_lengths_small_chunks() {
    let key = sample_key();
    for len in 0..70usize {
        let input = sample_input(len);
        let payload = encrypt_bytes(&input, &key, 16).unwrap();
        assert_eq!(payload.chunks.len(), len.div_ceil(16));
        let out = decrypt_bytes(&payload.chunks, &payload.metadata, &key).unwrap();
        assert_eq!(out, input);
    }
}

#[test]
fn round_trip_exact_chunk_boundary() {
    let key = sample_key();
    let input = sample_input(48);
    let payload = encrypt_bytes(&input, &key, 16).unwrap();
    assert_eq!(payload.chunks.len(), 3);
    let out = decrypt_bytes(&payload.chunks, &payload.metadata, &key).unwrap();
    assert_eq!(out, input);
}

#[test]
fn round_trip_chunk_size_one() {
    let key = sample_key();
    let input = sample_input(5);
    let payload = encrypt_bytes(&input, &key, 1).unwrap();
    assert_eq!(payload.chunks.len(), 5);
    let out = decrypt_bytes(&payload.chunks, &payload.metadata, &key).unwrap();
    assert_eq!(out, input);
}

#[test]
fn chunk_count_is_ceiling() {
    let key = sample_key();
    let cases: [(usize, usize, usize); 6] = [
        (0, 7, 0),
        (1, 7, 1),
        (7, 7, 1),
        (8, 7, 2),
        (14, 7, 2),
        (15, 7, 3),
    ];
    for (len, cs, expected) in cases {
        let input = sample_input(len);
        let payload = encrypt_bytes(&input, &key, cs).unwrap();
        assert_eq!(payload.chunks.len(), expected);
    }
}

#[test]
fn ciphertext_differs_from_plaintext_and_carries_tag() {
    let key = sample_key();
    let input = sample_input(100);
    let payload = encrypt_bytes(&input, &key, CHUNK_SIZE).unwrap();
    assert_eq!(payload.chunks.len(), 1);
    assert_eq!(payload.chunks[0].len(), input.len() + TAG_SIZE);
    assert_ne!(&payload.chunks[0][..input.len()], &input[..]);
}

#[test]
fn scenario_two_and_a_half_mib() {
    let key = sample_key();
    let len = 2 * CHUNK_SIZE + CHUNK_SIZE / 2;
    let input = sample_input(len);
    let payload = encrypt_bytes(&input, &key, CHUNK_SIZE).unwrap();
    assert_eq!(payload.chunks.len(), 3);
    let keychain = open_keychain(&payload.metadata, &key).unwrap();
    assert_eq!(keychain.len(), 3);
    assert_eq!(keychain.records[0].length, CHUNK_SIZE);
    assert_eq!(keychain.records[1].length, CHUNK_SIZE);
    assert_eq!(keychain.records[2].length, CHUNK_SIZE / 2);
    let out = decrypt_bytes(&payload.chunks, &payload.metadata, &key).unwrap();
    assert_eq!(out.len(), len);
    assert_eq!(out, input);
}

#[test]
fn key_nonce_pairs_distinct_within_a_run() {
    let key = sample_key();
    let input = sample_input(48);
    let payload = encrypt_bytes(&input, &key, 16).unwrap();
    let keychain = open_keychain(&payload.metadata, &key).unwrap();
    assert_eq!(keychain.len(), 3);
    for i in 0..3 {
        assert_eq!(keychain.records[i].key.len(), 32);
        assert_eq!(keychain.records[i].nonce.len(), 12);
        for j in (i + 1)..3 {
            let same_key = keychain.records[i].key == keychain.records[j].key;
            let same_nonce = keychain.records[i].nonce == keychain.records[j].nonce;
            assert!(!(same_key && same_nonce));
        }
    }
}

#[test]
fn decrypt_chunks_follows_keychain_order() {
    let key = sample_key();
    let input = sample_input(32);
    let payload = encrypt_bytes(&input, &key, 16).unwrap();
    let keychain = open_keychain(&payload.metadata, &key).unwrap();
    let out = decrypt_chunks(&keychain, &payload.chunks).unwrap();
    assert_eq!(out, input);
    let swapped = vec![payload.chunks[1].clone(), payload.chunks[0].clone()];
    let r = decrypt_chunks(&keychain, &swapped);
    assert!(r.is_err());
    assert!(matches!(r.unwrap_err().code, EncryptionErrors::CypherDecryptError));
}

#[test]
fn two_runs_differ_on_the_same_input() {
    let key = sample_key();
    let input = sample_input(40);
    let first = encrypt_bytes(&input, &key, 16).unwrap();
    let second = encrypt_bytes(&input, &key, 16).unwrap();
    assert_ne!(first.metadata, second.metadata);
    assert_ne!(first.chunks[0], second.chunks[0]);
}
