//! The two engines. Encryption splits the input into fixed-size windows,
//! seals each window under a fresh key and nonce, and seals the keychain of
//! records under the master key. Decryption opens the keychain, opens every
//! chunk with its own record, truncates each to its recorded length, and
//! reassembles the chunks in keychain order.

use vstd::prelude::*;

use crate::aead::{aes_gcm_seal, session_random_bytes};
use crate::cipher::{
    decrypt_chunk, decrypt_metadata, encrypt_chunk, encrypt_metadata, seals_bytes,
};
use crate::codec::{
    appended, deserialize_keychain, encode_keychain, lemma_encode_keychain_len,
    lengths_fit_usize, serialize_keychain, subvec, wf_keychain, wf_record, ChunkRecord, Keychain,
    RecordModel,
};
use crate::errors::{wrap_err, EncryptionError, EncryptionErrors};

verus! {

/// How many chunks a plaintext of `len` bytes yields: the ceiling of
/// `len / cs`, and 0 for an empty input.
pub open spec fn num_chunks(len: int, cs: int) -> int
    recommends
        cs >= 1,
        len >= 0,
{
    (len + cs - 1) / cs
}

/// Window `i` of the plaintext: the bytes from `i * cs` on, but no more than
/// `cs` of them.
pub open spec fn window(plain: Seq<u8>, cs: int, i: int) -> Seq<u8> {
    plain.subrange(
        i * cs,
        if (i + 1) * cs <= plain.len() {
            (i + 1) * cs
        } else {
            plain.len() as int
        },
    )
}

/// The chunk ciphertexts are exactly the sealings of the plaintext's windows
/// under the keychain's records, one per window, in order.
pub open spec fn chunks_match(
    chunks: Seq<Seq<u8>>,
    kc: Seq<RecordModel>,
    plain: Seq<u8>,
    cs: int,
) -> bool {
    &&& kc.len() == num_chunks(plain.len() as int, cs)
    &&& chunks.len() == kc.len()
    &&& forall|i: int|
        0 <= i < kc.len() ==> {
            &&& wf_record(#[trigger] kc[i])
            &&& kc[i].length <= usize::MAX
            &&& kc[i].length == window(plain, cs, i).len()
            &&& chunks[i] == aes_gcm_seal(kc[i].key, kc[i].nonce, window(plain, cs, i))
        }
}

/// The metadata blob is the nonce-prefixed sealing of this keychain's
/// serialized form under the master key.
pub open spec fn seals_keychain(blob: Seq<u8>, master_key: Seq<u8>, kc: Seq<RecordModel>) -> bool {
    seals_bytes(blob, master_key, encode_keychain(kc))
}

/// The whole relation an encryption run establishes: some keychain ties the
/// chunk ciphertexts to the plaintext's windows, and the blob seals it.
pub open spec fn is_encryption_of(
    chunks: Seq<Seq<u8>>,
    blob: Seq<u8>,
    master_key: Seq<u8>,
    plain: Seq<u8>,
    cs: int,
) -> bool {
    &&& master_key.len() == 32
    &&& exists|kc: Seq<RecordModel>|
        #[trigger] seals_keychain(blob, master_key, kc) && chunks_match(chunks, kc, plain, cs)
}

/// The plaintext reassembled from per-chunk plaintexts: each truncated to its
/// record's length, concatenated in order.
pub open spec fn assemble(plains: Seq<Seq<u8>>, kc: Seq<RecordModel>) -> Seq<u8>
    recommends
        plains.len() == kc.len(),
    decreases kc.len(),
{
    if kc.len() == 0 {
        Seq::empty()
    } else {
        assemble(plains.drop_last(), kc.drop_last()) + plains.last().take(kc.last().length as int)
    }
}

/// The sequence of all windows of the plaintext.
pub open spec fn windows_of(plain: Seq<u8>, cs: int) -> Seq<Seq<u8>> {
    Seq::new(num_chunks(plain.len() as int, cs) as nat, |i: int| window(plain, cs, i))
}

/// Every chunk ciphertext is the sealing of the given per-chunk plaintext
/// under its record, long enough to be truncated to the recorded length.
pub open spec fn decryptable_with(
    plains: Seq<Seq<u8>>,
    kc: Seq<RecordModel>,
    chunks: Seq<Seq<u8>>,
) -> bool {
    &&& plains.len() == kc.len()
    &&& chunks.len() == kc.len()
    &&& wf_keychain(kc)
    &&& forall|i: int|
        0 <= i < kc.len() ==> chunks[i] == aes_gcm_seal(kc[i].key, kc[i].nonce, #[trigger] plains[i])
            && plains[i].len() >= kc[i].length
}

/// The chunk count is the ceiling: at least enough windows to cover the
/// input, and all but possibly the last window starts inside it.
pub proof fn lemma_num_chunks_bounds(len: int, cs: int)
    requires
        cs >= 1,
        len >= 0,
    ensures
        num_chunks(len, cs) >= 0,
        num_chunks(len, cs) * cs >= len,
        len > 0 ==> (num_chunks(len, cs) - 1) * cs < len,
        num_chunks(len, cs) == 0 <==> len == 0,
{
    let n = num_chunks(len, cs);
    vstd::arithmetic::div_mod::lemma_remainder(len + cs - 1, cs);
    assert(0 <= (len + cs - 1) - ((len + cs - 1) / cs * cs) < cs);
    assert(n * cs >= len);
    assert((n - 1) * cs == n * cs - cs) by (nonlinear_arith);
    assert(n >= 0) by (nonlinear_arith)
        requires
            cs >= 1,
            n * cs >= len,
            len >= 0,
            n * cs <= len + cs - 1,
    ;
    if len == 0 {
        assert(n <= 0) by (nonlinear_arith)
            requires
                cs >= 1,
                n * cs <= cs - 1,
        ;
    }
    if n == 0 {
        assert(len <= 0) by (nonlinear_arith)
            requires
                n == 0,
                n * cs >= len,
        ;
    }
}

/// Only the ceiling sits between those bounds.
proof fn lemma_ceil_unique(len: int, cs: int, n: int)
    requires
        cs >= 1,
        len >= 0,
        n >= 0,
        len <= n * cs,
        n > 0 ==> (n - 1) * cs < len,
        n == 0 ==> len == 0,
    ensures
        n == num_chunks(len, cs),
{
    let m = num_chunks(len, cs);
    lemma_num_chunks_bounds(len, cs);
    if n > m {
        assert((n - 1) * cs >= m * cs) by (nonlinear_arith)
            requires
                n - 1 >= m,
                cs >= 1,
        ;
        assert(len > 0);
    }
    if m > n {
        assert((m - 1) * cs >= n * cs) by (nonlinear_arith)
            requires
                m - 1 >= n,
                cs >= 1,
        ;
        assert(len > 0);
    }
}

/// Every index of a byte vector-of-vectors reads the same through the deep
/// view and through the element views.
pub proof fn lemma_deep_view_bytes(v: Vec<Vec<u8>>)
    ensures
        v.deep_view().len() == v@.len(),
        forall|j: int| 0 <= j < v@.len() ==> v.deep_view()[j] == v@[j]@,
{
    assert forall|j: int| 0 <= j < v@.len() implies v.deep_view()[j] == v@[j]@ by {
        assert(v.deep_view()[j] =~= v@[j]@);
    }
}

/// Reassembling the windows of a plaintext, each truncated to its own length,
/// gives the plaintext back.
proof fn lemma_assemble_windows(plain: Seq<u8>, cs: int, kc: Seq<RecordModel>)
    requires
        cs >= 1,
        kc.len() == num_chunks(plain.len() as int, cs),
        forall|i: int|
            0 <= i < kc.len() ==> (#[trigger] kc[i]).length == window(plain, cs, i).len(),
    ensures
        assemble(windows_of(plain, cs), kc) == plain,
    decreases kc.len(),
{
    let len = plain.len() as int;
    let n = kc.len() as int;
    lemma_num_chunks_bounds(len, cs);
    if n == 0 {
        assert(len == 0);
        assert(plain =~= Seq::<u8>::empty());
        assert(assemble(windows_of(plain, cs), kc) =~= plain);
    } else {
        let k = (n - 1) * cs;
        assert(0 <= k && k == n * cs - cs && k - cs == (n - 2) * cs && (n == 1 ==> k == 0)) by (
        nonlinear_arith)
            requires
                k == (n - 1) * cs,
                n >= 1,
                cs >= 1,
        ;
        assert(len > 0);
        assert(k < len);
        assert(len <= n * cs);
        let prefix = plain.take(k);
        let kcp = kc.drop_last();
        lemma_ceil_unique(k, cs, n - 1);
        assert(kcp.len() == num_chunks(prefix.len() as int, cs));
        assert forall|j: int| 0 <= j < kcp.len() implies (#[trigger] kcp[j]).length == window(
            prefix,
            cs,
            j,
        ).len() by {
            assert((j + 1) * cs <= (n - 1) * cs) by (nonlinear_arith)
                requires
                    j + 1 <= n - 1,
                    cs >= 1,
            ;
            lemma_window_of_prefix(plain, cs, j, k);
        }
        lemma_assemble_windows(prefix, cs, kcp);
        assert(windows_of(plain, cs).drop_last() =~= windows_of(prefix, cs)) by {
            assert forall|j: int| 0 <= j < n - 1 implies windows_of(plain, cs)[j] == windows_of(
                prefix,
                cs,
            )[j] by {
                assert((j + 1) * cs <= (n - 1) * cs) by (nonlinear_arith)
                    requires
                        j + 1 <= n - 1,
                        cs >= 1,
                ;
                lemma_window_of_prefix(plain, cs, j, k);
            }
        }
        assert(assemble(windows_of(plain, cs), kc) == prefix + windows_of(plain, cs).last().take(
            kc.last().length as int,
        ));
        assert(windows_of(plain, cs).last() == window(plain, cs, n - 1));
        assert(window(plain, cs, n - 1) == plain.subrange(k, len)) by {
            assert(((n - 1) + 1) * cs == k + cs) by (nonlinear_arith)
                requires
                    k == (n - 1) * cs,
            ;
            assert(window(plain, cs, n - 1) =~= plain.subrange(k, len));
        }
        assert(kc.last().length == len - k);
        assert(plain.subrange(k, len).take(len - k) =~= plain.subrange(k, len));
        assert(prefix + plain.subrange(k, len) =~= plain);
    }
}

/// A window that ends inside a prefix of the plaintext is the same window of
/// that prefix.
proof fn lemma_window_of_prefix(plain: Seq<u8>, cs: int, j: int, k: int)
    requires
        cs >= 1,
        j >= 0,
        (j + 1) * cs <= k <= plain.len(),
    ensures
        window(plain.take(k), cs, j) == window(plain, cs, j),
        window(plain, cs, j).len() == cs,
{
    assert(j * cs >= 0) by (nonlinear_arith)
        requires
            j >= 0,
            cs >= 1,
    ;
    assert(j * cs == (j + 1) * cs - cs) by (nonlinear_arith);
    assert(window(plain.take(k), cs, j) =~= window(plain, cs, j));
}

/// What one encryption run hands back: the chunk ciphertexts in index order,
/// and the sealed metadata blob.
#[derive(Debug)]
pub struct EncryptedPayload {
    pub chunks: Vec<Vec<u8>>,
    pub metadata: Vec<u8>,
}

/// Splits the input into windows of at most `chunk_size` bytes and seals each
/// window under a fresh key and nonce from the session random source. Returns
/// the ciphertexts and the keychain that ties them to the windows; encryption
/// is owed whenever the window size stays within GCM's message bound.
pub fn encrypt_chunks(input: &Vec<u8>, chunk_size: usize) -> (r: Result<
    (Vec<Vec<u8>>, Keychain),
    EncryptionError,
>)
    requires
        chunk_size >= 1,
    ensures
        r matches Ok(out) ==> chunks_match(out.0.deep_view(), out.1@, input@, chunk_size as int)
            && lengths_fit_usize(out.1@),
        r matches Err(e) ==> e.code == EncryptionErrors::CypherEncryptError,
        chunk_size <= 0x10_0000_0000 ==> r is Ok,
{
    let len = input.len();
    let cs = chunk_size;
    let mut chunks: Vec<Vec<u8>> = Vec::new();
    let mut records: Vec<ChunkRecord> = Vec::new();
    let ghost mut models: Seq<RecordModel> = Seq::empty();
    let mut offset: usize = 0;
    while offset < len
        invariant
            len == input@.len(),
            cs == chunk_size,
            cs >= 1,
            offset <= len,
            records@.len() == models.len(),
            chunks@.len() == models.len(),
            models == Seq::new(records@.len(), |j: int| records@[j]@),
            offset == if models.len() * cs <= len {
                (models.len() * cs) as int
            } else {
                len as int
            },
            models.len() > 0 ==> (models.len() - 1) * cs < len,
            forall|j: int|
                0 <= j < models.len() ==> {
                    &&& wf_record(#[trigger] models[j])
                    &&& models[j].length <= usize::MAX
                    &&& models[j].length == window(input@, cs as int, j).len()
                    &&& chunks@[j]@ == aes_gcm_seal(
                        models[j].key,
                        models[j].nonce,
                        window(input@, cs as int, j),
                    )
                },
        decreases len - offset,
    {
        let ghost i = models.len() as int;
        proof {
            assert(offset == i * cs && i * cs < len);
        }
        let remaining = len - offset;
        let n = if cs <= remaining {
            cs
        } else {
            remaining
        };
        let wv = subvec(input, offset, offset + n);
        proof {
            assert((i + 1) * cs == i * cs + cs) by (nonlinear_arith);
            assert(wv@ == window(input@, cs as int, i));
        }
        let key = session_random_bytes(32);
        let nonce = session_random_bytes(12);
        match encrypt_chunk(&wv, &key, &nonce) {
            Ok(ciphertext) => {
                let ghost newrec = RecordModel { key: key@, nonce: nonce@, length: n as nat };
                chunks.push(ciphertext);
                records.push(ChunkRecord { key, nonce, length: n });
                proof {
                    models = models.push(newrec);
                    assert(models =~= Seq::new(records@.len(), |j: int| records@[j]@));
                    assert(forall|j: int|
                        0 <= j < i ==> chunks@[j]@ == aes_gcm_seal(
                            models[j].key,
                            models[j].nonce,
                            window(input@, cs as int, j),
                        ));
                }
                if n == cs {
                    offset = offset + cs;
                    proof {
                        assert(offset == (i + 1) * cs);
                    }
                } else {
                    offset = len;
                    proof {
                        assert((i + 1) * cs == i * cs + cs) by (nonlinear_arith);
                        assert(models.len() * cs > len);
                    }
                }
            },
            Err(e) => {
                proof {
                    assert(wv@.len() <= cs);
                }
                return Err(e);
            },
        }
    }
    proof {
        let i = models.len() as int;
        assert(offset == len);
        if i == 0 {
            assert(len == 0);
        } else {
            assert(i * cs >= len);
        }
        lemma_ceil_unique(len as int, cs as int, i);
        lemma_deep_view_bytes(chunks);
        assert(chunks.deep_view().len() == models.len());
    }
    let kc = Keychain { records };
    proof {
        assert(kc@ == models);
    }
    Ok((chunks, kc))
}

/// Encrypts a whole plaintext: seals every window under its own fresh key and
/// nonce, serializes the keychain, and seals it under the master key. A
/// master key that is not exactly 32 bytes is rejected before any cipher
/// call. On success the chunk count is the ceiling of the input length over
/// the chunk size, and the payload stands in the encryption relation that
/// `decrypt_bytes` inverts.
pub fn encrypt_bytes(input: &Vec<u8>, master_key: &Vec<u8>, chunk_size: usize) -> (r: Result<
    EncryptedPayload,
    EncryptionError,
>)
    requires
        chunk_size >= 1,
    ensures
        master_key@.len() != 32 ==> (r matches Err(e) && e.code
            == EncryptionErrors::CreateCypherError),
        r matches Ok(p) ==> p.chunks@.len() == num_chunks(input@.len() as int, chunk_size as int)
            && is_encryption_of(
            p.chunks.deep_view(),
            p.metadata@,
            master_key@,
            input@,
            chunk_size as int,
        ),
        r matches Err(e) ==> e.code == EncryptionErrors::CreateCypherError || e.code
            == EncryptionErrors::CypherEncryptError,
        master_key@.len() == 32 && chunk_size <= 0x10_0000_0000 && 52 * num_chunks(
            input@.len() as int,
            chunk_size as int,
        ) <= 0x10_0000_0000 ==> r is Ok,
{
    if master_key.len() != 32 {
        return Err(wrap_err(EncryptionErrors::CreateCypherError, "Invalid Length"));
    }
    let (chunks, kc) = match encrypt_chunks(input, chunk_size) {
        Ok(out) => out,
        Err(e) => {
            return Err(e);
        },
    };
    let serialized = serialize_keychain(&kc);
    proof {
        assert(wf_keychain(kc@));
        lemma_encode_keychain_len(kc@);
        assert(serialized@.len() == 52 * kc@.len());
    }
    match encrypt_metadata(&serialized, master_key) {
        Ok(blob) => {
            proof {
                assert(seals_keychain(blob@, master_key@, kc@));
                lemma_deep_view_bytes(chunks);
                assert(is_encryption_of(
                    chunks.deep_view(),
                    blob@,
                    master_key@,
                    input@,
                    chunk_size as int,
                ));
            }
            Ok(EncryptedPayload { chunks, metadata: blob })
        },
        Err(e) => {
            proof {
                assert(kc@.len() == num_chunks(input@.len() as int, chunk_size as int));
            }
            Err(e)
        },
    }
}

/// Opens the sealed metadata blob under the master key and deserializes the
/// keychain. Succeeds exactly on blobs that seal a well-formed keychain under
/// this master key, and then returns that keychain.
pub fn open_keychain(blob: &Vec<u8>, master_key: &Vec<u8>) -> (r: Result<
    Keychain,
    EncryptionError,
>)
    ensures
        blob@.len() < 12 ==> (r matches Err(e) && e.code == EncryptionErrors::NonceError),
        blob@.len() >= 12 && master_key@.len() != 32 ==> (r matches Err(e) && e.code
            == EncryptionErrors::CreateCypherError),
        r matches Ok(kc) ==> master_key@.len() == 32 && wf_keychain(kc@) && lengths_fit_usize(kc@)
            && seals_keychain(blob@, master_key@, kc@),
        forall|s: Seq<RecordModel>|
            master_key@.len() == 32 && #[trigger] seals_keychain(blob@, master_key@, s)
                && wf_keychain(s) && lengths_fit_usize(s) ==> (r matches Ok(kc) && kc@ == s),
        r matches Err(e) ==> e.code == EncryptionErrors::NonceError || e.code
            == EncryptionErrors::CreateCypherError || e.code
            == EncryptionErrors::CypherDecryptError || e.code == EncryptionErrors::DecodeError,
{
    let data = match decrypt_metadata(blob, master_key) {
        Ok(data) => data,
        Err(e) => {
            proof {
                assert forall|s: Seq<RecordModel>|
                    master_key@.len() == 32 && seals_keychain(blob@, master_key@, s)
                        && wf_keychain(s) && lengths_fit_usize(s) implies false by {
                    assert(seals_bytes(blob@, master_key@, encode_keychain(s)));
                }
            }
            return Err(e);
        },
    };
    match deserialize_keychain(&data) {
        Ok(kc) => {
            proof {
                assert forall|s: Seq<RecordModel>|
                    master_key@.len() == 32 && seals_keychain(blob@, master_key@, s)
                        && wf_keychain(s) && lengths_fit_usize(s) implies kc@ == s by {
                    assert(seals_bytes(blob@, master_key@, encode_keychain(s)));
                    assert(data@ == encode_keychain(s));
                }
            }
            Ok(kc)
        },
        Err(e) => {
            proof {
                assert forall|s: Seq<RecordModel>|
                    master_key@.len() == 32 && seals_keychain(blob@, master_key@, s)
                        && wf_keychain(s) && lengths_fit_usize(s) implies false by {
                    assert(seals_bytes(blob@, master_key@, encode_keychain(s)));
                    assert(data@ == encode_keychain(s));
                }
            }
            Err(e)
        },
    }
}

/// Opens every chunk ciphertext with its own record, truncates each plaintext
/// to the recorded length, and concatenates them in keychain order. Owed to
/// succeed, with exactly the reassembled plaintext, whenever every chunk is a
/// genuine sealing under its record.
pub fn decrypt_chunks(kc: &Keychain, chunks: &Vec<Vec<u8>>) -> (r: Result<
    Vec<u8>,
    EncryptionError,
>)
    ensures
        r matches Ok(out) ==> exists|plains: Seq<Seq<u8>>|
            #[trigger] decryptable_with(plains, kc@, chunks.deep_view()) && out@ == assemble(
                plains,
                kc@,
            ),
        forall|plains: Seq<Seq<u8>>|
            #[trigger] decryptable_with(plains, kc@, chunks.deep_view()) ==> (r matches Ok(out)
                && out@ == assemble(plains, kc@)),
        r matches Err(e) ==> e.code == EncryptionErrors::CreateCypherError || e.code
            == EncryptionErrors::CypherDecryptError,
{
    proof {
        lemma_deep_view_bytes(*chunks);
    }
    let m = kc.records.len();
    let mut i: usize = 0;
    while i < m
        invariant
            i <= m,
            m == kc@.len(),
            forall|j: int| 0 <= j < i ==> wf_record(#[trigger] kc@[j]),
        decreases m - i,
    {
        let rec = &kc.records[i];
        proof {
            assert(kc@[i as int] == kc.records@[i as int]@);
        }
        if rec.key.len() != 32 || rec.nonce.len() != 12 {
            proof {
                assert forall|plains: Seq<Seq<u8>>|
                    decryptable_with(plains, kc@, chunks.deep_view()) implies false by {
                    assert(wf_record(kc@[i as int]));
                }
            }
            return Err(wrap_err(EncryptionErrors::CreateCypherError, "Invalid Length"));
        }
        i = i + 1;
    }
    assert(wf_keychain(kc@));
    if chunks.len() != m {
        proof {
            assert forall|plains: Seq<Seq<u8>>|
                decryptable_with(plains, kc@, chunks.deep_view()) implies false by {}
        }
        return Err(wrap_err(EncryptionErrors::CypherDecryptError, "chunk count does not match the keychain"));
    }
    let mut out: Vec<u8> = Vec::new();
    let ghost mut pts: Seq<Seq<u8>> = Seq::empty();
    let mut i: usize = 0;
    while i < m
        invariant
            i <= m,
            m == kc@.len(),
            m == kc.records@.len(),
            chunks@.len() == m,
            wf_keychain(kc@),
            chunks.deep_view().len() == m,
            forall|j: int| 0 <= j < m ==> chunks.deep_view()[j] == chunks@[j]@,
            pts.len() == i,
            forall|j: int|
                0 <= j < i ==> chunks.deep_view()[j] == aes_gcm_seal(
                    kc@[j].key,
                    kc@[j].nonce,
                    #[trigger] pts[j],
                ) && pts[j].len() >= kc@[j].length,
            forall|j: int, p: Seq<u8>|
                0 <= j < i && chunks.deep_view()[j] == #[trigger] aes_gcm_seal(
                    kc@[j].key,
                    kc@[j].nonce,
                    p,
                ) ==> p == pts[j],
            out@ == assemble(pts, kc@.take(i as int)),
        decreases m - i,
    {
        let rec = &kc.records[i];
        let ciphertext = &chunks[i];
        proof {
            assert(kc@[i as int] == kc.records@[i as int]@);
            assert(wf_record(kc@[i as int]));
            assert(ciphertext@ == chunks.deep_view()[i as int]);
        }
        match decrypt_chunk(ciphertext, &rec.key, &rec.nonce) {
            Ok(mut plain) => {
                if plain.len() < rec.length {
                    proof {
                        assert forall|plains: Seq<Seq<u8>>|
                            decryptable_with(plains, kc@, chunks.deep_view()) implies false by {
                            assert(chunks.deep_view()[i as int] == aes_gcm_seal(
                                kc@[i as int].key,
                                kc@[i as int].nonce,
                                plains[i as int],
                            ));
                            assert(plain@ == plains[i as int]);
                        }
                    }
                    return Err(wrap_err(EncryptionErrors::CypherDecryptError, "chunk shorter than its recorded length"));
                }
                let ghost pfull = plain@;
                plain.truncate(rec.length);
                let out2 = appended(out, &plain);
                out = out2;
                i = i + 1;
                proof {
                    let prev = pts;
                    pts = pts.push(pfull);
                    assert(pts.drop_last() =~= prev);
                    assert(kc@.take(i as int).drop_last() =~= kc@.take(i - 1));
                    assert(kc@.take(i as int).last() == kc@[i - 1]);
                    assert(plain@ == pfull.take(kc@[i - 1].length as int));
                    assert(out@ == assemble(pts, kc@.take(i as int)));
                }
            },
            Err(e) => {
                proof {
                    assert forall|plains: Seq<Seq<u8>>|
                        decryptable_with(plains, kc@, chunks.deep_view()) implies false by {
                        assert(chunks.deep_view()[i as int] == aes_gcm_seal(
                            kc@[i as int].key,
                            kc@[i as int].nonce,
                            plains[i as int],
                        ));
                    }
                }
                return Err(e);
            },
        }
    }
    proof {
        assert(kc@.take(m as int) =~= kc@);
        assert(decryptable_with(pts, kc@, chunks.deep_view()));
        assert forall|plains: Seq<Seq<u8>>|
            decryptable_with(plains, kc@, chunks.deep_view()) implies out@ == assemble(
            plains,
            kc@,
        ) by {
            assert forall|j: int| 0 <= j < m implies plains[j] == pts[j] by {
                assert(chunks.deep_view()[j] == aes_gcm_seal(
                    kc@[j].key,
                    kc@[j].nonce,
                    plains[j],
                ));
            }
            assert(plains =~= pts);
        }
    }
    Ok(out)
}

/// Decrypts a whole run: opens the keychain from the sealed blob, then every
/// chunk in keychain order. Whatever an encryption run under the same master
/// key produced from some plaintext is owed to come back as exactly that
/// plaintext.
pub fn decrypt_bytes(chunks: &Vec<Vec<u8>>, metadata: &Vec<u8>, master_key: &Vec<u8>) -> (r:
    Result<Vec<u8>, EncryptionError>)
    ensures
        metadata@.len() < 12 ==> (r matches Err(e) && e.code == EncryptionErrors::NonceError),
        metadata@.len() >= 12 && master_key@.len() != 32 ==> (r matches Err(e) && e.code
            == EncryptionErrors::CreateCypherError),
        forall|plain: Seq<u8>, cs: int|
            cs >= 1 && #[trigger] is_encryption_of(
                chunks.deep_view(),
                metadata@,
                master_key@,
                plain,
                cs,
            ) ==> (r matches Ok(out) && out@ == plain),
        r matches Ok(out) ==> master_key@.len() == 32 && (exists|kcs: Seq<RecordModel>|
            #[trigger] seals_keychain(metadata@, master_key@, kcs) && (exists|plains: Seq<Seq<u8>>|
                decryptable_with(plains, kcs, chunks.deep_view()) && out@ == assemble(
                    plains,
                    kcs,
                ))),
        r matches Err(e) ==> e.code == EncryptionErrors::NonceError || e.code
            == EncryptionErrors::CreateCypherError || e.code
            == EncryptionErrors::CypherDecryptError || e.code == EncryptionErrors::DecodeError,
{
    proof {
        lemma_deep_view_bytes(*chunks);
    }
    let kc = match open_keychain(metadata, master_key) {
        Ok(kc) => kc,
        Err(e) => {
            proof {
                assert forall|plain: Seq<u8>, cs: int|
                    cs >= 1 && is_encryption_of(
                        chunks.deep_view(),
                        metadata@,
                        master_key@,
                        plain,
                        cs,
                    ) implies false by {
                    let kcs = choose|kcs: Seq<RecordModel>|
                        seals_keychain(metadata@, master_key@, kcs) && chunks_match(
                            chunks.deep_view(),
                            kcs,
                            plain,
                            cs,
                        );
                    assert(wf_keychain(kcs));
                    assert(lengths_fit_usize(kcs));
                }
            }
            return Err(e);
        },
    };
    if chunks.len() != kc.records.len() {
        proof {
            assert forall|plain: Seq<u8>, cs: int|
                cs >= 1 && is_encryption_of(
                    chunks.deep_view(),
                    metadata@,
                    master_key@,
                    plain,
                    cs,
                ) implies false by {
                let kcs = choose|kcs: Seq<RecordModel>|
                    seals_keychain(metadata@, master_key@, kcs) && chunks_match(
                        chunks.deep_view(),
                        kcs,
                        plain,
                        cs,
                    );
                assert(wf_keychain(kcs));
                assert(lengths_fit_usize(kcs));
                assert(kc@ == kcs);
            }
        }
        return Err(wrap_err(EncryptionErrors::CypherDecryptError, "chunk count does not match the keychain"));
    }
    let result = decrypt_chunks(&kc, chunks);
    proof {
        assert forall|plain: Seq<u8>, cs: int|
            cs >= 1 && is_encryption_of(
                chunks.deep_view(),
                metadata@,
                master_key@,
                plain,
                cs,
            ) implies (result matches Ok(out) && out@ == plain) by {
            let kcs = choose|kcs: Seq<RecordModel>|
                seals_keychain(metadata@, master_key@, kcs) && chunks_match(
                    chunks.deep_view(),
                    kcs,
                    plain,
                    cs,
                );
            assert(wf_keychain(kcs));
            assert(lengths_fit_usize(kcs));
            assert(kc@ == kcs);
            assert forall|i: int| 0 <= i < kc@.len() implies chunks.deep_view()[i] == aes_gcm_seal(
                kc@[i].key,
                kc@[i].nonce,
                #[trigger] windows_of(plain, cs)[i],
            ) && windows_of(plain, cs)[i].len() >= kc@[i].length by {
                assert(windows_of(plain, cs)[i] == window(plain, cs, i));
            }
            assert(decryptable_with(windows_of(plain, cs), kc@, chunks.deep_view()));
            lemma_assemble_windows(plain, cs, kc@);
        }
    }
    result
}

} // verus!
