//! Keychain codec: a deterministic, order-preserving binary encoding of the
//! ordered chunk records. Every record is a fixed 52-byte stride: the 32-byte
//! key, the 12-byte nonce, and the plaintext length as 8 little-endian bytes.

use vstd::prelude::*;

use crate::errors::{wrap_err, EncryptionError, EncryptionErrors};

verus! {

/// Bytes one record occupies in the serialized keychain.
pub const RECORD_SIZE: usize = 52;

/// What is needed to decrypt one chunk: its one-time key and nonce, and how
/// many plaintext bytes the chunk really holds (the last chunk may be short).
#[derive(Debug)]
pub struct ChunkRecord {
    pub key: Vec<u8>,
    pub nonce: Vec<u8>,
    pub length: usize,
}

/// The mathematical image of a chunk record.
pub struct RecordModel {
    pub key: Seq<u8>,
    pub nonce: Seq<u8>,
    pub length: nat,
}

impl View for ChunkRecord {
    type V = RecordModel;

    open spec fn view(&self) -> RecordModel {
        RecordModel { key: self.key@, nonce: self.nonce@, length: self.length as nat }
    }
}

/// The ordered list of chunk records, built append-only during encryption and
/// read-only during decryption.
#[derive(Debug)]
pub struct Keychain {
    pub records: Vec<ChunkRecord>,
}

impl View for Keychain {
    type V = Seq<RecordModel>;

    open spec fn view(&self) -> Seq<RecordModel> {
        Seq::new(self.records@.len(), |i: int| self.records@[i]@)
    }
}

impl Keychain {
    pub fn len(&self) -> (n: usize)
        ensures
            n == self@.len(),
    {
        self.records.len()
    }
}

/// A record whose fields have the widths the format fixes.
pub open spec fn wf_record(r: RecordModel) -> bool {
    &&& r.key.len() == 32
    &&& r.nonce.len() == 12
    &&& r.length <= u64::MAX
}

pub open spec fn wf_keychain(s: Seq<RecordModel>) -> bool {
    forall|i: int| 0 <= i < s.len() ==> wf_record(#[trigger] s[i])
}

/// Every recorded length fits the machine word, so it can be decoded back.
pub open spec fn lengths_fit_usize(s: Seq<RecordModel>) -> bool {
    forall|i: int| 0 <= i < s.len() ==> (#[trigger] s[i]).length <= usize::MAX
}

/// A 64-bit value as its 8 little-endian bytes.
pub open spec fn u64_le_bytes(v: u64) -> Seq<u8> {
    seq![
        (v & 0xff) as u8,
        ((v >> 8) & 0xff) as u8,
        ((v >> 16) & 0xff) as u8,
        ((v >> 24) & 0xff) as u8,
        ((v >> 32) & 0xff) as u8,
        ((v >> 40) & 0xff) as u8,
        ((v >> 48) & 0xff) as u8,
        ((v >> 56) & 0xff) as u8,
    ]
}

pub open spec fn encode_record(r: RecordModel) -> Seq<u8> {
    r.key + r.nonce + u64_le_bytes(r.length as u64)
}

/// The serialized keychain: the records' encodings, back to back, in order.
pub open spec fn encode_keychain(s: Seq<RecordModel>) -> Seq<u8>
    decreases s.len(),
{
    if s.len() == 0 {
        Seq::empty()
    } else {
        encode_keychain(s.drop_last()) + encode_record(s.last())
    }
}

proof fn lemma_u64_le_injective(a: u64, b: u64)
    requires
        u64_le_bytes(a) == u64_le_bytes(b),
    ensures
        a == b,
{
    assert((a & 0xff) as u8 == (b & 0xff) as u8);
    assert(((a >> 8) & 0xff) as u8 == ((b >> 8) & 0xff) as u8);
    assert(((a >> 16) & 0xff) as u8 == ((b >> 16) & 0xff) as u8);
    assert(((a >> 24) & 0xff) as u8 == ((b >> 24) & 0xff) as u8);
    assert(((a >> 32) & 0xff) as u8 == ((b >> 32) & 0xff) as u8);
    assert(((a >> 40) & 0xff) as u8 == ((b >> 40) & 0xff) as u8);
    assert(((a >> 48) & 0xff) as u8 == ((b >> 48) & 0xff) as u8);
    assert(((a >> 56) & 0xff) as u8 == ((b >> 56) & 0xff) as u8);
    assert(a == b) by (bit_vector)
        requires
            (a & 0xff) as u8 == (b & 0xff) as u8,
            ((a >> 8) & 0xff) as u8 == ((b >> 8) & 0xff) as u8,
            ((a >> 16) & 0xff) as u8 == ((b >> 16) & 0xff) as u8,
            ((a >> 24) & 0xff) as u8 == ((b >> 24) & 0xff) as u8,
            ((a >> 32) & 0xff) as u8 == ((b >> 32) & 0xff) as u8,
            ((a >> 40) & 0xff) as u8 == ((b >> 40) & 0xff) as u8,
            ((a >> 48) & 0xff) as u8 == ((b >> 48) & 0xff) as u8,
            ((a >> 56) & 0xff) as u8 == ((b >> 56) & 0xff) as u8,
    ;
}

/// Where the fields of a well-formed record sit inside its encoding.
proof fn lemma_record_parts(r: RecordModel)
    requires
        wf_record(r),
    ensures
        encode_record(r).len() == RECORD_SIZE,
        encode_record(r).subrange(0, 32) == r.key,
        encode_record(r).subrange(32, 44) == r.nonce,
        encode_record(r).subrange(44, 52) == u64_le_bytes(r.length as u64),
{
    assert(encode_record(r).subrange(0, 32) =~= r.key);
    assert(encode_record(r).subrange(32, 44) =~= r.nonce);
    assert(encode_record(r).subrange(44, 52) =~= u64_le_bytes(r.length as u64));
}

pub proof fn lemma_encode_keychain_len(s: Seq<RecordModel>)
    requires
        wf_keychain(s),
    ensures
        encode_keychain(s).len() == RECORD_SIZE * s.len(),
    decreases s.len(),
{
    if s.len() > 0 {
        assert(wf_keychain(s.drop_last()));
        lemma_encode_keychain_len(s.drop_last());
        lemma_record_parts(s.last());
    }
}

/// Where record `i` of a well-formed keychain sits inside the encoding.
proof fn lemma_encode_keychain_index(s: Seq<RecordModel>, i: int)
    requires
        wf_keychain(s),
        0 <= i < s.len(),
    ensures
        encode_keychain(s).subrange(RECORD_SIZE * i, RECORD_SIZE * (i + 1)) == encode_record(s[i]),
    decreases s.len(),
{
    lemma_encode_keychain_len(s);
    lemma_encode_keychain_len(s.drop_last());
    lemma_record_parts(s.last());
    if i == s.len() - 1 {
        assert(encode_keychain(s).subrange(RECORD_SIZE * i, RECORD_SIZE * (i + 1)) =~= encode_record(
            s[i],
        ));
    } else {
        assert(wf_keychain(s.drop_last()));
        lemma_encode_keychain_index(s.drop_last(), i);
        assert(encode_keychain(s).subrange(RECORD_SIZE * i, RECORD_SIZE * (i + 1)) =~= encode_keychain(
            s.drop_last(),
        ).subrange(RECORD_SIZE * i, RECORD_SIZE * (i + 1)));
    }
}

proof fn lemma_record_injective(r1: RecordModel, r2: RecordModel)
    requires
        wf_record(r1),
        wf_record(r2),
        encode_record(r1) == encode_record(r2),
    ensures
        r1 == r2,
{
    lemma_record_parts(r1);
    lemma_record_parts(r2);
    lemma_u64_le_injective(r1.length as u64, r2.length as u64);
}

/// The encoding is injective on well-formed keychains: equal encodings mean
/// equal record lists.
pub proof fn lemma_encode_keychain_injective(s: Seq<RecordModel>, t: Seq<RecordModel>)
    requires
        wf_keychain(s),
        wf_keychain(t),
        encode_keychain(s) == encode_keychain(t),
    ensures
        s == t,
{
    lemma_encode_keychain_len(s);
    lemma_encode_keychain_len(t);
    assert(RECORD_SIZE * s.len() == RECORD_SIZE * t.len());
    assert(s.len() == t.len()) by (nonlinear_arith)
        requires
            52 * s.len() == 52 * t.len(),
    ;
    assert forall|i: int| 0 <= i < s.len() implies s[i] == t[i] by {
        lemma_encode_keychain_index(s, i);
        lemma_encode_keychain_index(t, i);
        lemma_record_injective(s[i], t[i]);
    }
    assert(s =~= t);
}

/// Appends a copy of `b` to `a`.
pub fn appended(a: Vec<u8>, b: &Vec<u8>) -> (r: Vec<u8>)
    ensures
        r@ == a@ + b@,
{
    let ghost a0 = a@;
    let mut out = a;
    let mut i: usize = 0;
    while i < b.len()
        invariant
            i <= b@.len(),
            out@ == a0 + b@.take(i as int),
        decreases b@.len() - i,
    {
        out.push(b[i]);
        i = i + 1;
        assert(a0 + b@.take(i - 1) + seq![b@[i - 1]] =~= a0 + b@.take(i as int));
    }
    assert(a0 + b@.take(b@.len() as int) =~= a0 + b@);
    out
}

/// Copies `v[start..end]` into a fresh vector.
pub fn subvec(v: &Vec<u8>, start: usize, end: usize) -> (r: Vec<u8>)
    requires
        start <= end <= v@.len(),
    ensures
        r@ == v@.subrange(start as int, end as int),
{
    let mut out: Vec<u8> = Vec::new();
    let mut i: usize = start;
    while i < end
        invariant
            start <= i <= end <= v@.len(),
            out@ == v@.subrange(start as int, i as int),
        decreases end - i,
    {
        out.push(v[i]);
        i = i + 1;
        assert(v@.subrange(start as int, i - 1) + seq![v@[i - 1]] =~= v@.subrange(
            start as int,
            i as int,
        ));
    }
    out
}

fn push_u64_le(out: &mut Vec<u8>, v: u64)
    ensures
        final(out)@ == old(out)@ + u64_le_bytes(v),
{
    let ghost o0 = old(out)@;
    out.push((v & 0xff) as u8);
    out.push(((v >> 8) & 0xff) as u8);
    out.push(((v >> 16) & 0xff) as u8);
    out.push(((v >> 24) & 0xff) as u8);
    out.push(((v >> 32) & 0xff) as u8);
    out.push(((v >> 40) & 0xff) as u8);
    out.push(((v >> 48) & 0xff) as u8);
    out.push(((v >> 56) & 0xff) as u8);
    assert(out@ =~= o0 + u64_le_bytes(v));
}

fn u64_from_le(bytes: &Vec<u8>, offset: usize) -> (v: u64)
    requires
        offset + 8 <= bytes@.len() <= usize::MAX,
    ensures
        u64_le_bytes(v) == bytes@.subrange(offset as int, offset as int + 8),
{
    let b0 = bytes[offset];
    let b1 = bytes[offset + 1];
    let b2 = bytes[offset + 2];
    let b3 = bytes[offset + 3];
    let b4 = bytes[offset + 4];
    let b5 = bytes[offset + 5];
    let b6 = bytes[offset + 6];
    let b7 = bytes[offset + 7];
    let v: u64 = (b0 as u64) | ((b1 as u64) << 8) | ((b2 as u64) << 16) | ((b3 as u64) << 24) | ((
    b4 as u64) << 32) | ((b5 as u64) << 40) | ((b6 as u64) << 48) | ((b7 as u64) << 56);
    assert((v & 0xff) as u8 == b0 && ((v >> 8) & 0xff) as u8 == b1 && ((v >> 16) & 0xff) as u8 == b2
        && ((v >> 24) & 0xff) as u8 == b3 && ((v >> 32) & 0xff) as u8 == b4 && ((v >> 40)
        & 0xff) as u8 == b5 && ((v >> 48) & 0xff) as u8 == b6 && ((v >> 56) & 0xff) as u8 == b7)
        by (bit_vector)
        requires
            v == (b0 as u64) | ((b1 as u64) << 8) | ((b2 as u64) << 16) | ((b3 as u64) << 24) | ((
            b4 as u64) << 32) | ((b5 as u64) << 40) | ((b6 as u64) << 48) | ((b7 as u64) << 56),
    ;
    assert(u64_le_bytes(v) =~= bytes@.subrange(offset as int, offset as int + 8));
    v
}

/// Serializes the keychain into its compact binary form. The encoding is
/// total: every record's bytes are written as they stand.
pub fn serialize_keychain(kc: &Keychain) -> (r: Vec<u8>)
    ensures
        r@ == encode_keychain(kc@),
{
    let mut out: Vec<u8> = Vec::new();
    let mut i: usize = 0;
    while i < kc.records.len()
        invariant
            i <= kc.records@.len(),
            out@ == encode_keychain(kc@.take(i as int)),
        decreases kc.records@.len() - i,
    {
        let rec = &kc.records[i];
        let out1 = appended(out, &rec.key);
        let mut out2 = appended(out1, &rec.nonce);
        push_u64_le(&mut out2, rec.length as u64);
        out = out2;
        i = i + 1;
        proof {
            let s = kc@.take(i as int);
            assert(s.drop_last() =~= kc@.take(i - 1));
            assert(s.last() == kc@[i - 1]);
            assert(out@ =~= encode_keychain(kc@.take(i - 1)) + encode_record(kc@[i - 1]));
        }
    }
    assert(kc@.take(kc@.len() as int) =~= kc@);
    out
}

/// Deserializes a keychain from its binary form. Succeeds exactly on the
/// encodings of well-formed keychains whose lengths fit the machine word, and
/// then returns that keychain; anything else is malformed.
pub fn deserialize_keychain(bytes: &Vec<u8>) -> (r: Result<Keychain, EncryptionError>)
    ensures
        r matches Ok(kc) ==> wf_keychain(kc@) && lengths_fit_usize(kc@) && encode_keychain(kc@)
            == bytes@,
        forall|s: Seq<RecordModel>|
            wf_keychain(s) && lengths_fit_usize(s) && encode_keychain(s) == bytes@ ==> (r matches Ok(
                kc,
            ) && kc@ == s),
        r matches Err(e) ==> e.code == EncryptionErrors::DecodeError,
{
    if bytes.len() % RECORD_SIZE != 0 {
        proof {
            assert forall|s: Seq<RecordModel>|
                wf_keychain(s) && lengths_fit_usize(s) && encode_keychain(s)
                    == bytes@ implies false by {
                lemma_encode_keychain_len(s);
                assert((52 * s.len()) % 52 == 0) by (nonlinear_arith);
            }
        }
        return Err(wrap_err(EncryptionErrors::DecodeError, "keychain length is not a whole number of records"));
    }
    let total = bytes.len();
    let n = total / RECORD_SIZE;
    assert(bytes@.len() == 52 * n) by (nonlinear_arith)
        requires
            total as int % 52 == 0,
            n == total as int / 52,
            total == bytes@.len(),
    ;
    let mut records: Vec<ChunkRecord> = Vec::new();
    let ghost mut models: Seq<RecordModel> = Seq::empty();
    let mut i: usize = 0;
    while i < n
        invariant
            i <= n,
            bytes@.len() == 52 * n,
            bytes@.len() <= usize::MAX,
            records@.len() == i,
            models == Seq::new(records@.len(), |j: int| records@[j]@),
            wf_keychain(models),
            lengths_fit_usize(models),
            encode_keychain(models) == bytes@.take(52 * i),
        decreases n - i,
    {
        assert(52 * i + 52 <= 52 * n) by (nonlinear_arith)
            requires
                i < n,
        ;
        let base = i * RECORD_SIZE;
        let key = subvec(bytes, base, base + 32);
        let nonce = subvec(bytes, base + 32, base + 44);
        let length_u64 = u64_from_le(bytes, base + 44);
        if length_u64 > usize::MAX as u64 {
            proof {
                assert forall|s: Seq<RecordModel>|
                    wf_keychain(s) && lengths_fit_usize(s) && encode_keychain(s)
                        == bytes@ implies false by {
                    lemma_encode_keychain_len(s);
                    assert(s.len() == n) by (nonlinear_arith)
                        requires
                            52 * s.len() == 52 * n,
                    ;
                    lemma_encode_keychain_index(s, i as int);
                    lemma_record_parts(s[i as int]);
                    assert(encode_keychain(s).subrange(52 * i, 52 * i + 52).subrange(44, 52)
                        =~= bytes@.subrange(52 * i + 44, 52 * i + 52));
                    assert(u64_le_bytes(s[i as int].length as u64) == bytes@.subrange(
                        base as int + 44,
                        base as int + 52,
                    ));
                    lemma_u64_le_injective(s[i as int].length as u64, length_u64);
                }
            }
            return Err(wrap_err(EncryptionErrors::DecodeError, "recorded chunk length does not fit this machine"));
        }
        let length = length_u64 as usize;
        let ghost newrec = RecordModel { key: key@, nonce: nonce@, length: length as nat };
        records.push(ChunkRecord { key, nonce, length });
        i = i + 1;
        proof {
            let prev = models;
            models = models.push(newrec);
            assert(models =~= Seq::new(records@.len(), |j: int| records@[j]@));
            assert(models.drop_last() =~= prev);
            assert(wf_record(newrec));
            assert(encode_record(newrec) =~= bytes@.subrange(52 * (i - 1), 52 * i)) by {
                lemma_record_parts(newrec);
                assert(newrec.key == bytes@.subrange(52 * (i - 1), 52 * (i - 1) + 32));
                assert(newrec.nonce == bytes@.subrange(52 * (i - 1) + 32, 52 * (i - 1) + 44));
                assert(u64_le_bytes(newrec.length as u64) == bytes@.subrange(
                    52 * (i - 1) + 44,
                    52 * i,
                ));
            }
            assert(encode_keychain(models) =~= bytes@.take(52 * i)) by {
                assert(encode_keychain(models) == encode_keychain(prev) + encode_record(newrec));
                assert(encode_keychain(prev) == bytes@.take(52 * (i - 1)));
            }
        }
    }
    let kc = Keychain { records };
    proof {
        assert(bytes@.take(52 * n as int) =~= bytes@);
        assert(kc@ == models);
        assert forall|s: Seq<RecordModel>|
            wf_keychain(s) && lengths_fit_usize(s) && encode_keychain(s) == bytes@ implies kc@
            == s by {
            lemma_encode_keychain_injective(kc@, s);
        }
    }
    Ok(kc)
}

} // verus!
