//! The fixed binary layout of the log, its encoder and its decoder.
//!
//! Layout of the slot's bytes: an 8-byte type discriminator, the
//! 32-byte authority key, a 4-byte little-endian record count, then
//! each record as a 32-byte contributor key, an 8-byte little-endian
//! signed timestamp, a 4-byte little-endian code-hash length, and the
//! code-hash bytes themselves. Bytes past the encoded log are spare
//! capacity and are never read as meaningful data.

use vstd::bytes::{
    spec_u32_from_le_bytes, spec_u32_to_le_bytes, spec_u64_from_le_bytes, spec_u64_to_le_bytes,
    u32_from_le_bytes, u32_to_le_bytes, u64_from_le_bytes, u64_to_le_bytes,
};
use vstd::prelude::*;
use vstd::slice::{slice_subrange, slice_to_vec};

use crate::errors::ContributionError;
use crate::model::{log_wf, record_wf, LogModel, RecordModel, HEADER_LEN, MAX_HASH_LEN,
    RECORD_FIXED_LEN};
use crate::state::{bytes_equal, views_of, Contribution, LogState};

verus! {

/// The 8-byte type discriminator that opens every encoded log.
pub open spec fn spec_discriminator() -> Seq<u8> {
    seq![0x4c, 0x4f, 0x47, 0x53, 0x54, 0x41, 0x54, 0x45]
}

/// The encoded length of one record: its fixed part plus its code hash.
pub open spec fn spec_record_len(r: RecordModel) -> int {
    RECORD_FIXED_LEN + r.code_hash.len()
}

/// The encoded length of a sequence of records.
pub open spec fn spec_records_len(rs: Seq<RecordModel>) -> int
    decreases rs.len(),
{
    if rs.len() == 0 {
        0
    } else {
        spec_record_len(rs[0]) + spec_records_len(rs.drop_first())
    }
}

/// The encoded length of the whole log: header plus every record.
pub open spec fn spec_log_len(m: LogModel) -> int {
    HEADER_LEN + spec_records_len(m.contributions)
}

/// The encoding of one record.
pub open spec fn spec_encode_record(r: RecordModel) -> Seq<u8> {
    r.contributor + spec_u64_to_le_bytes(r.timestamp as u64) + spec_u32_to_le_bytes(
        r.code_hash.len() as u32,
    ) + r.code_hash
}

/// The encoding of a sequence of records, in order.
pub open spec fn spec_encode_records(rs: Seq<RecordModel>) -> Seq<u8>
    decreases rs.len(),
{
    if rs.len() == 0 {
        Seq::empty()
    } else {
        spec_encode_record(rs[0]) + spec_encode_records(rs.drop_first())
    }
}

/// The encoding of the whole log.
pub open spec fn spec_encode_log(m: LogModel) -> Seq<u8> {
    spec_discriminator() + m.authority + spec_u32_to_le_bytes(m.contributions.len() as u32)
        + spec_encode_records(m.contributions)
}

/// The decoder for `n` records laid head to tail at the front of `b`;
/// bytes past the last record are ignored. `None` on any truncated
/// record or any code-hash length outside `1..=MAX_HASH_LEN`.
pub open spec fn spec_decode_records(b: Seq<u8>, n: nat) -> Option<Seq<RecordModel>>
    decreases n,
{
    if n == 0 {
        Some(Seq::empty())
    } else if b.len() < RECORD_FIXED_LEN {
        None
    } else {
        let l = spec_u32_from_le_bytes(b.subrange(40, 44)) as int;
        if l < 1 || l > MAX_HASH_LEN || b.len() < RECORD_FIXED_LEN + l {
            None
        } else {
            let r = RecordModel {
                contributor: b.subrange(0, 32),
                timestamp: spec_u64_from_le_bytes(b.subrange(32, 40)) as i64,
                code_hash: b.subrange(44, 44 + l),
            };
            match spec_decode_records(b.skip(44 + l), (n - 1) as nat) {
                Some(rest) => Some(seq![r] + rest),
                None => None,
            }
        }
    }
}

/// The decoder for a whole log laid at the front of `b`; spare bytes
/// past the encoded log are ignored. `None` on a short or mislabelled
/// header or any malformed record.
pub open spec fn spec_decode_log(b: Seq<u8>) -> Option<LogModel> {
    if b.len() < HEADER_LEN {
        None
    } else if b.subrange(0, 8) != spec_discriminator() {
        None
    } else {
        match spec_decode_records(
            b.skip(44),
            spec_u32_from_le_bytes(b.subrange(40, 44)) as nat,
        ) {
            Some(rs) => Some(LogModel { authority: b.subrange(8, 40), contributions: rs }),
            None => None,
        }
    }
}

/// Encoded record sequences add up: encoding `a + b` is encoding `a`
/// then encoding `b`.
pub proof fn lemma_encode_records_concat(a: Seq<RecordModel>, b: Seq<RecordModel>)
    ensures
        spec_encode_records(a + b) == spec_encode_records(a) + spec_encode_records(b),
    decreases a.len(),
{
    if a.len() == 0 {
        assert(a + b =~= b);
        assert(spec_encode_records(a) + spec_encode_records(b) =~= spec_encode_records(b));
    } else {
        assert((a + b).drop_first() =~= a.drop_first() + b);
        lemma_encode_records_concat(a.drop_first(), b);
        assert((a + b)[0] == a[0]);
        assert(spec_encode_record(a[0]) + (spec_encode_records(a.drop_first())
            + spec_encode_records(b)) =~= (spec_encode_record(a[0]) + spec_encode_records(
            a.drop_first(),
        )) + spec_encode_records(b));
    }
}

/// One record on its own encodes to exactly its record bytes.
pub proof fn lemma_encode_records_singleton(r: RecordModel)
    ensures
        spec_encode_records(seq![r]) == spec_encode_record(r),
{
    let s = seq![r];
    assert(s.drop_first() =~= Seq::<RecordModel>::empty());
    assert(spec_encode_records(Seq::<RecordModel>::empty()) == Seq::<u8>::empty());
    assert(spec_encode_records(s) =~= spec_encode_record(r));
}

/// One record on its own is exactly its own length.
pub proof fn lemma_records_len_singleton(r: RecordModel)
    ensures
        spec_records_len(seq![r]) == spec_record_len(r),
{
    let s = seq![r];
    assert(s.drop_first() =~= Seq::<RecordModel>::empty());
    assert(spec_records_len(Seq::<RecordModel>::empty()) == 0);
}

/// Encoding one more record appends its bytes at the tail.
pub proof fn lemma_encode_records_snoc(rs: Seq<RecordModel>, i: int)
    requires
        0 <= i < rs.len(),
    ensures
        spec_encode_records(rs.take(i + 1)) == spec_encode_records(rs.take(i))
            + spec_encode_record(rs[i]),
{
    assert(rs.take(i + 1) =~= rs.take(i) + seq![rs[i]]);
    lemma_encode_records_concat(rs.take(i), seq![rs[i]]);
    lemma_encode_records_singleton(rs[i]);
}

/// Record lengths are never negative.
pub proof fn lemma_records_len_nonneg(rs: Seq<RecordModel>)
    ensures
        spec_records_len(rs) >= 0,
    decreases rs.len(),
{
    if rs.len() > 0 {
        lemma_records_len_nonneg(rs.drop_first());
    }
}

/// Encoded lengths of record sequences add up.
pub proof fn lemma_records_len_concat(a: Seq<RecordModel>, b: Seq<RecordModel>)
    ensures
        spec_records_len(a + b) == spec_records_len(a) + spec_records_len(b),
    decreases a.len(),
{
    if a.len() == 0 {
        assert(a + b =~= b);
    } else {
        assert((a + b).drop_first() =~= a.drop_first() + b);
        lemma_records_len_concat(a.drop_first(), b);
        assert((a + b)[0] == a[0]);
    }
}

/// One more record adds exactly its own encoded length.
pub proof fn lemma_records_len_take_step(rs: Seq<RecordModel>, i: int)
    requires
        0 <= i < rs.len(),
    ensures
        spec_records_len(rs.take(i + 1)) == spec_records_len(rs.take(i)) + spec_record_len(rs[i]),
{
    assert(rs.take(i + 1) =~= rs.take(i) + seq![rs[i]]);
    lemma_records_len_concat(rs.take(i), seq![rs[i]]);
    lemma_records_len_singleton(rs[i]);
}

/// A prefix of a record sequence never encodes longer than the whole.
pub proof fn lemma_records_len_take_bound(rs: Seq<RecordModel>, i: int)
    requires
        0 <= i <= rs.len(),
    ensures
        spec_records_len(rs.take(i)) <= spec_records_len(rs),
{
    assert(rs =~= rs.take(i) + rs.skip(i));
    lemma_records_len_concat(rs.take(i), rs.skip(i));
    lemma_records_len_nonneg(rs.skip(i));
}

/// A well-formed record encodes to exactly its stated length.
pub proof fn lemma_encode_record_len(r: RecordModel)
    requires
        record_wf(r),
    ensures
        spec_encode_record(r).len() == spec_record_len(r),
{
    vstd::bytes::lemma_auto_spec_u64_to_from_le_bytes();
    vstd::bytes::lemma_auto_spec_u32_to_from_le_bytes();
}

/// Well-formed records encode to exactly their stated total length.
pub proof fn lemma_encode_records_len(rs: Seq<RecordModel>)
    requires
        forall|i: int| 0 <= i < rs.len() ==> record_wf(#[trigger] rs[i]),
    ensures
        spec_encode_records(rs).len() == spec_records_len(rs),
    decreases rs.len(),
{
    if rs.len() > 0 {
        lemma_encode_record_len(rs[0]);
        lemma_encode_records_len(rs.drop_first());
    }
}

/// A well-formed log encodes to exactly its stated length.
pub proof fn lemma_encode_log_len(m: LogModel)
    requires
        log_wf(m),
    ensures
        spec_encode_log(m).len() == spec_log_len(m),
{
    vstd::bytes::lemma_auto_spec_u32_to_from_le_bytes();
    lemma_encode_records_len(m.contributions);
}

/// Whatever the decoder accepts is well formed and no longer than the
/// bytes it was read from.
pub proof fn lemma_decode_records_wf(b: Seq<u8>, n: nat)
    ensures
        spec_decode_records(b, n) matches Some(rs) ==> {
            &&& rs.len() == n
            &&& forall|i: int| 0 <= i < rs.len() ==> record_wf(#[trigger] rs[i])
            &&& spec_records_len(rs) <= b.len()
        },
    decreases n,
{
    if n > 0 && spec_decode_records(b, n) is Some {
        let l = spec_u32_from_le_bytes(b.subrange(40, 44)) as int;
        let r = RecordModel {
            contributor: b.subrange(0, 32),
            timestamp: spec_u64_from_le_bytes(b.subrange(32, 40)) as i64,
            code_hash: b.subrange(44, 44 + l),
        };
        let tail = b.skip(44 + l);
        lemma_decode_records_wf(tail, (n - 1) as nat);
        let rest = spec_decode_records(tail, (n - 1) as nat).unwrap();
        lemma_records_len_concat(seq![r], rest);
        lemma_records_len_singleton(r);
        assert(spec_decode_records(b, n).unwrap() == seq![r] + rest);
        assert forall|i: int| 0 <= i < (seq![r] + rest).len() implies record_wf(
            #[trigger] (seq![r] + rest)[i],
        ) by {
            if i > 0 {
                assert((seq![r] + rest)[i] == rest[i - 1]);
            }
        }
    }
}

/// Whatever the log decoder accepts is a well-formed log that fits in
/// the bytes it was read from.
pub proof fn lemma_decode_log_wf(b: Seq<u8>)
    ensures
        spec_decode_log(b) matches Some(m) ==> {
            &&& log_wf(m)
            &&& spec_log_len(m) <= b.len()
        },
{
    if spec_decode_log(b) is Some {
        let n = spec_u32_from_le_bytes(b.subrange(40, 44)) as nat;
        lemma_decode_records_wf(b.skip(44), n);
    }
}

/// Decoding `rs.len()` records from the encoding of `rs`, with any
/// spare bytes after it, yields exactly `rs`.
pub proof fn lemma_decode_encode_records(rs: Seq<RecordModel>, tail: Seq<u8>)
    requires
        forall|i: int| 0 <= i < rs.len() ==> record_wf(#[trigger] rs[i]),
    ensures
        spec_decode_records(spec_encode_records(rs) + tail, rs.len() as nat) == Some(rs),
    decreases rs.len(),
{
    vstd::bytes::lemma_auto_spec_u64_to_from_le_bytes();
    vstd::bytes::lemma_auto_spec_u32_to_from_le_bytes();
    if rs.len() == 0 {
        assert(spec_encode_records(rs) + tail =~= tail);
        assert(rs =~= Seq::<RecordModel>::empty());
    } else {
        let r = rs[0];
        let rest = rs.drop_first();
        let enc_r = spec_encode_record(r);
        lemma_encode_record_len(r);
        let b = spec_encode_records(rs) + tail;
        assert(b =~= enc_r + (spec_encode_records(rest) + tail));
        let l = r.code_hash.len() as int;
        assert(b.subrange(0, 32) =~= r.contributor);
        assert(b.subrange(32, 40) =~= spec_u64_to_le_bytes(r.timestamp as u64));
        assert(b.subrange(40, 44) =~= spec_u32_to_le_bytes(r.code_hash.len() as u32));
        assert(b.subrange(44, 44 + l) =~= r.code_hash);
        assert(spec_u32_from_le_bytes(b.subrange(40, 44)) == r.code_hash.len() as u32);
        assert(spec_u64_from_le_bytes(b.subrange(32, 40)) == r.timestamp as u64);
        let t = r.timestamp;
        assert(((t as u64) as i64) == t) by (bit_vector);
        assert(b.skip(44 + l) =~= spec_encode_records(rest) + tail);
        lemma_decode_encode_records(rest, tail);
        assert(seq![r] + rest =~= rs);
    }
}

/// With any spare bytes after it, the encoding of a well-formed log
/// decodes to exactly that log.
pub proof fn lemma_decode_encode_log_with_tail(m: LogModel, tail: Seq<u8>)
    requires
        log_wf(m),
    ensures
        spec_decode_log(spec_encode_log(m) + tail) == Some(m),
{
    vstd::bytes::lemma_auto_spec_u32_to_from_le_bytes();
    let b = spec_encode_log(m) + tail;
    let count = spec_u32_to_le_bytes(m.contributions.len() as u32);
    assert(b =~= spec_discriminator() + m.authority + count + (spec_encode_records(
        m.contributions,
    ) + tail));
    assert(b.subrange(0, 8) =~= spec_discriminator());
    assert(b.subrange(8, 40) =~= m.authority);
    assert(b.subrange(40, 44) =~= count);
    assert(b.skip(44) =~= spec_encode_records(m.contributions) + tail);
    lemma_decode_encode_records(m.contributions, tail);
    assert(spec_decode_log(b) matches Some(mm) && mm =~= m);
}

/// The round-trip law: decoding the encoding of any well-formed log
/// state yields that state back, unchanged.
pub proof fn lemma_codec_round_trip(m: LogModel)
    requires
        log_wf(m),
    ensures
        spec_decode_log(spec_encode_log(m)) == Some(m),
{
    lemma_decode_encode_log_with_tail(m, Seq::empty());
    assert(spec_encode_log(m) + Seq::<u8>::empty() =~= spec_encode_log(m));
}

/// Appends every byte of `src` to `dst`.
pub fn push_bytes(dst: &mut Vec<u8>, src: &Vec<u8>)
    ensures
        final(dst)@ == old(dst)@ + src@,
{
    proof {
        assert(dst@ =~= old(dst)@ + src@.take(0));
    }
    let mut i: usize = 0;
    while i < src.len()
        invariant
            0 <= i <= src@.len(),
            dst@ == old(dst)@ + src@.take(i as int),
        decreases src@.len() - i,
    {
        dst.push(src[i]);
        proof {
            assert(old(dst)@ + src@.take(i as int) + seq![src@[i as int]] =~= old(dst)@
                + src@.take(i as int + 1));
        }
        i = i + 1;
    }
    proof {
        assert(src@.take(src@.len() as int) =~= src@);
    }
}

/// The bytes of `b` from `i` up to `j`, as a fresh vector.
pub fn subvec(b: &Vec<u8>, i: usize, j: usize) -> (out: Vec<u8>)
    requires
        i <= j <= b@.len(),
    ensures
        out@ == b@.subrange(i as int, j as int),
{
    slice_to_vec(slice_subrange(b.as_slice(), i, j))
}

/// The 8-byte discriminator as a fresh vector.
pub fn discriminator() -> (out: Vec<u8>)
    ensures
        out@ == spec_discriminator(),
{
    let mut out: Vec<u8> = Vec::new();
    out.push(0x4c);
    out.push(0x4f);
    out.push(0x47);
    out.push(0x53);
    out.push(0x54);
    out.push(0x41);
    out.push(0x54);
    out.push(0x45);
    proof {
        assert(out@ =~= spec_discriminator());
    }
    out
}

/// Encodes one record into its flat byte form. Never fails for a
/// well-formed record.
pub fn encode_record(r: &Contribution) -> (out: Vec<u8>)
    requires
        record_wf(r@),
    ensures
        out@ == spec_encode_record(r@),
{
    let mut out: Vec<u8> = Vec::new();
    push_bytes(&mut out, &r.contributor);
    let ts = u64_to_le_bytes(r.timestamp as u64);
    push_bytes(&mut out, &ts);
    let len_bytes = u32_to_le_bytes(r.code_hash.len() as u32);
    push_bytes(&mut out, &len_bytes);
    push_bytes(&mut out, &r.code_hash);
    proof {
        assert(out@ =~= spec_encode_record(r@));
    }
    out
}

/// Encodes the whole log into its flat byte form: header first, then
/// every record in log order. Never fails for a well-formed log.
pub fn encode_log(s: &LogState) -> (out: Vec<u8>)
    requires
        log_wf(s@),
    ensures
        out@ == spec_encode_log(s@),
{
    let mut out: Vec<u8> = Vec::new();
    let disc = discriminator();
    push_bytes(&mut out, &disc);
    push_bytes(&mut out, &s.authority);
    let count_bytes = u32_to_le_bytes(s.contributions.len() as u32);
    push_bytes(&mut out, &count_bytes);
    proof {
        assert(s@.contributions.take(0) =~= Seq::<RecordModel>::empty());
        assert(out@ =~= spec_discriminator() + s@.authority + spec_u32_to_le_bytes(
            s@.contributions.len() as u32,
        ) + spec_encode_records(s@.contributions.take(0)));
    }
    let mut i: usize = 0;
    while i < s.contributions.len()
        invariant
            log_wf(s@),
            0 <= i <= s.contributions.len(),
            s@.contributions.len() == s.contributions.len(),
            out@ == spec_discriminator() + s@.authority + spec_u32_to_le_bytes(
                s@.contributions.len() as u32,
            ) + spec_encode_records(s@.contributions.take(i as int)),
        decreases s.contributions.len() - i,
    {
        proof {
            assert(s@.contributions[i as int] == s.contributions@[i as int]@);
        }
        let rec = encode_record(&s.contributions[i]);
        push_bytes(&mut out, &rec);
        proof {
            lemma_encode_records_snoc(s@.contributions, i as int);
            assert(out@ =~= spec_discriminator() + s@.authority + spec_u32_to_le_bytes(
                s@.contributions.len() as u32,
            ) + spec_encode_records(s@.contributions.take(i as int + 1)));
        }
        i = i + 1;
    }
    proof {
        assert(s@.contributions.take(s.contributions.len() as int) =~= s@.contributions);
    }
    out
}

/// Decodes the log laid at the front of `b`; spare bytes past the
/// encoded log are ignored. Returns `CorruptLayout`, and only that,
/// exactly when the bytes do not hold a well-laid-out log.
pub fn decode_log(b: &Vec<u8>) -> (r: Result<LogState, ContributionError>)
    ensures
        match r {
            Ok(s) => spec_decode_log(b@) == Some(s@) && log_wf(s@),
            Err(e) => e == ContributionError::CorruptLayout && spec_decode_log(b@) is None,
        },
{
    if b.len() < HEADER_LEN {
        return Err(ContributionError::CorruptLayout);
    }
    let disc = discriminator();
    let head = subvec(b, 0, 8);
    if !bytes_equal(&head, &disc) {
        return Err(ContributionError::CorruptLayout);
    }
    let authority = subvec(b, 8, 40);
    let n = u32_from_le_bytes(slice_subrange(b.as_slice(), 40, 44));
    let ghost full = spec_decode_records(b@.skip(44), n as nat);
    let mut acc: Vec<Contribution> = Vec::new();
    let mut off: usize = HEADER_LEN;
    let mut j: u32 = 0;
    proof {
        assert(b@.skip(44) =~= b@.skip(off as int));
        assert(views_of(acc@) =~= Seq::<RecordModel>::empty());
        if full is Some {
            assert(views_of(acc@) + full.unwrap() =~= full.unwrap());
        }
    }
    while j < n
        invariant
            HEADER_LEN <= off <= b@.len(),
            j <= n,
            acc@.len() == j,
            b@.len() >= HEADER_LEN,
            b@.subrange(0, 8) == spec_discriminator(),
            n == spec_u32_from_le_bytes(b@.subrange(40, 44)),
            full == spec_decode_records(b@.skip(44), n as nat),
            (match spec_decode_records(b@.skip(off as int), (n - j) as nat) {
                Some(rest) => full == Some(views_of(acc@) + rest),
                None => full is None,
            }),
        decreases n - j,
    {
        let ghost c = b@.skip(off as int);
        if b.len() - off < RECORD_FIXED_LEN {
            proof {
                assert(c.len() < RECORD_FIXED_LEN);
                assert(spec_decode_records(c, (n - j) as nat) is None);
            }
            return Err(ContributionError::CorruptLayout);
        }
        let contributor = subvec(b, off, off + 32);
        let ts_u = u64_from_le_bytes(slice_subrange(b.as_slice(), off + 32, off + 40));
        let lw = u32_from_le_bytes(slice_subrange(b.as_slice(), off + 40, off + 44));
        proof {
            assert(b@.subrange(off as int, off as int + 32) =~= c.subrange(0, 32));
            assert(b@.subrange(off as int + 32, off as int + 40) =~= c.subrange(32, 40));
            assert(b@.subrange(off as int + 40, off as int + 44) =~= c.subrange(40, 44));
        }
        if lw < 1 || lw > 64 {
            proof {
                assert(spec_decode_records(c, (n - j) as nat) is None);
            }
            return Err(ContributionError::CorruptLayout);
        }
        let l = lw as usize;
        if b.len() - (off + RECORD_FIXED_LEN) < l {
            proof {
                assert(c.len() < RECORD_FIXED_LEN + l);
                assert(spec_decode_records(c, (n - j) as nat) is None);
            }
            return Err(ContributionError::CorruptLayout);
        }
        let code_hash = subvec(b, off + RECORD_FIXED_LEN, off + RECORD_FIXED_LEN + l);
        let rec = Contribution { contributor, timestamp: ts_u as i64, code_hash };
        proof {
            assert(b@.subrange(off as int + 44, off as int + 44 + l as int) =~= c.subrange(
                44,
                44 + l as int,
            ));
            assert(c.skip(44 + l as int) =~= b@.skip(off as int + 44 + l as int));
            assert(rec@ == (RecordModel {
                contributor: c.subrange(0, 32),
                timestamp: spec_u64_from_le_bytes(c.subrange(32, 40)) as i64,
                code_hash: c.subrange(44, 44 + l as int),
            }));
        }
        let ghost old_acc = acc@;
        acc.push(rec);
        proof {
            assert(views_of(acc@) =~= views_of(old_acc).push(rec@));
            let next = spec_decode_records(c.skip(44 + l as int), (n - j - 1) as nat);
            match next {
                Some(rest) => {
                    assert(spec_decode_records(c, (n - j) as nat) == Some(seq![rec@] + rest));
                    assert(views_of(old_acc) + (seq![rec@] + rest) =~= views_of(acc@) + rest);
                },
                None => {
                    assert(spec_decode_records(c, (n - j) as nat) is None);
                },
            }
        }
        off = off + RECORD_FIXED_LEN + l;
        j = j + 1;
    }
    proof {
        assert(spec_decode_records(b@.skip(off as int), (n - j) as nat) == Some(
            Seq::<RecordModel>::empty(),
        ));
        assert(views_of(acc@) + Seq::<RecordModel>::empty() =~= views_of(acc@));
    }
    let s = LogState { authority, contributions: acc };
    proof {
        assert(b@.subrange(0, 8) == spec_discriminator());
        assert(spec_decode_log(b@) matches Some(m) && m =~= s@);
        lemma_decode_log_wf(b@);
    }
    Ok(s)
}

} // verus!
