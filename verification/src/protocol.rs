//! The two entry points of the log, each one atomic, all-or-nothing
//! step against the storage slot: `initialize` creates the singleton
//! log, `log_contribution` appends one record to it. Any failure
//! leaves the slot and the funds byte-for-byte unchanged.

use vstd::prelude::*;

use crate::account::{ensure_capacity, spec_growth, write_prefix, StorageSlot};
use crate::codec::{
    decode_log, encode_log, lemma_decode_encode_log_with_tail, lemma_decode_log_wf,
    lemma_encode_log_len, spec_decode_log, spec_encode_log, spec_log_len, subvec,
};
use crate::errors::ContributionError;
use crate::model::{log_inv, log_wf, record_wf, LogModel, RecordModel, MAX_HASH_LEN,
    RECORD_FIXED_LEN};
use crate::state::{check_authority, views_of, Contribution, LogState};

verus! {

/// What initialization does to the slot's bytes, as a pure function:
/// a slot that already holds data is refused, and an empty one
/// receives the encoding of a fresh log owned by `caller`.
pub open spec fn spec_init_result(data: Seq<u8>, caller: Seq<u8>) -> Result<
    Seq<u8>,
    ContributionError,
> {
    if data.len() > 0 {
        Err(ContributionError::AlreadyInitialized)
    } else {
        Ok(
            spec_encode_log(
                LogModel { authority: caller, contributions: Seq::<RecordModel>::empty() },
            ),
        )
    }
}

/// The log after one record is appended at the tail: the authority is
/// unchanged, every prior record keeps its place, and the new record
/// carries exactly the given signer, clock value and code hash.
pub open spec fn spec_append_record(m: LogModel, signer: Seq<u8>, hash: Seq<u8>, now: i64)
    -> LogModel {
    LogModel {
        authority: m.authority,
        contributions: m.contributions.push(
            RecordModel { contributor: signer, timestamp: now, code_hash: hash },
        ),
    }
}

/// Which outcome an append attempt has, decided entirely by the
/// slot's bytes, the signer, the code hash and the available funds:
/// `CorruptLayout` when the slot does not decode; `EmptyCodeHash` and
/// `CodeHashTooLong` for a hash outside `1..=MAX_HASH_LEN`;
/// `AuthorityMismatch` when the signer is not the stored authority;
/// `InsufficientFunds` when the record count prefix is already full —
/// a platform resource limit — or when the funds cannot cover the
/// exact growth cost; `Ok` otherwise.
pub open spec fn spec_append_outcome(
    data: Seq<u8>,
    signer: Seq<u8>,
    hash: Seq<u8>,
    funds: u64,
    cost_per_byte: u64,
) -> Result<(), ContributionError> {
    match spec_decode_log(data) {
        None => Err(ContributionError::CorruptLayout),
        Some(m) => if hash.len() == 0 {
            Err(ContributionError::EmptyCodeHash)
        } else if hash.len() > MAX_HASH_LEN {
            Err(ContributionError::CodeHashTooLong)
        } else if signer != m.authority {
            Err(ContributionError::AuthorityMismatch)
        } else if m.contributions.len() >= u32::MAX {
            Err(ContributionError::InsufficientFunds)
        } else if spec_growth(data, spec_log_len(m) + RECORD_FIXED_LEN + hash.len())
            * cost_per_byte > funds {
            Err(ContributionError::InsufficientFunds)
        } else {
            Ok(())
        },
    }
}

/// Creates the singleton log in `slot`, with `caller` as its
/// permanent authority and no contributions; fails with
/// `AlreadyInitialized`, changing nothing, exactly when the slot
/// already holds data.
pub fn initialize(slot: &mut StorageSlot, caller: &Vec<u8>) -> (r: Result<(), ContributionError>)
    requires
        caller@.len() == 32,
    ensures
        (match spec_init_result(old(slot).data@, caller@) {
            Ok(d) => r is Ok && final(slot).data@ == d,
            Err(e) => r == Err::<(), ContributionError>(e) && final(slot).data@ == old(
                slot,
            ).data@,
        }),
        r is Ok <==> old(slot).data@.len() == 0,
        r is Ok ==> spec_decode_log(final(slot).data@) == Some(
            LogModel { authority: caller@, contributions: Seq::<RecordModel>::empty() },
        ),
{
    if slot.data.len() > 0 {
        return Err(ContributionError::AlreadyInitialized);
    }
    let state = LogState::new(subvec(caller, 0, caller.len()));
    let enc = encode_log(&state);
    slot.data = enc;
    proof {
        assert(caller@.subrange(0, caller@.len() as int) =~= caller@);
        crate::codec::lemma_codec_round_trip(state@);
    }
    Ok(())
}

/// Appends one record to the log held in `slot`, as one atomic step:
/// the input is validated, the authority gate is checked, the slot is
/// grown to the exact byte count the larger log needs with the cost
/// drawn from `funds`, and only then is the record written. On any
/// failure the slot and the funds are unchanged; on success the new
/// log is the old one with exactly one record appended at the tail.
pub fn log_contribution(
    slot: &mut StorageSlot,
    signer: &Vec<u8>,
    code_hash: Vec<u8>,
    now: i64,
    funds: &mut u64,
    cost_per_byte: u64,
) -> (r: Result<(), ContributionError>)
    requires
        signer@.len() == 32,
        old(slot).data@.len() + RECORD_FIXED_LEN + MAX_HASH_LEN <= usize::MAX,
    ensures
        r == spec_append_outcome(
            old(slot).data@,
            signer@,
            code_hash@,
            *old(funds),
            cost_per_byte,
        ),
        r is Err ==> final(slot).data@ == old(slot).data@ && *final(funds) == *old(funds),
        r is Ok ==> ({
            let m = spec_decode_log(old(slot).data@).unwrap();
            let m2 = spec_append_record(m, signer@, code_hash@, now);
            &&& spec_decode_log(final(slot).data@) == Some(m2)
            &&& final(slot).data@.len() == old(slot).data@.len() + spec_growth(
                old(slot).data@,
                spec_log_len(m2),
            )
            &&& *final(funds) == *old(funds) - spec_growth(old(slot).data@, spec_log_len(m2))
                * cost_per_byte
        }),
{
    let state = match decode_log(&slot.data) {
        Ok(s) => s,
        Err(e) => {
            return Err(e);
        },
    };
    if code_hash.len() == 0 {
        return Err(ContributionError::EmptyCodeHash);
    }
    if code_hash.len() > MAX_HASH_LEN {
        return Err(ContributionError::CodeHashTooLong);
    }
    match check_authority(&state, signer) {
        Ok(()) => {},
        Err(e) => {
            return Err(e);
        },
    }
    if state.contributions.len() >= u32::MAX as usize {
        return Err(ContributionError::InsufficientFunds);
    }
    proof {
        lemma_decode_log_wf(slot.data@);
    }
    let required = state.new_space(code_hash.len());
    match ensure_capacity(slot, required, funds, cost_per_byte) {
        Ok(()) => {},
        Err(e) => {
            return Err(e);
        },
    }
    let ghost m = state@;
    let ghost m2 = spec_append_record(m, signer@, code_hash@, now);
    let mut grown = state;
    let record = Contribution {
        contributor: subvec(signer, 0, signer.len()),
        timestamp: now,
        code_hash,
    };
    proof {
        assert(signer@.subrange(0, signer@.len() as int) =~= signer@);
    }
    grown.contributions.push(record);
    proof {
        let rm = RecordModel { contributor: signer@, timestamp: now, code_hash: record@.code_hash };
        assert(views_of(grown.contributions@) =~= m.contributions.push(rm));
        assert(grown@ =~= m2);
        assert(m2.contributions =~= m.contributions + seq![rm]);
        crate::codec::lemma_records_len_concat(m.contributions, seq![rm]);
        crate::codec::lemma_records_len_singleton(rm);
        assert(spec_log_len(m2) == required);
        lemma_encode_log_len(m2);
    }
    let enc = encode_log(&grown);
    write_prefix(slot, &enc);
    proof {
        assert(slot.data@ =~= enc@ + slot.data@.skip(enc@.len() as int));
        lemma_decode_encode_log_with_tail(m2, slot.data@.skip(enc@.len() as int));
    }
    Ok(())
}

/// Initializing the same slot twice always fails the second time: the
/// bytes a successful initialization writes are never empty, so the
/// second call returns `AlreadyInitialized` and the slot stays exactly
/// as the first call left it.
pub proof fn lemma_initialize_twice(caller1: Seq<u8>, caller2: Seq<u8>)
    requires
        caller1.len() == 32,
    ensures
        spec_init_result(Seq::<u8>::empty(), caller1) is Ok,
        spec_init_result(spec_init_result(Seq::<u8>::empty(), caller1).unwrap(), caller2)
            == Err::<Seq<u8>, ContributionError>(ContributionError::AlreadyInitialized),
{
    let m = LogModel { authority: caller1, contributions: Seq::<RecordModel>::empty() };
    assert(crate::codec::spec_records_len(Seq::<RecordModel>::empty()) == 0);
    lemma_encode_log_len(m);
}

/// Appending as the authority preserves the log's invariant: the
/// authority key never changes, the record count grows by exactly
/// one, and every record — the new one included — carries the
/// authority as its contributor.
pub proof fn lemma_append_preserves_inv(m: LogModel, hash: Seq<u8>, now: i64)
    requires
        log_inv(m),
        m.contributions.len() < u32::MAX,
        1 <= hash.len() <= MAX_HASH_LEN,
    ensures
        log_inv(spec_append_record(m, m.authority, hash, now)),
        spec_append_record(m, m.authority, hash, now).authority == m.authority,
        spec_append_record(m, m.authority, hash, now).contributions.len()
            == m.contributions.len() + 1,
{
    let m2 = spec_append_record(m, m.authority, hash, now);
    assert forall|i: int| 0 <= i < m2.contributions.len() implies record_wf(
        #[trigger] m2.contributions[i],
    ) && m2.contributions[i].contributor == m2.authority by {
        if i < m.contributions.len() {
            assert(m2.contributions[i] == m.contributions[i]);
        }
    }
}

} // verus!
