//! The executable log types and the exact capacity computation made
//! before every append.

use vstd::prelude::*;

use crate::codec::spec_log_len;
use crate::model::{log_wf, LogModel, RecordModel, HEADER_LEN, MAX_HASH_LEN, RECORD_FIXED_LEN};

verus! {

/// One logged contribution: the contributor's 32-byte key, the platform
/// clock value at append time, and the UTF-8 bytes of the code hash.
#[derive(Clone, Debug)]
pub struct Contribution {
    pub contributor: Vec<u8>,
    pub timestamp: i64,
    pub code_hash: Vec<u8>,
}

impl View for Contribution {
    type V = RecordModel;

    open spec fn view(&self) -> RecordModel {
        RecordModel {
            contributor: self.contributor@,
            timestamp: self.timestamp,
            code_hash: self.code_hash@,
        }
    }
}

/// The singleton log: the 32-byte authority key set once at creation,
/// and the append-only sequence of contributions in insertion order.
#[derive(Clone, Debug)]
pub struct LogState {
    pub authority: Vec<u8>,
    pub contributions: Vec<Contribution>,
}

/// The models of a sequence of records, in the same order.
pub open spec fn views_of(cs: Seq<Contribution>) -> Seq<RecordModel> {
    cs.map_values(|c: Contribution| c@)
}

impl View for LogState {
    type V = LogModel;

    open spec fn view(&self) -> LogModel {
        LogModel { authority: self.authority@, contributions: views_of(self.contributions@) }
    }
}

impl LogState {
    /// A fresh log owned by `authority`, with no contributions yet.
    pub fn new(authority: Vec<u8>) -> (s: LogState)
        requires
            authority@.len() == 32,
        ensures
            s@ == (LogModel { authority: authority@, contributions: Seq::<RecordModel>::empty() }),
            log_wf(s@),
    {
        let s = LogState { authority, contributions: Vec::new() };
        proof {
            assert(s@.contributions =~= Seq::<RecordModel>::empty());
        }
        s
    }

    /// The exact number of bytes the slot must hold once one more
    /// record, whose code hash is `hash_len` bytes long, is appended:
    /// the header plus the true encoded length of every present record
    /// plus that of the incoming one. Each record's own encoded length
    /// is used here — records vary in size with their code hash — so
    /// the slot is never sized from a fixed per-record stride.
    pub fn new_space(&self, hash_len: usize) -> (n: usize)
        requires
            log_wf(self@),
            1 <= hash_len <= MAX_HASH_LEN,
            spec_log_len(self@) + RECORD_FIXED_LEN + MAX_HASH_LEN <= usize::MAX,
        ensures
            n == spec_log_len(self@) + RECORD_FIXED_LEN + hash_len,
    {
        let mut total: usize = HEADER_LEN;
        let mut i: usize = 0;
        proof {
            assert(self@.contributions.take(0) =~= Seq::<RecordModel>::empty());
        }
        while i < self.contributions.len()
            invariant
                log_wf(self@),
                0 <= i <= self.contributions.len(),
                self@.contributions.len() == self.contributions.len(),
                total == HEADER_LEN + crate::codec::spec_records_len(
                    self@.contributions.take(i as int),
                ),
                spec_log_len(self@) + RECORD_FIXED_LEN + MAX_HASH_LEN <= usize::MAX,
            decreases self.contributions.len() - i,
        {
            proof {
                assert(self@.contributions[i as int] == self.contributions@[i as int]@);
                crate::codec::lemma_records_len_take_step(self@.contributions, i as int);
                crate::codec::lemma_records_len_take_bound(self@.contributions, i as int + 1);
            }
            total = total + RECORD_FIXED_LEN + self.contributions[i].code_hash.len();
            i = i + 1;
        }
        proof {
            assert(self@.contributions.take(self.contributions.len() as int)
                =~= self@.contributions);
        }
        total + RECORD_FIXED_LEN + hash_len
    }
}

/// Succeeds exactly when `signer` equals the stored authority key; the
/// gate that must pass before any mutation of the log.
pub fn check_authority(state: &LogState, signer: &Vec<u8>) -> (r: Result<
    (),
    crate::errors::ContributionError,
>)
    ensures
        r is Ok <==> signer@ == state@.authority,
        r is Err ==> r == Err::<(), crate::errors::ContributionError>(
            crate::errors::ContributionError::AuthorityMismatch,
        ),
{
    if bytes_equal(signer, &state.authority) {
        Ok(())
    } else {
        Err(crate::errors::ContributionError::AuthorityMismatch)
    }
}

/// Byte-for-byte equality of two byte vectors.
pub fn bytes_equal(a: &Vec<u8>, b: &Vec<u8>) -> (r: bool)
    ensures
        r == (a@ == b@),
{
    if a.len() != b.len() {
        proof {
            assert(a@ != b@);
        }
        return false;
    }
    let mut i: usize = 0;
    while i < a.len()
        invariant
            0 <= i <= a.len(),
            a@.len() == b@.len(),
            forall|j: int| 0 <= j < i ==> a@[j] == b@[j],
        decreases a.len() - i,
    {
        if a[i] != b[i] {
            proof {
                assert(a@[i as int] != b@[i as int]);
            }
            return false;
        }
        i = i + 1;
    }
    proof {
        assert(a@ =~= b@);
    }
    true
}

} // verus!
