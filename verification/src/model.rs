//! The mathematical model of the log: what a record and the log state
//! are as pure values, and when they are well formed.

use vstd::prelude::*;

verus! {

/// The longest code hash, in bytes, that a record may carry.
pub const MAX_HASH_LEN: usize = 64;

/// Bytes of the log header: 8-byte discriminator, 32-byte authority
/// key, 4-byte record count.
pub const HEADER_LEN: usize = 44;

/// Bytes of a record besides its code hash: 32-byte contributor key,
/// 8-byte timestamp, 4-byte code-hash length.
pub const RECORD_FIXED_LEN: usize = 44;

/// A contribution record as a pure value: a 32-byte contributor key,
/// a platform clock value, and the UTF-8 bytes of the code hash.
#[verifier::ext_equal]
pub ghost struct RecordModel {
    pub contributor: Seq<u8>,
    pub timestamp: i64,
    pub code_hash: Seq<u8>,
}

/// The log state as a pure value: the 32-byte authority key and the
/// ordered sequence of records, oldest first.
#[verifier::ext_equal]
pub ghost struct LogModel {
    pub authority: Seq<u8>,
    pub contributions: Seq<RecordModel>,
}

/// A record is well formed when its contributor key is exactly 32 bytes
/// and its code hash holds between 1 and 64 bytes.
pub open spec fn record_wf(r: RecordModel) -> bool {
    &&& r.contributor.len() == 32
    &&& 1 <= r.code_hash.len() <= MAX_HASH_LEN
}

/// The log is well formed when its authority key is exactly 32 bytes,
/// its record count fits the 4-byte count prefix of the binary layout,
/// and every record is well formed.
pub open spec fn log_wf(m: LogModel) -> bool {
    &&& m.authority.len() == 32
    &&& m.contributions.len() <= u32::MAX
    &&& forall|i: int| 0 <= i < m.contributions.len() ==> record_wf(#[trigger] m.contributions[i])
}

/// The reachability invariant: on top of well-formedness, every record
/// was appended by the stored authority, so every contributor key
/// equals the authority key.
pub open spec fn log_inv(m: LogModel) -> bool {
    &&& log_wf(m)
    &&& forall|i: int|
        0 <= i < m.contributions.len() ==> (#[trigger] m.contributions[i]).contributor
            == m.authority
}

} // verus!
