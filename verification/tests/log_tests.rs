use contribution_log::account::StorageSlot;
use contribution_log::codec::{decode_log, encode_log};
use contribution_log::errors::ContributionError;
use contribution_log::protocol::{initialize, log_contribution};
use contribution_log::state::{check_authority, Contribution, LogState};

fn key(b: u8) -> Vec<u8> {
    vec![b; 32]
}

fn fresh_log(authority: u8) -> (StorageSlot, Vec<u8>) {
    let caller = key(authority);
    let mut slot = StorageSlot::empty();
    assert!(initialize(&mut slot, &caller).is_ok());
    (slot, caller)
}

#[test]
fn initialize_sets_authority_and_empty_log() {
    let caller = key(7);
    let mut slot = StorageSlot::empty();
    let r = initialize(&mut slot, &caller);
    assert!(r.is_ok());
    let state = decode_log(&slot.data).unwrap();
    assert_eq!(state.authority, caller);
    assert_eq!(state.contributions.len(), 0);
}

#[test]
fn initialize_twice_fails_and_keeps_state() {
    let (mut slot, caller) = fresh_log(7);
    let before = slot.data.clone();
    let r = initialize(&mut slot, &caller);
    assert_eq!(r, Err(ContributionError::AlreadyInitialized));
    assert_eq!(slot.data, before);

    let other = key(9);
    let r2 = initialize(&mut slot, &other);
    assert_eq!(r2, Err(ContributionError::AlreadyInitialized));
    assert_eq!(slot.data, before);
}

#[test]
fn empty_code_hash_is_rejected_unchanged() {
    let (mut slot, caller) = fresh_log(1);
    let before = slot.data.clone();
    let mut funds: u64 = 1_000_000;
    let r = log_contribution(&mut slot, &caller, Vec::new(), 5, &mut funds, 1);
    assert_eq!(r, Err(ContributionError::EmptyCodeHash));
    assert_eq!(slot.data, before);
    assert_eq!(funds, 1_000_000);
}

#[test]
fn overlong_code_hash_is_rejected_unchanged() {
    let (mut slot, caller) = fresh_log(1);
    let before = slot.data.clone();
    let mut funds: u64 = 1_000_000;
    let r = log_contribution(&mut slot, &caller, vec![b'y'; 65], 5, &mut funds, 1);
    assert_eq!(r, Err(ContributionError::CodeHashTooLong));
    assert_eq!(slot.data, before);
    assert_eq!(funds, 1_000_000);
    let r64 = log_contribution(&mut slot, &caller, vec![b'y'; 64], 5, &mut funds, 1);
    assert!(r64.is_ok());
}

#[test]
fn wrong_signer_is_rejected_unchanged() {
    let (mut slot, _caller) = fresh_log(1);
    let before = slot.data.clone();
    let mut funds: u64 = 1_000_000;
    let intruder = key(2);
    let r = log_contribution(&mut slot, &intruder, b"abc123".to_vec(), 5, &mut funds, 1);
    assert_eq!(r, Err(ContributionError::AuthorityMismatch));
    assert_eq!(slot.data, before);
    assert_eq!(funds, 1_000_000);
}

#[test]
fn successful_append_is_a_tail_insert() {
    let (mut slot, caller) = fresh_log(1);
    let mut funds: u64 = 1_000_000;
    assert!(log_contribution(&mut slot, &caller, b"first".to_vec(), 10, &mut funds, 1).is_ok());
    assert!(log_contribution(&mut slot, &caller, b"second".to_vec(), 20, &mut funds, 1).is_ok());
    let state = decode_log(&slot.data).unwrap();
    assert_eq!(state.contributions.len(), 2);
    assert_eq!(state.contributions[0].code_hash, b"first".to_vec());
    assert_eq!(state.contributions[0].timestamp, 10);
    assert_eq!(state.contributions[0].contributor, caller);
    assert_eq!(state.contributions[1].code_hash, b"second".to_vec());
    assert_eq!(state.contributions[1].timestamp, 20);
    assert_eq!(state.contributions[1].contributor, caller);
}

#[test]
fn append_cost_is_charged_per_new_byte() {
    let (mut slot, caller) = fresh_log(1);
    let mut funds: u64 = 1_000;
    let before_len = slot.data.len();
    assert!(log_contribution(&mut slot, &caller, b"ab".to_vec(), 0, &mut funds, 2).is_ok());
    // One record costs 44 fixed bytes plus 2 hash bytes, at 2 per byte.
    assert_eq!(slot.data.len(), before_len + 46);
    assert_eq!(funds, 1_000 - 92);
}

#[test]
fn unaffordable_growth_is_rejected_unchanged() {
    let (mut slot, caller) = fresh_log(1);
    let before = slot.data.clone();
    let mut funds: u64 = 10;
    let r = log_contribution(&mut slot, &caller, b"abc123".to_vec(), 5, &mut funds, 1);
    assert_eq!(r, Err(ContributionError::InsufficientFunds));
    assert_eq!(slot.data, before);
    assert_eq!(funds, 10);
}

#[test]
fn scenario_initialize_then_appends_and_failures() {
    let a = key(0xaa);
    let b = key(0xbb);
    let mut slot = StorageSlot::empty();
    assert!(initialize(&mut slot, &a).is_ok());
    let state = decode_log(&slot.data).unwrap();
    assert_eq!(state.authority, a);
    assert!(state.contributions.is_empty());

    let mut funds: u64 = 1_000_000;
    let t1: i64 = 1_700_000_000;
    assert!(log_contribution(&mut slot, &a, b"abc123".to_vec(), t1, &mut funds, 1).is_ok());
    let state = decode_log(&slot.data).unwrap();
    assert_eq!(state.contributions.len(), 1);
    assert_eq!(state.contributions[0].contributor, a);
    assert_eq!(state.contributions[0].timestamp, t1);
    assert_eq!(state.contributions[0].code_hash, b"abc123".to_vec());

    let r = log_contribution(&mut slot, &b, b"xyz".to_vec(), t1 + 1, &mut funds, 1);
    assert_eq!(r, Err(ContributionError::AuthorityMismatch));
    assert_eq!(decode_log(&slot.data).unwrap().contributions.len(), 1);

    let r = log_contribution(&mut slot, &a, Vec::new(), t1 + 2, &mut funds, 1);
    assert_eq!(r, Err(ContributionError::EmptyCodeHash));
    assert_eq!(decode_log(&slot.data).unwrap().contributions.len(), 1);

    let r = log_contribution(&mut slot, &a, vec![b'y'; 65], t1 + 3, &mut funds, 1);
    assert_eq!(r, Err(ContributionError::CodeHashTooLong));
    assert_eq!(decode_log(&slot.data).unwrap().contributions.len(), 1);
}

#[test]
fn authority_gate_is_pure_equality() {
    let state = LogState::new(key(5));
    assert!(check_authority(&state, &key(5)).is_ok());
    assert_eq!(
        check_authority(&state, &key(6)),
        Err(ContributionError::AuthorityMismatch)
    );
}

#[test]
fn new_space_counts_true_encoded_bytes() {
    let mut state = LogState::new(key(5));
    // Header is 44 bytes; one incoming record adds 44 fixed + 6 hash bytes.
    assert_eq!(state.new_space(6), 94);
    state.contributions.push(Contribution {
        contributor: key(5),
        timestamp: 1,
        code_hash: b"ab".to_vec(),
    });
    // 44 header + (44 + 2) existing + (44 + 6) incoming.
    assert_eq!(state.new_space(6), 140);
}

#[test]
fn error_messages_name_each_failure() {
    assert!(ContributionError::EmptyCodeHash.message().contains("empty"));
    assert!(ContributionError::CodeHashTooLong.message().contains("64"));
    assert!(ContributionError::AuthorityMismatch.message().contains("authority"));
    assert!(ContributionError::AlreadyInitialized.message().contains("initialized"));
    assert!(ContributionError::InsufficientFunds.message().contains("cover"));
    assert!(ContributionError::CorruptLayout.message().contains("well-formed"));
}

#[test]
fn encode_has_the_documented_layout() {
    let mut state = LogState::new(key(2));
    state.contributions.push(Contribution {
        contributor: key(2),
        timestamp: -2,
        code_hash: b"ab".to_vec(),
    });
    let bytes = encode_log(&state);
    let mut expected: Vec<u8> = Vec::new();
    expected.extend_from_slice(b"LOGSTATE");
    expected.extend_from_slice(&[2u8; 32]);
    expected.extend_from_slice(&1u32.to_le_bytes());
    expected.extend_from_slice(&[2u8; 32]);
    expected.extend_from_slice(&(-2i64).to_le_bytes());
    expected.extend_from_slice(&2u32.to_le_bytes());
    expected.extend_from_slice(b"ab");
    assert_eq!(bytes, expected);
}
