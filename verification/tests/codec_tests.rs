use contribution_log::codec::{decode_log, encode_log};
use contribution_log::errors::ContributionError;
use contribution_log::state::{Contribution, LogState};

fn key(b: u8) -> Vec<u8> {
    vec![b; 32]
}

fn sample_state() -> LogState {
    let mut state = LogState::new(key(3));
    state.contributions.push(Contribution {
        contributor: key(3),
        timestamp: 42,
        code_hash: b"a".to_vec(),
    });
    state.contributions.push(Contribution {
        contributor: key(3),
        timestamp: -7,
        code_hash: vec![b'h'; 64],
    });
    state
}

#[test]
fn decode_inverts_encode() {
    let state = sample_state();
    let decoded = decode_log(&encode_log(&state)).unwrap();
    assert_eq!(decoded.authority, state.authority);
    assert_eq!(decoded.contributions.len(), state.contributions.len());
    for (d, s) in decoded.contributions.iter().zip(state.contributions.iter()) {
        assert_eq!(d.contributor, s.contributor);
        assert_eq!(d.timestamp, s.timestamp);
        assert_eq!(d.code_hash, s.code_hash);
    }
}

#[test]
fn decode_inverts_encode_of_empty_log() {
    let state = LogState::new(key(9));
    let decoded = decode_log(&encode_log(&state)).unwrap();
    assert_eq!(decoded.authority, key(9));
    assert!(decoded.contributions.is_empty());
}

#[test]
fn decode_ignores_spare_capacity_after_the_log() {
    let state = sample_state();
    let mut bytes = encode_log(&state);
    bytes.extend_from_slice(&[0xee; 100]);
    let decoded = decode_log(&bytes).unwrap();
    assert_eq!(decoded.contributions.len(), 2);
}

#[test]
fn truncated_buffers_are_corrupt() {
    assert_eq!(
        decode_log(&Vec::new()).unwrap_err(),
        ContributionError::CorruptLayout
    );
    let whole = encode_log(&sample_state());
    for cut in [1, 8, 43, 44, whole.len() - 1] {
        let part = whole[..cut].to_vec();
        assert_eq!(decode_log(&part).unwrap_err(), ContributionError::CorruptLayout);
    }
}

#[test]
fn wrong_discriminator_is_corrupt() {
    let mut bytes = encode_log(&sample_state());
    bytes[0] ^= 0xff;
    assert_eq!(decode_log(&bytes).unwrap_err(), ContributionError::CorruptLayout);
}

#[test]
fn out_of_range_hash_length_is_corrupt() {
    let state = sample_state();
    let bytes = encode_log(&state);
    // The first record's hash-length word sits right after the header
    // and the 32 + 8 fixed record bytes.
    let len_at = 44 + 40;
    let mut zeroed = bytes.clone();
    zeroed[len_at..len_at + 4].copy_from_slice(&0u32.to_le_bytes());
    assert_eq!(decode_log(&zeroed).unwrap_err(), ContributionError::CorruptLayout);
    let mut oversized = bytes.clone();
    oversized[len_at..len_at + 4].copy_from_slice(&65u32.to_le_bytes());
    assert_eq!(decode_log(&oversized).unwrap_err(), ContributionError::CorruptLayout);
}

#[test]
fn overstated_record_count_is_corrupt() {
    let mut bytes = encode_log(&sample_state());
    bytes[40..44].copy_from_slice(&3u32.to_le_bytes());
    assert_eq!(decode_log(&bytes).unwrap_err(), ContributionError::CorruptLayout);
}
