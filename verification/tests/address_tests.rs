use contribution_log::address::find_log_address;

#[test]
fn derived_address_matches_the_platform_derivation() {
    let program_id: Vec<u8> = (0u8..32).collect();
    let (addr, bump) = find_log_address(&program_id).expect("a bump must exist");
    assert_eq!(addr.len(), 32);

    let mut pid_bytes = [0u8; 32];
    pid_bytes.copy_from_slice(&program_id);
    let pid = solana_pubkey::Pubkey::new_from_array(pid_bytes);
    let (expected, expected_bump) =
        solana_pubkey::Pubkey::find_program_address(&[b"log_state"], &pid);
    assert_eq!(addr, expected.to_bytes().to_vec());
    assert_eq!(bump, expected_bump);
}

#[test]
fn derivation_is_idempotent() {
    let program_id: Vec<u8> = vec![0x11; 32];
    let first = find_log_address(&program_id).expect("a bump must exist");
    let second = find_log_address(&program_id).expect("a bump must exist");
    assert_eq!(first, second);
}

#[test]
fn different_program_ids_derive_different_addresses() {
    let a = find_log_address(&vec![0x11; 32]).expect("a bump must exist");
    let b = find_log_address(&vec![0x22; 32]).expect("a bump must exist");
    assert_ne!(a.0, b.0);
}
