//! Deterministic derivation of the log's one storage address from the
//! fixed label `"log_state"`: the highest discriminator ("bump") under
//! which the platform's hash of label, bump and program id lands
//! outside the reserved key space names the slot.

use vstd::prelude::*;

verus! {

/// The address, if any, that the platform's derivation assigns to the
/// given seed, bump and program id. The derivation is a pure hash of
/// its three arguments: the same values always name the same address,
/// and `None` exactly when the hash lands on the reserved curve.
pub uninterp spec fn candidate_address(seed: Seq<u8>, bump: u8, program_id: Seq<u8>) -> Option<
    Seq<u8>,
>;

/// Relies on `solana_pubkey::Pubkey::create_program_address`: a
/// deterministic hash of the seeds and the program id, refused — with
/// no other effect — exactly when the hash is a point on the ed25519
/// curve. The requires keep the call inside the platform's seed
/// limits, under which it never panics.
#[verifier::external_body]
fn try_candidate(seed: &Vec<u8>, bump: u8, program_id: &Vec<u8>) -> (r: Option<Vec<u8>>)
    requires
        seed@.len() <= 32,
        program_id@.len() == 32,
    ensures
        (match r {
            Some(a) => a@.len() == 32 && candidate_address(seed@, bump, program_id@) == Some(a@),
            None => candidate_address(seed@, bump, program_id@) is None,
        }),
{
    let mut pid_bytes = [0u8; 32];
    pid_bytes.copy_from_slice(program_id.as_slice());
    let pid = solana_pubkey::Pubkey::new_from_array(pid_bytes);
    match solana_pubkey::Pubkey::create_program_address(&[seed.as_slice(), &[bump]], &pid) {
        Ok(a) => Some(a.to_bytes().to_vec()),
        Err(_) => None,
    }
}

/// The fixed label from which the log's address is derived.
pub open spec fn spec_log_seed() -> Seq<u8> {
    seq![108u8, 111, 103, 95, 115, 116, 97, 116, 101]
}

/// The fixed label `"log_state"` as a fresh vector of its UTF-8 bytes.
pub fn log_seed() -> (s: Vec<u8>)
    ensures
        s@ == spec_log_seed(),
{
    let mut s: Vec<u8> = Vec::new();
    s.push(108);
    s.push(111);
    s.push(103);
    s.push(95);
    s.push(115);
    s.push(116);
    s.push(97);
    s.push(116);
    s.push(101);
    proof {
        assert(s@ =~= spec_log_seed());
    }
    s
}

/// Searches the bump space from 255 downward and returns the first —
/// that is, the highest — bump whose derived address exists, with
/// that address; `None` only if every one of the 256 bumps lands on
/// the curve. Re-running the search always yields the same address,
/// since each candidate is a pure function of the label, the bump and
/// the program id.
pub fn find_log_address(program_id: &Vec<u8>) -> (r: Option<(Vec<u8>, u8)>)
    requires
        program_id@.len() == 32,
    ensures
        (match r {
            Some(pair) => {
                &&& pair.0@.len() == 32
                &&& candidate_address(spec_log_seed(), pair.1, program_id@) == Some(pair.0@)
                &&& forall|b: u8|
                    b > pair.1 ==> candidate_address(spec_log_seed(), b, program_id@) is None
            },
            None => forall|b: u8| candidate_address(spec_log_seed(), b, program_id@) is None,
        }),
{
    let seed = log_seed();
    let mut bump: u8 = 255;
    loop
        invariant
            seed@ == spec_log_seed(),
            program_id@.len() == 32,
            forall|b: u8| b > bump ==> candidate_address(spec_log_seed(), b, program_id@) is None,
        decreases bump,
    {
        match try_candidate(&seed, bump, program_id) {
            Some(addr) => {
                return Some((addr, bump));
            },
            None => {},
        }
        if bump == 0 {
            return None;
        }
        bump = bump - 1;
    }
}

} // verus!
