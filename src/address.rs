//! Where a history lives: its address is derived from a 32-byte seed and the
//! program's own identity.
use vstd::prelude::*;
use crate::identity::Identity;

verus! {

/// The identity of the program that owns history buffers.
pub const ACCOUNT_HISTORY_PROGRAM_ID: [u8; 32] = [
    218, 7, 92, 178, 255, 94, 198, 129, 118, 19, 222, 83, 11, 105, 42, 135,
    53, 71, 119, 105, 218, 71, 67, 12, 189, 129, 84, 51, 92, 74, 131, 39,
];

/// The program-derived address and bump seed for `seeds` under the program
/// `program_id`, if one exists.
pub uninterp spec fn program_address_of(seeds: Seq<u8>, program_id: Seq<u8>) -> Option<(Seq<u8>, u8)>;

/// Whether `r` is the derived address of `seed` under `program_id`.
pub open spec fn spec_is_program_address(r: Option<(Identity, u8)>, seed: Seq<u8>, program_id: Seq<u8>) -> bool {
    match (r, program_address_of(seed, program_id)) {
        (Some((a, b)), Some((sa, sb))) => a@ == sa && b == sb,
        (None, None) => true,
        _ => false,
    }
}

/// Relies on `solana_program::pubkey::Pubkey::try_find_program_address`,
/// which searches the bump seeds from 255 down for the first that gives an
/// address off the ed25519 curve; its result depends on the seed and the
/// program identity alone. It returns `None` where that search fails, where
/// `find_program_address` would panic.
#[verifier::external_body]
fn try_find_program_address(seed: &[u8; 32], program_id: &Identity) -> (r: Option<(Identity, u8)>)
    ensures
        match (r, program_address_of(seed@, program_id@)) {
            (Some((a, b)), Some((sa, sb))) => a@ == sa && b == sb,
            (None, None) => true,
            _ => false,
        },
{
    let program = anchor_lang::solana_program::pubkey::Pubkey::new_from_array(program_id.bytes);
    anchor_lang::solana_program::pubkey::Pubkey::try_find_program_address(&[seed.as_ref()], &program)
        .map(|(key, bump)| (Identity { bytes: key.to_bytes() }, bump))
}

/// The address of the history whose creation was seeded with `seed`, and its
/// bump seed; `None` in the improbable case that no bump seed gives an
/// address.
pub fn account_history_address(seed: [u8; 32]) -> (r: Option<(Identity, u8)>)
    ensures
        spec_is_program_address(r, seed@, ACCOUNT_HISTORY_PROGRAM_ID@),
{
    let program = Identity::new(ACCOUNT_HISTORY_PROGRAM_ID);
    try_find_program_address(&seed, &program)
}

} // verus!
