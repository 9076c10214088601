//! Deterministic vault addressing.
//!
//! A vault address is the program-derived hash of a fixed domain tag, the
//! owner's identity and a one-byte discriminant.  The canonical discriminant
//! for an owner is the largest byte whose derivation does not land in the
//! reserved output space (the set of valid curve points); it is found by
//! searching downward from the maximum.

use vstd::prelude::*;

use crate::keys::{Address, Identity};

verus! {

/// The program identifier under which all vault addresses are derived.
pub const PROGRAM_ID: [u8; 32] = [
    122, 88, 121, 247, 72, 87, 119, 201, 71, 254, 134, 151, 38, 187, 78, 45, 213, 92, 126, 206,
    235, 210, 188, 197, 199, 232, 92, 162, 141, 168, 94, 250,
];

/// The fixed domain tag ("vault") that separates this scheme from any other
/// derivation under the same program.
pub open spec fn domain_tag() -> Seq<u8> {
    seq![118u8, 97u8, 117u8, 108u8, 116u8]
}

/// What `Pubkey::create_program_address` returns for a seed list and a
/// program id: `Some` hash output, or `None` when the derivation is rejected.
/// The result is a pure function of the arguments.
pub uninterp spec fn pda_of(seeds: Seq<Seq<u8>>, program_id: Seq<u8>) -> Option<Seq<u8>>;

/// Relies on `Pubkey::create_program_address` of the host SDK: it hashes the
/// seeds, the program id and a fixed derivation marker with SHA-256, and
/// rejects the result when the hash is a valid curve point (the reserved
/// output space) or a seed breaks the SDK's length limits.  The outcome
/// depends only on the arguments, so it is named `pda_of` and nothing more
/// is assumed of it.
#[verifier::external_body]
fn pda_create(seeds: &Vec<Vec<u8>>, program_id: &[u8; 32]) -> (r: Option<[u8; 32]>)
    ensures
        (match r {
            Some(a) => pda_of(seeds.deep_view(), program_id@) == Some(a@),
            None => pda_of(seeds.deep_view(), program_id@) is None,
        }),
{
    let seed_refs: Vec<&[u8]> = seeds.iter().map(|s| s.as_slice()).collect();
    let pid = anchor_lang::solana_program::pubkey::Pubkey::new_from_array(*program_id);
    match anchor_lang::solana_program::pubkey::Pubkey::create_program_address(&seed_refs, &pid) {
        Ok(a) => Some(a.to_bytes()),
        Err(_) => None,
    }
}

/// The seed list for one (owner, discriminant) pair.
pub open spec fn vault_seeds(owner: Seq<u8>, disc: u8) -> Seq<Seq<u8>> {
    seq![domain_tag(), owner, seq![disc]]
}

/// The raw derivation for one discriminant: `None` when that discriminant is
/// not usable for this owner.
pub open spec fn raw_vault_address(owner: Seq<u8>, disc: u8) -> Option<Seq<u8>> {
    pda_of(vault_seeds(owner, disc), PROGRAM_ID@)
}

/// Whether a discriminant yields a usable address for this owner.
pub open spec fn viable(owner: Seq<u8>, disc: u8) -> bool {
    raw_vault_address(owner, disc) is Some
}

/// The downward search that picks the canonical discriminant: the first
/// usable derivation at or below `disc`.
pub open spec fn canonical_search(owner: Seq<u8>, disc: u8) -> Option<(Seq<u8>, u8)>
    decreases disc,
{
    match raw_vault_address(owner, disc) {
        Some(a) => Some((a, disc)),
        None => if disc == 0 {
            None
        } else {
            canonical_search(owner, (disc - 1) as u8)
        },
    }
}

/// The canonical derivation of an owner's vault address: the largest usable
/// discriminant, searched downward from the maximum byte.
pub open spec fn canonical_derivation(owner: Seq<u8>) -> Option<(Seq<u8>, u8)> {
    canonical_search(owner, 255)
}

/// The search result at or below `disc` is the largest usable discriminant
/// in that range, and is `None` exactly when no discriminant in the range is
/// usable.
pub proof fn lemma_canonical_search_largest(owner: Seq<u8>, disc: u8)
    ensures
        (match canonical_search(owner, disc) {
            Some(p) => p.1 <= disc && raw_vault_address(owner, p.1) == Some(p.0)
                && (forall|d2: u8| p.1 < d2 <= disc ==> !viable(owner, d2)),
            None => forall|d2: u8| d2 <= disc ==> !viable(owner, d2),
        }),
    decreases disc,
{
    if raw_vault_address(owner, disc) is Some {
    } else if disc > 0 {
        lemma_canonical_search_largest(owner, (disc - 1) as u8);
    }
}

/// The canonical discriminant is the largest usable one, and none exists
/// exactly when every discriminant is rejected for this owner.
pub proof fn lemma_canonical_derivation_largest(owner: Seq<u8>)
    ensures
        (match canonical_derivation(owner) {
            Some(p) => raw_vault_address(owner, p.1) == Some(p.0)
                && (forall|d2: u8| p.1 < d2 ==> !viable(owner, d2)),
            None => forall|d2: u8| !viable(owner, d2),
        }),
{
    lemma_canonical_search_largest(owner, 255);
}

/// The derivation is a pure function of the owner identity: repeated
/// derivations for the same identity yield the same address and the same
/// canonical discriminant.
pub proof fn lemma_derive_deterministic(user1: Identity, user2: Identity)
    requires
        user1@ == user2@,
    ensures
        canonical_derivation(user1@) == canonical_derivation(user2@),
{
}

/// Builds the executable seed list for one (owner, discriminant) pair.
fn vault_seed_vecs(user: &Identity, disc: u8) -> (r: Vec<Vec<u8>>)
    ensures
        r.deep_view() == vault_seeds(user@, disc),
{
    let tag: Vec<u8> = vec![118u8, 97u8, 117u8, 108u8, 116u8];
    let owner: Vec<u8> = vstd::slice::slice_to_vec(vstd::array::array_as_slice(&user.bytes));
    let disc_seed: Vec<u8> = vec![disc];
    let seeds = vec![tag, owner, disc_seed];
    proof {
        assert(seeds.deep_view() =~~= vault_seeds(user@, disc));
    }
    seeds
}

/// Recomputes the vault address of `user` under one claimed discriminant,
/// the verification step that binds a request to its account: comparing the
/// result to a stored address proves or refutes the claimed derivation.
pub fn vault_address_for(user: &Identity, disc: u8) -> (r: Option<Address>)
    ensures
        (match r {
            Some(a) => raw_vault_address(user@, disc) == Some(a@),
            None => raw_vault_address(user@, disc) is None,
        }),
{
    let seeds = vault_seed_vecs(user, disc);
    match pda_create(&seeds, &PROGRAM_ID) {
        Some(bytes) => Some(Address { bytes }),
        None => None,
    }
}

/// Derives the canonical vault address of `user`, searching the discriminant
/// downward from the maximum byte.  Returns `None` only when every
/// discriminant is rejected for this identity.
pub fn derive(user: &Identity) -> (r: Option<(Address, u8)>)
    ensures
        (match r {
            Some(p) => canonical_derivation(user@) == Some((p.0@, p.1)),
            None => canonical_derivation(user@) is None,
        }),
{
    let mut disc: u8 = 255;
    loop
        invariant
            canonical_derivation(user@) == canonical_search(user@, disc),
        decreases disc,
    {
        match vault_address_for(user, disc) {
            Some(a) => {
                return Some((a, disc));
            },
            None => {},
        }
        if disc == 0 {
            return None;
        }
        disc = disc - 1;
    }
}

} // verus!
