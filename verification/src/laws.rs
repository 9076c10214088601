//! Ledger-wide laws that relate the operations to one another, beyond what
//! each operation's own contract states.

use vstd::prelude::*;

use crate::addressing::{canonical_derivation, lemma_canonical_derivation_largest};
use crate::ledger::{vault_metadata_preserved, vault_preserved_at, VaultLedger};
use crate::records::{binds, record_canonical, VaultAccount};

verus! {

/// The verification contract of the addressing scheme: a canonical record
/// is always bound to its own authority, i.e. recomputing the derivation
/// with the stored discriminant reproduces the stored address.
pub proof fn lemma_own_record_binds(rec: VaultAccount)
    requires
        record_canonical(rec),
    ensures
        binds(rec.authority@, rec),
{
    lemma_canonical_derivation_largest(rec.authority@);
}

/// Creating a vault is not idempotent: once a record occupies the
/// canonically derived address of `user` — which is exactly what a
/// successful `initialize` leaves behind — the creation condition
/// `init_allowed` can never hold again, so a second `initialize` for the
/// same identity must return `AccountAlreadyExists`.
pub proof fn lemma_reinitialize_rejected(l: VaultLedger, user: Seq<u8>)
    requires
        (match canonical_derivation(user) {
            Some(p) => l.vault_at(p.0) is Some,
            None => false,
        }),
    ensures
        !l.init_allowed(user),
{
}

/// Metadata preservation composes: across any sequence of deposits and
/// withdraws, every record keeps the authority, address and discriminant
/// it was created with.
pub proof fn lemma_metadata_preserved_trans(a: VaultLedger, b: VaultLedger, c: VaultLedger)
    requires
        vault_metadata_preserved(a, b),
        vault_metadata_preserved(b, c),
    ensures
        vault_metadata_preserved(a, c),
{
    assert forall|addr: Seq<u8>| #[trigger] vault_preserved_at(a, c, addr) by {
        assert(vault_preserved_at(a, b, addr));
        assert(vault_preserved_at(b, c, addr));
    }
}

/// The authority read at any occupied address after a metadata-preserving
/// step is the authority read before it: no deposit or withdraw can
/// reassign an account's authority.
pub proof fn lemma_authority_immutable(a: VaultLedger, b: VaultLedger, addr: Seq<u8>)
    requires
        vault_metadata_preserved(a, b),
        a.vault_at(addr) is Some,
    ensures
        (match (a.vault_at(addr), b.vault_at(addr)) {
            (Some(x), Some(y)) => x.authority == y.authority,
            _ => false,
        }),
{
    assert(vault_preserved_at(a, b, addr));
}

} // verus!
