//! Record-level model of the ledger's two stores: the externally held
//! wallet balances and the vault account records.
//!
//! Both stores are sequences with unique keys.  The spec functions here read
//! a store by key (first match from the front, the order the executable
//! scans use), and the lemmas say how a single update or append changes
//! those readings and the stores' value sums.

use vstd::prelude::*;

use crate::addressing::{canonical_derivation, raw_vault_address};
use crate::keys::{Address, Identity};

verus! {

/// One externally held balance, as the host ledger sees it.
#[derive(Clone, Copy, Debug)]
pub struct Wallet {
    pub owner: Identity,
    pub balance: u64,
}

/// One vault account: a record at a derived address, bound to its immutable
/// authority, holding a non-negative balance.
#[derive(Clone, Copy, Debug)]
pub struct VaultAccount {
    /// The derived storage location; never chosen by a caller.
    pub address: Address,
    /// The identity permitted to withdraw; set once at creation.
    pub authority: Identity,
    /// The native value held by this account.
    pub balance: u64,
    /// The discriminant that produced `address` for `authority`, stored so
    /// later operations can recompute the address without re-searching.
    pub canonical_discriminant: u8,
}

/// The externally held balance of `owner`; zero when no wallet exists.
pub open spec fn wallet_balance_in(ws: Seq<Wallet>, owner: Seq<u8>) -> nat
    decreases ws.len(),
{
    if ws.len() == 0 {
        0
    } else if ws[0].owner@ == owner {
        ws[0].balance as nat
    } else {
        wallet_balance_in(ws.drop_first(), owner)
    }
}

/// No two wallets share an owner.
pub open spec fn unique_wallet_owners(ws: Seq<Wallet>) -> bool {
    forall|i: int, j: int| 0 <= i < j < ws.len() ==> ws[i].owner@ != ws[j].owner@
}

/// The total of all externally held balances.
pub open spec fn sum_wallets(ws: Seq<Wallet>) -> nat
    decreases ws.len(),
{
    if ws.len() == 0 {
        0
    } else {
        ws[0].balance as nat + sum_wallets(ws.drop_first())
    }
}

/// Whether a stored record is bound to `user` under the addressing scheme:
/// recomputing the derivation with the record's stored discriminant must
/// reproduce the record's address.
pub open spec fn binds(user: Seq<u8>, rec: VaultAccount) -> bool {
    raw_vault_address(user, rec.canonical_discriminant) == Some(rec.address@)
}

/// The first record bound to `user`, if any.
pub open spec fn vault_record_for(vs: Seq<VaultAccount>, user: Seq<u8>) -> Option<VaultAccount>
    decreases vs.len(),
{
    if vs.len() == 0 {
        None
    } else if binds(user, vs[0]) {
        Some(vs[0])
    } else {
        vault_record_for(vs.drop_first(), user)
    }
}

/// The record stored at `addr`, if any.
pub open spec fn vault_record_at(vs: Seq<VaultAccount>, addr: Seq<u8>) -> Option<VaultAccount>
    decreases vs.len(),
{
    if vs.len() == 0 {
        None
    } else if vs[0].address@ == addr {
        Some(vs[0])
    } else {
        vault_record_at(vs.drop_first(), addr)
    }
}

/// No two vault records share an address.
pub open spec fn unique_vault_addresses(vs: Seq<VaultAccount>) -> bool {
    forall|i: int, j: int| 0 <= i < j < vs.len() ==> vs[i].address@ != vs[j].address@
}

/// The record's stored address and discriminant are exactly the canonical
/// derivation of its authority.
pub open spec fn record_canonical(rec: VaultAccount) -> bool {
    canonical_derivation(rec.authority@) == Some((rec.address@, rec.canonical_discriminant))
}

/// The total of all vault balances.
pub open spec fn sum_vaults(vs: Seq<VaultAccount>) -> nat
    decreases vs.len(),
{
    if vs.len() == 0 {
        0
    } else {
        vs[0].balance as nat + sum_vaults(vs.drop_first())
    }
}

proof fn lemma_unique_wallets_tail(ws: Seq<Wallet>)
    requires
        unique_wallet_owners(ws),
        ws.len() > 0,
    ensures
        unique_wallet_owners(ws.drop_first()),
{
    let tail = ws.drop_first();
    assert forall|a: int, b: int| 0 <= a < b < tail.len() implies tail[a].owner@ != tail[b].owner@ by {
        assert(tail[a] == ws[a + 1]);
        assert(tail[b] == ws[b + 1]);
    }
}

proof fn lemma_unique_vaults_tail(vs: Seq<VaultAccount>)
    requires
        unique_vault_addresses(vs),
        vs.len() > 0,
    ensures
        unique_vault_addresses(vs.drop_first()),
{
    let tail = vs.drop_first();
    assert forall|a: int, b: int| 0 <= a < b < tail.len() implies tail[a].address@ != tail[b].address@ by {
        assert(tail[a] == vs[a + 1]);
        assert(tail[b] == vs[b + 1]);
    }
}

/// Reading the store at the owner of entry `i` yields that entry's balance.
pub proof fn lemma_wallet_balance_at_index(ws: Seq<Wallet>, i: int)
    requires
        unique_wallet_owners(ws),
        0 <= i < ws.len(),
    ensures
        wallet_balance_in(ws, ws[i].owner@) == ws[i].balance,
    decreases i,
{
    if i > 0 {
        lemma_unique_wallets_tail(ws);
        lemma_wallet_balance_at_index(ws.drop_first(), i - 1);
        assert(ws.drop_first()[i - 1] == ws[i]);
        assert(ws[0].owner@ != ws[i].owner@);
    }
}

/// An owner with no wallet reads a zero balance.
pub proof fn lemma_wallet_absent(ws: Seq<Wallet>, owner: Seq<u8>)
    requires
        forall|k: int| 0 <= k < ws.len() ==> ws[k].owner@ != owner,
    ensures
        wallet_balance_in(ws, owner) == 0,
    decreases ws.len(),
{
    if ws.len() > 0 {
        let tail = ws.drop_first();
        assert forall|k: int| 0 <= k < tail.len() implies tail[k].owner@ != owner by {
            assert(tail[k] == ws[k + 1]);
        }
        lemma_wallet_absent(tail, owner);
    }
}

/// One entry's balance never exceeds the store's sum.
pub proof fn lemma_wallet_elem_le_sum(ws: Seq<Wallet>, i: int)
    requires
        0 <= i < ws.len(),
    ensures
        ws[i].balance <= sum_wallets(ws),
    decreases i,
{
    if i > 0 {
        lemma_wallet_elem_le_sum(ws.drop_first(), i - 1);
        assert(ws.drop_first()[i - 1] == ws[i]);
    }
}

/// Replacing entry `i` by one with the same owner changes only that owner's
/// reading, and moves the sum by the balance difference.
pub proof fn lemma_wallet_update(ws: Seq<Wallet>, i: int, w2: Wallet)
    requires
        unique_wallet_owners(ws),
        0 <= i < ws.len(),
        w2.owner@ == ws[i].owner@,
    ensures
        unique_wallet_owners(ws.update(i, w2)),
        wallet_balance_in(ws.update(i, w2), w2.owner@) == w2.balance,
        forall|o: Seq<u8>|
            o != w2.owner@ ==> wallet_balance_in(ws.update(i, w2), o) == wallet_balance_in(ws, o),
        sum_wallets(ws.update(i, w2)) + ws[i].balance == sum_wallets(ws) + w2.balance,
    decreases ws.len(),
{
    let ws2 = ws.update(i, w2);
    assert forall|a: int, b: int| 0 <= a < b < ws2.len() implies ws2[a].owner@ != ws2[b].owner@ by {
        assert(ws2[a].owner@ == ws[a].owner@);
        assert(ws2[b].owner@ == ws[b].owner@);
    }
    if i == 0 {
        assert(ws2.drop_first() =~= ws.drop_first());
    } else {
        assert(ws2[0] == ws[0]);
        assert(ws2.drop_first() =~= ws.drop_first().update(i - 1, w2));
        lemma_unique_wallets_tail(ws);
        assert(ws.drop_first()[i - 1] == ws[i]);
        lemma_wallet_update(ws.drop_first(), i - 1, w2);
        assert(ws[0].owner@ != w2.owner@);
        assert forall|o: Seq<u8>| o != w2.owner@ implies wallet_balance_in(ws2, o)
            == wallet_balance_in(ws, o) by {
            if ws[0].owner@ != o {
                assert(wallet_balance_in(ws2.drop_first(), o) == wallet_balance_in(
                    ws.drop_first(),
                    o,
                ));
            }
        }
    }
}

/// Appending a wallet for a new owner adds its balance to the sum and leaves
/// every other owner's reading unchanged.
pub proof fn lemma_wallet_push(ws: Seq<Wallet>, w: Wallet)
    requires
        unique_wallet_owners(ws),
        forall|k: int| 0 <= k < ws.len() ==> ws[k].owner@ != w.owner@,
    ensures
        unique_wallet_owners(ws.push(w)),
        wallet_balance_in(ws.push(w), w.owner@) == w.balance,
        forall|o: Seq<u8>|
            o != w.owner@ ==> wallet_balance_in(ws.push(w), o) == wallet_balance_in(ws, o),
        sum_wallets(ws.push(w)) == sum_wallets(ws) + w.balance,
    decreases ws.len(),
{
    let ws2 = ws.push(w);
    assert forall|a: int, b: int| 0 <= a < b < ws2.len() implies ws2[a].owner@ != ws2[b].owner@ by {
        if b < ws.len() {
        } else {
            assert(ws2[a].owner@ == ws[a].owner@);
            assert(ws2[b] == w);
        }
    }
    if ws.len() == 0 {
        assert(ws2[0] == w);
        assert(ws2.drop_first() =~= Seq::<Wallet>::empty());
        assert(sum_wallets(ws2.drop_first()) == 0);
        assert(sum_wallets(ws2) == w.balance);
        assert forall|o: Seq<u8>| o != w.owner@ implies wallet_balance_in(ws2, o)
            == wallet_balance_in(ws, o) by {
            assert(wallet_balance_in(ws2.drop_first(), o) == 0);
        }
    } else {
        assert(ws2[0] == ws[0]);
        assert(ws2.drop_first() =~= ws.drop_first().push(w));
        lemma_unique_wallets_tail(ws);
        assert forall|k: int| 0 <= k < ws.drop_first().len() implies ws.drop_first()[k].owner@
            != w.owner@ by {
            assert(ws.drop_first()[k] == ws[k + 1]);
        }
        lemma_wallet_push(ws.drop_first(), w);
        assert(ws[0].owner@ != w.owner@);
        assert forall|o: Seq<u8>| o != w.owner@ implies wallet_balance_in(ws2, o)
            == wallet_balance_in(ws, o) by {
            if ws[0].owner@ != o {
                assert(wallet_balance_in(ws2.drop_first(), o) == wallet_balance_in(
                    ws.drop_first(),
                    o,
                ));
            }
        }
    }
}

/// Reading the store at the address of entry `i` yields that entry.
pub proof fn lemma_vault_at_index(vs: Seq<VaultAccount>, i: int)
    requires
        unique_vault_addresses(vs),
        0 <= i < vs.len(),
    ensures
        vault_record_at(vs, vs[i].address@) == Some(vs[i]),
    decreases i,
{
    if i > 0 {
        lemma_unique_vaults_tail(vs);
        lemma_vault_at_index(vs.drop_first(), i - 1);
        assert(vs.drop_first()[i - 1] == vs[i]);
        assert(vs[0].address@ != vs[i].address@);
    }
}

/// An address held by no entry reads as unoccupied.
pub proof fn lemma_vault_at_absent(vs: Seq<VaultAccount>, addr: Seq<u8>)
    requires
        forall|k: int| 0 <= k < vs.len() ==> vs[k].address@ != addr,
    ensures
        vault_record_at(vs, addr) is None,
    decreases vs.len(),
{
    if vs.len() > 0 {
        let tail = vs.drop_first();
        assert forall|k: int| 0 <= k < tail.len() implies tail[k].address@ != addr by {
            assert(tail[k] == vs[k + 1]);
        }
        lemma_vault_at_absent(tail, addr);
    }
}

/// When entry `i` is the first one bound to `user`, the reading for `user`
/// is that entry.
pub proof fn lemma_vault_for_first(vs: Seq<VaultAccount>, i: int, user: Seq<u8>)
    requires
        0 <= i < vs.len(),
        binds(user, vs[i]),
        forall|k: int| 0 <= k < i ==> !binds(user, #[trigger] vs[k]),
    ensures
        vault_record_for(vs, user) == Some(vs[i]),
    decreases i,
{
    if i > 0 {
        let tail = vs.drop_first();
        assert(tail[i - 1] == vs[i]);
        assert forall|k: int| 0 <= k < i - 1 implies !binds(user, #[trigger] tail[k]) by {
            assert(tail[k] == vs[k + 1]);
        }
        lemma_vault_for_first(tail, i - 1, user);
        assert(!binds(user, vs[0]));
    }
}

/// When no entry is bound to `user`, the reading for `user` is empty.
pub proof fn lemma_vault_for_absent(vs: Seq<VaultAccount>, user: Seq<u8>)
    requires
        forall|k: int| 0 <= k < vs.len() ==> !binds(user, #[trigger] vs[k]),
    ensures
        vault_record_for(vs, user) is None,
    decreases vs.len(),
{
    if vs.len() > 0 {
        let tail = vs.drop_first();
        assert forall|k: int| 0 <= k < tail.len() implies !binds(user, #[trigger] tail[k]) by {
            assert(tail[k] == vs[k + 1]);
        }
        lemma_vault_for_absent(tail, user);
    }
}

/// The converse: an empty reading for `user` means no entry is bound to it.
pub proof fn lemma_vault_for_none_no_binds(vs: Seq<VaultAccount>, user: Seq<u8>)
    requires
        vault_record_for(vs, user) is None,
    ensures
        forall|k: int| 0 <= k < vs.len() ==> !binds(user, #[trigger] vs[k]),
    decreases vs.len(),
{
    if vs.len() > 0 {
        let tail = vs.drop_first();
        lemma_vault_for_none_no_binds(tail, user);
        assert forall|k: int| 0 <= k < vs.len() implies !binds(user, #[trigger] vs[k]) by {
            if k > 0 {
                assert(tail[k - 1] == vs[k]);
            }
        }
    }
}

/// One entry's balance never exceeds the store's sum.
pub proof fn lemma_vault_elem_le_sum(vs: Seq<VaultAccount>, i: int)
    requires
        0 <= i < vs.len(),
    ensures
        vs[i].balance <= sum_vaults(vs),
    decreases i,
{
    if i > 0 {
        lemma_vault_elem_le_sum(vs.drop_first(), i - 1);
        assert(vs.drop_first()[i - 1] == vs[i]);
    }
}

/// Replacing entry `i` by one that differs only in balance changes only the
/// reading at its address, and moves the sum by the balance difference.
pub proof fn lemma_vault_update(vs: Seq<VaultAccount>, i: int, r2: VaultAccount)
    requires
        unique_vault_addresses(vs),
        0 <= i < vs.len(),
        r2.address == vs[i].address,
        r2.authority == vs[i].authority,
        r2.canonical_discriminant == vs[i].canonical_discriminant,
    ensures
        unique_vault_addresses(vs.update(i, r2)),
        vault_record_at(vs.update(i, r2), r2.address@) == Some(r2),
        forall|a2: Seq<u8>|
            a2 != r2.address@ ==> vault_record_at(vs.update(i, r2), a2) == vault_record_at(
                vs,
                a2,
            ),
        sum_vaults(vs.update(i, r2)) + vs[i].balance == sum_vaults(vs) + r2.balance,
    decreases vs.len(),
{
    let vs2 = vs.update(i, r2);
    assert forall|a: int, b: int| 0 <= a < b < vs2.len() implies vs2[a].address@
        != vs2[b].address@ by {
        assert(vs2[a].address@ == vs[a].address@);
        assert(vs2[b].address@ == vs[b].address@);
    }
    if i == 0 {
        assert(vs2.drop_first() =~= vs.drop_first());
    } else {
        assert(vs2[0] == vs[0]);
        assert(vs2.drop_first() =~= vs.drop_first().update(i - 1, r2));
        lemma_unique_vaults_tail(vs);
        assert(vs.drop_first()[i - 1] == vs[i]);
        lemma_vault_update(vs.drop_first(), i - 1, r2);
        assert(vs[0].address@ != r2.address@);
        assert forall|a2: Seq<u8>| a2 != r2.address@ implies vault_record_at(vs2, a2)
            == vault_record_at(vs, a2) by {
            if vs[0].address@ != a2 {
                assert(vault_record_at(vs2.drop_first(), a2) == vault_record_at(
                    vs.drop_first(),
                    a2,
                ));
            }
        }
    }
}

/// Appending a record at a fresh address adds its balance to the sum and
/// leaves the reading at every other address unchanged.
pub proof fn lemma_vault_push(vs: Seq<VaultAccount>, r: VaultAccount)
    requires
        unique_vault_addresses(vs),
        forall|k: int| 0 <= k < vs.len() ==> vs[k].address@ != r.address@,
    ensures
        unique_vault_addresses(vs.push(r)),
        vault_record_at(vs.push(r), r.address@) == Some(r),
        forall|a2: Seq<u8>|
            a2 != r.address@ ==> vault_record_at(vs.push(r), a2) == vault_record_at(vs, a2),
        sum_vaults(vs.push(r)) == sum_vaults(vs) + r.balance,
    decreases vs.len(),
{
    let vs2 = vs.push(r);
    assert forall|a: int, b: int| 0 <= a < b < vs2.len() implies vs2[a].address@
        != vs2[b].address@ by {
        if b < vs.len() {
        } else {
            assert(vs2[a].address@ == vs[a].address@);
            assert(vs2[b] == r);
        }
    }
    if vs.len() == 0 {
        assert(vs2[0] == r);
        assert(vs2.drop_first() =~= Seq::<VaultAccount>::empty());
        assert(sum_vaults(vs2.drop_first()) == 0);
        assert(sum_vaults(vs2) == r.balance);
        assert forall|a2: Seq<u8>| a2 != r.address@ implies vault_record_at(vs2, a2)
            == vault_record_at(vs, a2) by {
            assert(vault_record_at(vs2.drop_first(), a2) is None);
        }
    } else {
        assert(vs2[0] == vs[0]);
        assert(vs2.drop_first() =~= vs.drop_first().push(r));
        lemma_unique_vaults_tail(vs);
        assert forall|k: int| 0 <= k < vs.drop_first().len() implies vs.drop_first()[k].address@
            != r.address@ by {
            assert(vs.drop_first()[k] == vs[k + 1]);
        }
        lemma_vault_push(vs.drop_first(), r);
        assert(vs[0].address@ != r.address@);
        assert forall|a2: Seq<u8>| a2 != r.address@ implies vault_record_at(vs2, a2)
            == vault_record_at(vs, a2) by {
            if vs[0].address@ != a2 {
                assert(vault_record_at(vs2.drop_first(), a2) == vault_record_at(
                    vs.drop_first(),
                    a2,
                ));
            }
        }
    }
}

} // verus!
