//! The vault ledger: the mapping from derived addresses to vault account
//! records, together with the externally held wallet balances the host
//! keeps, and the three operations `initialize`, `deposit` and `withdraw`.
//!
//! Every operation validates before it mutates: a failed operation returns
//! its error with the ledger exactly as it was.  Value only moves between a
//! wallet and a vault record, so the ledger's total is conserved and no
//! balance can overflow the native integer width.

use vstd::prelude::*;

use crate::addressing::{canonical_derivation, lemma_canonical_derivation_largest,
    vault_address_for};
use crate::errors::VaultError;
use crate::keys::{bytes32_eq, Address, Identity};
use crate::records::{binds, lemma_vault_at_absent, lemma_vault_at_index, lemma_vault_elem_le_sum,
    lemma_vault_for_absent, lemma_vault_for_first, lemma_vault_for_none_no_binds,
    lemma_vault_push, lemma_vault_update, lemma_wallet_absent,
    lemma_wallet_balance_at_index, lemma_wallet_elem_le_sum, lemma_wallet_push,
    lemma_wallet_update, record_canonical, sum_vaults, sum_wallets, unique_vault_addresses,
    unique_wallet_owners, vault_record_at, vault_record_for, wallet_balance_in, VaultAccount,
    Wallet};

verus! {

/// The accounts context of `initialize`: the caller, who becomes both the
/// new account's immutable authority and the payer of its storage.
pub struct Initialize {
    pub user: Identity,
}

/// The accounts context of `deposit`: the target vault account and the
/// caller whose externally held balance is the source of the value.
/// Anyone may top up any vault address; no authority applies on this side.
pub struct Deposit {
    pub vault: Address,
    pub user: Identity,
}

/// The accounts context of `withdraw`: the target vault account and the
/// caller requesting the payout, who must be the stored authority.
pub struct Withdraw {
    pub vault: Address,
    pub user: Identity,
}

/// The ledger: wallet balances as the host keeps them, and the vault
/// account records at their derived addresses.
pub struct VaultLedger {
    pub wallets: Vec<Wallet>,
    pub vaults: Vec<VaultAccount>,
}

impl VaultLedger {
    /// The ledger's invariant: unique wallet owners, unique vault
    /// addresses, every record at the canonical derivation of its
    /// authority, and a total value that fits the native integer width.
    pub open spec fn wf(self) -> bool {
        &&& unique_wallet_owners(self.wallets@)
        &&& unique_vault_addresses(self.vaults@)
        &&& (forall|k: int|
            0 <= k < self.vaults@.len() ==> record_canonical(#[trigger] self.vaults@[k]))
        &&& sum_wallets(self.wallets@) + sum_vaults(self.vaults@) <= u64::MAX
    }

    /// The externally held balance of `owner`; zero when no wallet exists.
    pub open spec fn wallet_balance(self, owner: Seq<u8>) -> nat {
        wallet_balance_in(self.wallets@, owner)
    }

    /// The vault record bound to `user` under the addressing scheme.
    pub open spec fn vault_for(self, user: Seq<u8>) -> Option<VaultAccount> {
        vault_record_for(self.vaults@, user)
    }

    /// The vault record stored at `addr`.
    pub open spec fn vault_at(self, addr: Seq<u8>) -> Option<VaultAccount> {
        vault_record_at(self.vaults@, addr)
    }

    /// All value the ledger accounts for, in wallets and vaults together.
    pub open spec fn total_value(self) -> nat {
        sum_wallets(self.wallets@) + sum_vaults(self.vaults@)
    }

    /// When `initialize` is owed success: the identity has a canonical
    /// derivation and no record occupies the derived address yet.
    pub open spec fn init_allowed(self, user: Seq<u8>) -> bool {
        match canonical_derivation(user) {
            Some(p) => self.vault_at(p.0) is None,
            None => false,
        }
    }

    /// When a withdraw by `user` from the account at `vault` passes the
    /// sole access-control gate: the account's stored authority is the
    /// caller.
    pub open spec fn withdraw_authorized(self, vault: Seq<u8>, user: Seq<u8>) -> bool {
        match self.vault_at(vault) {
            Some(rec) => rec.authority@ == user,
            None => false,
        }
    }

    /// When a withdraw of `amount` is covered by the vault's balance.
    pub open spec fn withdraw_funded(self, vault: Seq<u8>, amount: u64) -> bool {
        match self.vault_at(vault) {
            Some(rec) => rec.balance >= amount,
            None => false,
        }
    }
}

/// Both stores are exactly as they were.
pub open spec fn same_state(a: VaultLedger, b: VaultLedger) -> bool {
    a.wallets@ == b.wallets@ && a.vaults@ == b.vaults@
}

/// At one address, the record's identity-determining fields survived: the
/// record is still there (or still absent), with the same authority,
/// address and discriminant.
pub open spec fn vault_preserved_at(a: VaultLedger, b: VaultLedger, addr: Seq<u8>) -> bool {
    match (a.vault_at(addr), b.vault_at(addr)) {
        (Some(x), Some(y)) => x.authority == y.authority && x.address == y.address
            && x.canonical_discriminant == y.canonical_discriminant,
        (None, None) => true,
        _ => false,
    }
}

/// Every record's authority, address and discriminant survived; only
/// balances may differ.  `deposit` and `withdraw` guarantee this.
pub open spec fn vault_metadata_preserved(a: VaultLedger, b: VaultLedger) -> bool {
    forall|addr: Seq<u8>| #[trigger] vault_preserved_at(a, b, addr)
}

proof fn lemma_metadata_preserved_same_vaults(a: VaultLedger, b: VaultLedger)
    requires
        a.vaults@ == b.vaults@,
    ensures
        vault_metadata_preserved(a, b),
{
    assert forall|addr: Seq<u8>| #[trigger] vault_preserved_at(a, b, addr) by {
        assert(a.vault_at(addr) == b.vault_at(addr));
    }
}

/// First wallet owned by `user`, scanning from the front.
fn find_wallet(ws: &Vec<Wallet>, user: &Identity) -> (r: Option<usize>)
    ensures
        (match r {
            Some(i) => i < ws@.len() && ws@[i as int].owner@ == user@,
            None => forall|k: int| 0 <= k < ws@.len() ==> ws@[k].owner@ != user@,
        }),
{
    let mut i: usize = 0;
    while i < ws.len()
        invariant
            i <= ws@.len(),
            forall|k: int| 0 <= k < i ==> ws@[k].owner@ != user@,
        decreases ws@.len() - i,
    {
        if bytes32_eq(&ws[i].owner.bytes, &user.bytes) {
            return Some(i);
        }
        i += 1;
    }
    None
}

/// First record bound to `user`, scanning from the front.  Each candidate
/// is checked by recomputing the derivation with its stored discriminant
/// and comparing to its stored address, so no discriminant search is
/// needed.
fn find_vault_for(vs: &Vec<VaultAccount>, user: &Identity) -> (r: Option<usize>)
    ensures
        (match r {
            Some(i) => i < vs@.len() && binds(user@, vs@[i as int]) && (forall|k: int|
                0 <= k < i ==> !binds(user@, #[trigger] vs@[k])),
            None => forall|k: int| 0 <= k < vs@.len() ==> !binds(user@, #[trigger] vs@[k]),
        }),
{
    let mut i: usize = 0;
    while i < vs.len()
        invariant
            i <= vs@.len(),
            forall|k: int| 0 <= k < i ==> !binds(user@, #[trigger] vs@[k]),
        decreases vs@.len() - i,
    {
        match vault_address_for(user, vs[i].canonical_discriminant) {
            Some(a) => {
                if bytes32_eq(&a.bytes, &vs[i].address.bytes) {
                    return Some(i);
                }
            },
            None => {},
        }
        i += 1;
    }
    None
}

/// First record stored at `addr`, scanning from the front.
fn find_vault_at(vs: &Vec<VaultAccount>, addr: &Address) -> (r: Option<usize>)
    ensures
        (match r {
            Some(i) => i < vs@.len() && vs@[i as int].address@ == addr@,
            None => forall|k: int| 0 <= k < vs@.len() ==> vs@[k].address@ != addr@,
        }),
{
    let mut i: usize = 0;
    while i < vs.len()
        invariant
            i <= vs@.len(),
            forall|k: int| 0 <= k < i ==> vs@[k].address@ != addr@,
        decreases vs@.len() - i,
    {
        if bytes32_eq(&vs[i].address.bytes, &addr.bytes) {
            return Some(i);
        }
        i += 1;
    }
    None
}

impl VaultLedger {
    /// An empty ledger: no wallets, no vault accounts, no value.
    pub fn new() -> (r: VaultLedger)
        ensures
            r.wf(),
            r.wallets@.len() == 0,
            r.vaults@.len() == 0,
            r.total_value() == 0,
    {
        let l = VaultLedger { wallets: Vec::new(), vaults: Vec::new() };
        proof {
            assert(sum_wallets(l.wallets@) == 0);
            assert(sum_vaults(l.vaults@) == 0);
        }
        l
    }

    /// Credits `amount` to the caller's externally held balance: the host
    /// runtime's way of giving an identity value it can later deposit.  The
    /// bound on the ledger's total is the native integer width.
    pub fn fund(&mut self, user: &Identity, amount: u64)
        requires
            old(self).wf(),
            old(self).total_value() + amount <= u64::MAX,
        ensures
            final(self).wf(),
            final(self).wallet_balance(user@) == old(self).wallet_balance(user@) + amount,
            forall|o: Seq<u8>|
                o != user@ ==> final(self).wallet_balance(o) == old(self).wallet_balance(o),
            final(self).vaults@ == old(self).vaults@,
            final(self).total_value() == old(self).total_value() + amount,
    {
        match find_wallet(&self.wallets, user) {
            Some(i) => {
                proof {
                    lemma_wallet_balance_at_index(self.wallets@, i as int);
                    lemma_wallet_elem_le_sum(self.wallets@, i as int);
                }
                let bal = self.wallets[i].balance;
                let w2 = Wallet { owner: self.wallets[i].owner, balance: bal + amount };
                proof {
                    lemma_wallet_update(self.wallets@, i as int, w2);
                }
                self.wallets[i] = w2;
            },
            None => {
                let w = Wallet { owner: *user, balance: amount };
                proof {
                    lemma_wallet_absent(self.wallets@, user@);
                    lemma_wallet_push(self.wallets@, w);
                }
                self.wallets.push(w);
            },
        }
    }

    /// Creates the caller's vault account at its canonically derived
    /// address, with the caller as immutable authority and a zero balance.
    /// Fails with `AccountAlreadyExists` when a record already occupies
    /// that address, and with `AccountNotFound` in the (statistically
    /// negligible) case that no discriminant derives an address for this
    /// identity, so that no storage slot exists for it.
    pub fn initialize(&mut self, ctx: Initialize) -> (r: Result<(), VaultError>)
        requires
            old(self).wf(),
        ensures
            final(self).wf(),
            final(self).wallets@ == old(self).wallets@,
            final(self).total_value() == old(self).total_value(),
            r is Ok <==> old(self).init_allowed(ctx.user@),
            canonical_derivation(ctx.user@) is None ==> r == Err::<(), VaultError>(
                VaultError::AccountNotFound,
            ) && same_state(*old(self), *final(self)),
            (match canonical_derivation(ctx.user@) {
                Some(p) => {
                    if old(self).vault_at(p.0) is Some {
                        r == Err::<(), VaultError>(VaultError::AccountAlreadyExists)
                            && same_state(*old(self), *final(self))
                    } else {
                        &&& r == Ok::<(), VaultError>(())
                        &&& (match final(self).vault_at(p.0) {
                            Some(rec) => rec.address@ == p.0 && rec.authority@ == ctx.user@
                                && rec.balance == 0 && rec.canonical_discriminant == p.1,
                            None => false,
                        })
                        &&& (forall|a2: Seq<u8>|
                            a2 != p.0 ==> final(self).vault_at(a2) == old(self).vault_at(a2))
                        &&& (old(self).vault_for(ctx.user@) is None ==> (match final(self)
                            .vault_for(ctx.user@) {
                            Some(rec) => rec.address@ == p.0 && rec.authority@ == ctx.user@
                                && rec.balance == 0,
                            None => false,
                        }))
                    }
                },
                None => true,
            }),
    {
        match crate::addressing::derive(&ctx.user) {
            None => Err(VaultError::AccountNotFound),
            Some((addr, disc)) => {
                match find_vault_at(&self.vaults, &addr) {
                    Some(i) => {
                        proof {
                            lemma_vault_at_index(self.vaults@, i as int);
                        }
                        Err(VaultError::AccountAlreadyExists)
                    },
                    None => {
                        let rec = VaultAccount {
                            address: addr,
                            authority: ctx.user,
                            balance: 0,
                            canonical_discriminant: disc,
                        };
                        proof {
                            lemma_vault_at_absent(self.vaults@, addr@);
                            lemma_canonical_derivation_largest(ctx.user@);
                            lemma_vault_push(self.vaults@, rec);
                            if vault_record_for(self.vaults@, ctx.user@) is None {
                                lemma_vault_for_none_no_binds(self.vaults@, ctx.user@);
                                assert(binds(ctx.user@, rec));
                                lemma_vault_for_first(
                                    self.vaults@.push(rec),
                                    self.vaults@.len() as int,
                                    ctx.user@,
                                );
                            }
                            assert forall|k: int|
                                0 <= k < self.vaults@.push(rec).len() implies record_canonical(
                                #[trigger] self.vaults@.push(rec)[k],
                            ) by {
                                if k < self.vaults@.len() {
                                    assert(self.vaults@.push(rec)[k] == self.vaults@[k]);
                                } else {
                                    assert(self.vaults@.push(rec)[k] == rec);
                                }
                            }
                        }
                        self.vaults.push(rec);
                        Ok(())
                    },
                }
            },
        }
    }

    /// Moves `amount` from the caller's externally held balance into the
    /// vault account at `ctx.vault`.  Anyone may top up any vault address;
    /// no authority check applies on this side.  Validation order: a zero
    /// amount is `InvalidAmount`; a missing account is `AccountNotFound`;
    /// a source balance below `amount` makes the transfer collaborator
    /// reject with `TransferFailed`.
    pub fn deposit(&mut self, ctx: Deposit, amount: u64) -> (r: Result<(), VaultError>)
        requires
            old(self).wf(),
        ensures
            final(self).wf(),
            vault_metadata_preserved(*old(self), *final(self)),
            final(self).total_value() == old(self).total_value(),
            amount == 0 ==> r == Err::<(), VaultError>(VaultError::InvalidAmount) && same_state(
                *old(self),
                *final(self),
            ),
            amount > 0 && old(self).vault_at(ctx.vault@) is None ==> r == Err::<(), VaultError>(
                VaultError::AccountNotFound,
            ) && same_state(*old(self), *final(self)),
            amount > 0 && old(self).vault_at(ctx.vault@) is Some && old(self).wallet_balance(
                ctx.user@,
            ) < amount ==> r == Err::<(), VaultError>(VaultError::TransferFailed) && same_state(
                *old(self),
                *final(self),
            ),
            amount > 0 && old(self).vault_at(ctx.vault@) is Some && old(self).wallet_balance(
                ctx.user@,
            ) >= amount ==> {
                &&& r == Ok::<(), VaultError>(())
                &&& final(self).wallet_balance(ctx.user@) + amount == old(self).wallet_balance(
                    ctx.user@,
                )
                &&& (forall|o: Seq<u8>|
                    o != ctx.user@ ==> final(self).wallet_balance(o) == old(self).wallet_balance(
                        o,
                    ))
                &&& (match (old(self).vault_at(ctx.vault@), final(self).vault_at(ctx.vault@)) {
                    (Some(rec), Some(rec2)) => {
                        &&& rec2.balance == rec.balance + amount
                        &&& rec2.address == rec.address
                        &&& rec2.authority == rec.authority
                        &&& rec2.canonical_discriminant == rec.canonical_discriminant
                        &&& (forall|a2: Seq<u8>|
                            a2 != ctx.vault@ ==> final(self).vault_at(a2) == old(self).vault_at(
                                a2,
                            ))
                    },
                    _ => false,
                })
            },
    {
        if amount == 0 {
            proof {
                lemma_metadata_preserved_same_vaults(*self, *self);
            }
            return Err(VaultError::InvalidAmount);
        }
        let vi = match find_vault_at(&self.vaults, &ctx.vault) {
            None => {
                proof {
                    lemma_vault_at_absent(self.vaults@, ctx.vault@);
                    lemma_metadata_preserved_same_vaults(*self, *self);
                }
                return Err(VaultError::AccountNotFound);
            },
            Some(vi) => vi,
        };
        proof {
            lemma_vault_at_index(self.vaults@, vi as int);
        }
        let wi = match find_wallet(&self.wallets, &ctx.user) {
            None => {
                proof {
                    lemma_wallet_absent(self.wallets@, ctx.user@);
                    lemma_metadata_preserved_same_vaults(*self, *self);
                }
                return Err(VaultError::TransferFailed);
            },
            Some(wi) => wi,
        };
        proof {
            lemma_wallet_balance_at_index(self.wallets@, wi as int);
        }
        let wbal = self.wallets[wi].balance;
        if wbal < amount {
            proof {
                lemma_metadata_preserved_same_vaults(*self, *self);
            }
            return Err(VaultError::TransferFailed);
        }
        let ghost pre = *self;
        let vrec = self.vaults[vi];
        proof {
            lemma_vault_elem_le_sum(self.vaults@, vi as int);
            lemma_wallet_elem_le_sum(self.wallets@, wi as int);
        }
        let w2 = Wallet { owner: self.wallets[wi].owner, balance: wbal - amount };
        proof {
            lemma_wallet_update(self.wallets@, wi as int, w2);
        }
        self.wallets[wi] = w2;
        let v2 = VaultAccount {
            address: vrec.address,
            authority: vrec.authority,
            balance: vrec.balance + amount,
            canonical_discriminant: vrec.canonical_discriminant,
        };
        proof {
            lemma_vault_update(pre.vaults@, vi as int, v2);
        }
        self.vaults[vi] = v2;
        proof {
            assert forall|k: int| 0 <= k < self.vaults@.len() implies record_canonical(
                #[trigger] self.vaults@[k],
            ) by {
                if k == vi as int {
                    assert(record_canonical(pre.vaults@[k]));
                } else {
                    assert(self.vaults@[k] == pre.vaults@[k]);
                }
            }
            lemma_vault_at_index(pre.vaults@, vi as int);
            assert forall|addr: Seq<u8>| #[trigger] vault_preserved_at(pre, *self, addr) by {
                if addr != vrec.address@ {
                    assert(vault_record_at(self.vaults@, addr) == vault_record_at(
                        pre.vaults@,
                        addr,
                    ));
                }
            }
        }
        Ok(())
    }

    /// Moves `amount` out of the caller's vault account into the caller's
    /// externally held balance.  Validation order: a zero amount is
    /// `InvalidAmount`; a missing account is `AccountNotFound`; a caller
    /// other than the stored authority is `Unauthorized`; a vault balance
    /// below `amount` is `InsufficientFunds`.  Both halves of the move
    /// happen together or not at all.
    pub fn withdraw(&mut self, ctx: Withdraw, amount: u64) -> (r: Result<(), VaultError>)
        requires
            old(self).wf(),
        ensures
            final(self).wf(),
            vault_metadata_preserved(*old(self), *final(self)),
            final(self).total_value() == old(self).total_value(),
            amount == 0 ==> r == Err::<(), VaultError>(VaultError::InvalidAmount) && same_state(
                *old(self),
                *final(self),
            ),
            amount > 0 && old(self).vault_at(ctx.vault@) is None ==> r == Err::<(), VaultError>(
                VaultError::AccountNotFound,
            ) && same_state(*old(self), *final(self)),
            amount > 0 && old(self).vault_at(ctx.vault@) is Some && !old(
                self,
            ).withdraw_authorized(ctx.vault@, ctx.user@) ==> r == Err::<(), VaultError>(
                VaultError::Unauthorized,
            ) && same_state(*old(self), *final(self)),
            amount > 0 && old(self).withdraw_authorized(ctx.vault@, ctx.user@) && !old(
                self,
            ).withdraw_funded(ctx.vault@, amount) ==> r == Err::<(), VaultError>(
                VaultError::InsufficientFunds,
            ) && same_state(*old(self), *final(self)),
            amount > 0 && old(self).withdraw_authorized(ctx.vault@, ctx.user@) && old(
                self,
            ).withdraw_funded(ctx.vault@, amount) ==> {
                &&& r == Ok::<(), VaultError>(())
                &&& old(self).wallet_balance(ctx.user@) + amount == final(self).wallet_balance(
                    ctx.user@,
                )
                &&& (forall|o: Seq<u8>|
                    o != ctx.user@ ==> final(self).wallet_balance(o) == old(self).wallet_balance(
                        o,
                    ))
                &&& (match (old(self).vault_at(ctx.vault@), final(self).vault_at(ctx.vault@)) {
                    (Some(rec), Some(rec2)) => {
                        &&& rec2.balance + amount == rec.balance
                        &&& rec2.address == rec.address
                        &&& rec2.authority == rec.authority
                        &&& rec2.canonical_discriminant == rec.canonical_discriminant
                        &&& (forall|a2: Seq<u8>|
                            a2 != ctx.vault@ ==> final(self).vault_at(a2) == old(self).vault_at(
                                a2,
                            ))
                    },
                    _ => false,
                })
            },
    {
        if amount == 0 {
            proof {
                lemma_metadata_preserved_same_vaults(*self, *self);
            }
            return Err(VaultError::InvalidAmount);
        }
        let vi = match find_vault_at(&self.vaults, &ctx.vault) {
            None => {
                proof {
                    lemma_vault_at_absent(self.vaults@, ctx.vault@);
                    lemma_metadata_preserved_same_vaults(*self, *self);
                }
                return Err(VaultError::AccountNotFound);
            },
            Some(vi) => vi,
        };
        proof {
            lemma_vault_at_index(self.vaults@, vi as int);
        }
        let vrec = self.vaults[vi];
        if !bytes32_eq(&vrec.authority.bytes, &ctx.user.bytes) {
            proof {
                lemma_metadata_preserved_same_vaults(*self, *self);
            }
            return Err(VaultError::Unauthorized);
        }
        if vrec.balance < amount {
            proof {
                lemma_metadata_preserved_same_vaults(*self, *self);
            }
            return Err(VaultError::InsufficientFunds);
        }
        let ghost pre = *self;
        proof {
            lemma_vault_elem_le_sum(self.vaults@, vi as int);
        }
        let v2 = VaultAccount {
            address: vrec.address,
            authority: vrec.authority,
            balance: vrec.balance - amount,
            canonical_discriminant: vrec.canonical_discriminant,
        };
        proof {
            lemma_vault_update(self.vaults@, vi as int, v2);
        }
        self.vaults[vi] = v2;
        match find_wallet(&self.wallets, &ctx.user) {
            Some(wi) => {
                proof {
                    lemma_wallet_balance_at_index(self.wallets@, wi as int);
                    lemma_wallet_elem_le_sum(self.wallets@, wi as int);
                }
                let wbal = self.wallets[wi].balance;
                let w2 = Wallet { owner: self.wallets[wi].owner, balance: wbal + amount };
                proof {
                    lemma_wallet_update(self.wallets@, wi as int, w2);
                }
                self.wallets[wi] = w2;
            },
            None => {
                let w = Wallet { owner: ctx.user, balance: amount };
                proof {
                    lemma_wallet_absent(self.wallets@, ctx.user@);
                    lemma_wallet_push(self.wallets@, w);
                }
                self.wallets.push(w);
            },
        }
        proof {
            assert forall|k: int| 0 <= k < self.vaults@.len() implies record_canonical(
                #[trigger] self.vaults@[k],
            ) by {
                if k == vi as int {
                    assert(record_canonical(pre.vaults@[k]));
                } else {
                    assert(self.vaults@[k] == pre.vaults@[k]);
                }
            }
            lemma_vault_at_index(pre.vaults@, vi as int);
            assert forall|addr: Seq<u8>| #[trigger] vault_preserved_at(pre, *self, addr) by {
                if addr != vrec.address@ {
                    assert(vault_record_at(self.vaults@, addr) == vault_record_at(
                        pre.vaults@,
                        addr,
                    ));
                }
            }
        }
        Ok(())
    }

    /// Reads the balance held in the vault account bound to `user`, or
    /// `None` when no such account was initialized.
    pub fn vault_balance_of(&self, user: &Identity) -> (r: Option<u64>)
        ensures
            (match self.vault_for(user@) {
                Some(rec) => r == Some(rec.balance),
                None => r is None,
            }),
    {
        match find_vault_for(&self.vaults, user) {
            Some(i) => {
                proof {
                    lemma_vault_for_first(self.vaults@, i as int, user@);
                }
                Some(self.vaults[i].balance)
            },
            None => {
                proof {
                    lemma_vault_for_absent(self.vaults@, user@);
                }
                None
            },
        }
    }

    /// Reads the stored authority of the vault account bound to `user`, or
    /// `None` when no such account was initialized.
    pub fn authority_of(&self, user: &Identity) -> (r: Option<Identity>)
        ensures
            (match self.vault_for(user@) {
                Some(rec) => r == Some(rec.authority),
                None => r is None,
            }),
    {
        match find_vault_for(&self.vaults, user) {
            Some(i) => {
                proof {
                    lemma_vault_for_first(self.vaults@, i as int, user@);
                }
                Some(self.vaults[i].authority)
            },
            None => {
                proof {
                    lemma_vault_for_absent(self.vaults@, user@);
                }
                None
            },
        }
    }

    /// Reads the externally held balance of `user`; zero when no wallet
    /// exists.
    pub fn wallet_balance_of(&self, user: &Identity) -> (r: u64)
        requires
            self.wf(),
        ensures
            r == self.wallet_balance(user@),
    {
        match find_wallet(&self.wallets, user) {
            Some(i) => {
                proof {
                    lemma_wallet_balance_at_index(self.wallets@, i as int);
                }
                self.wallets[i].balance
            },
            None => {
                proof {
                    lemma_wallet_absent(self.wallets@, user@);
                }
                0
            },
        }
    }

    /// Reads the ledger's total value, every wallet and vault balance
    /// together: the quantity `deposit` and `withdraw` conserve.
    pub fn total_value_of(&self) -> (r: u64)
        requires
            self.wf(),
        ensures
            r == self.total_value(),
    {
        let ws = &self.wallets;
        let vs = &self.vaults;
        let mut acc: u64 = 0;
        let mut i: usize = 0;
        proof {
            assert(ws@.skip(0) =~= ws@);
        }
        while i < ws.len()
            invariant
                i <= ws@.len(),
                acc + sum_wallets(ws@.skip(i as int)) == sum_wallets(ws@),
                sum_wallets(ws@) + sum_vaults(vs@) <= u64::MAX,
            decreases ws@.len() - i,
        {
            proof {
                assert(ws@.skip(i as int)[0] == ws@[i as int]);
                assert(ws@.skip(i as int).drop_first() =~= ws@.skip(i as int + 1));
            }
            acc = acc + ws[i].balance;
            i += 1;
        }
        proof {
            assert(ws@.skip(ws@.len() as int) =~= Seq::<Wallet>::empty());
        }
        let mut j: usize = 0;
        proof {
            assert(vs@.skip(0) =~= vs@);
        }
        while j < vs.len()
            invariant
                j <= vs@.len(),
                acc == sum_wallets(ws@) + sum_vaults(vs@) - sum_vaults(vs@.skip(j as int)),
                sum_vaults(vs@.skip(j as int)) <= sum_vaults(vs@),
                sum_wallets(ws@) + sum_vaults(vs@) <= u64::MAX,
            decreases vs@.len() - j,
        {
            proof {
                assert(vs@.skip(j as int)[0] == vs@[j as int]);
                assert(vs@.skip(j as int).drop_first() =~= vs@.skip(j as int + 1));
            }
            acc = acc + vs[j].balance;
            j += 1;
        }
        proof {
            assert(vs@.skip(vs@.len() as int) =~= Seq::<VaultAccount>::empty());
        }
        acc
    }
}

} // verus!
