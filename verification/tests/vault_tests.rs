use vault::addressing::PROGRAM_ID;
use anchor_lang::solana_program::pubkey::Pubkey;
use vault::{Deposit, Identity, Initialize, VaultError, VaultLedger, Withdraw};

fn id(n: u8) -> Identity {
    Identity { bytes: [n; 32] }
}

fn vault_address(user: &Identity) -> vault::Address {
    vault::addressing::derive(user).expect("no canonical discriminant").0
}

#[test]
fn scenario_full_lifecycle() {
    let alice = id(1);
    let bob = id(2);
    let mut l = VaultLedger::new();
    l.fund(&alice, 1_000);

    assert_eq!(l.initialize(Initialize { user: alice }), Ok(()));
    assert_eq!(l.vault_balance_of(&alice), Some(0));

    let a_vault = vault_address(&alice);
    assert_eq!(l.deposit(Deposit { vault: a_vault, user: alice }, 100), Ok(()));
    assert_eq!(l.vault_balance_of(&alice), Some(100));

    assert_eq!(
        l.withdraw(Withdraw { vault: a_vault, user: bob }, 50),
        Err(VaultError::Unauthorized)
    );
    assert_eq!(l.vault_balance_of(&alice), Some(100));

    assert_eq!(
        l.withdraw(Withdraw { vault: a_vault, user: alice }, 150),
        Err(VaultError::InsufficientFunds)
    );
    assert_eq!(l.vault_balance_of(&alice), Some(100));

    assert_eq!(l.withdraw(Withdraw { vault: a_vault, user: alice }, 100), Ok(()));
    assert_eq!(l.vault_balance_of(&alice), Some(0));
}

#[test]
fn deposit_before_initialize_fails() {
    let alice = id(1);
    let mut l = VaultLedger::new();
    l.fund(&alice, 100);
    let a_vault = vault_address(&alice);
    assert_eq!(
        l.deposit(Deposit { vault: a_vault, user: alice }, 10),
        Err(VaultError::AccountNotFound)
    );
}

#[test]
fn deposit_zero_fails() {
    let alice = id(1);
    let mut l = VaultLedger::new();
    l.fund(&alice, 100);
    assert_eq!(l.initialize(Initialize { user: alice }), Ok(()));
    let a_vault = vault_address(&alice);
    assert_eq!(
        l.deposit(Deposit { vault: a_vault, user: alice }, 0),
        Err(VaultError::InvalidAmount)
    );
    assert_eq!(l.vault_balance_of(&alice), Some(0));
    assert_eq!(l.wallet_balance_of(&alice), 100);
}

#[test]
fn withdraw_zero_fails() {
    let alice = id(1);
    let mut l = VaultLedger::new();
    assert_eq!(l.initialize(Initialize { user: alice }), Ok(()));
    let a_vault = vault_address(&alice);
    assert_eq!(
        l.withdraw(Withdraw { vault: a_vault, user: alice }, 0),
        Err(VaultError::InvalidAmount)
    );
}

#[test]
fn withdraw_from_missing_account_fails() {
    let alice = id(1);
    let mut l = VaultLedger::new();
    let a_vault = vault_address(&alice);
    assert_eq!(
        l.withdraw(Withdraw { vault: a_vault, user: alice }, 5),
        Err(VaultError::AccountNotFound)
    );
}

#[test]
fn deposit_without_funds_fails() {
    let alice = id(1);
    let mut l = VaultLedger::new();
    assert_eq!(l.initialize(Initialize { user: alice }), Ok(()));
    let a_vault = vault_address(&alice);
    assert_eq!(
        l.deposit(Deposit { vault: a_vault, user: alice }, 10),
        Err(VaultError::TransferFailed)
    );
    let mut poor = VaultLedger::new();
    poor.fund(&alice, 9);
    assert_eq!(poor.initialize(Initialize { user: alice }), Ok(()));
    assert_eq!(
        poor.deposit(Deposit { vault: a_vault, user: alice }, 10),
        Err(VaultError::TransferFailed)
    );
    assert_eq!(poor.wallet_balance_of(&alice), 9);
    assert_eq!(poor.vault_balance_of(&alice), Some(0));
}

#[test]
fn reinitialize_rejected() {
    let alice = id(1);
    let mut l = VaultLedger::new();
    assert_eq!(l.initialize(Initialize { user: alice }), Ok(()));
    assert_eq!(
        l.initialize(Initialize { user: alice }),
        Err(VaultError::AccountAlreadyExists)
    );
    assert_eq!(l.vault_balance_of(&alice), Some(0));
}

#[test]
fn derivation_is_deterministic() {
    let alice = id(7);
    let first = vault::addressing::derive(&alice).expect("no canonical discriminant");
    let second = vault::addressing::derive(&alice).expect("no canonical discriminant");
    assert_eq!(first.0, second.0);
    assert_eq!(first.1, second.1);
}

#[test]
fn derivation_matches_host_sdk_search() {
    let user = id(42);
    let (addr, disc) = vault::addressing::derive(&user).expect("no canonical discriminant");
    let pid = Pubkey::new_from_array(PROGRAM_ID);
    let (expected, bump) = Pubkey::find_program_address(&[b"vault", &user.bytes], &pid);
    assert_eq!(addr.bytes, expected.to_bytes());
    assert_eq!(disc, bump);
}

#[test]
fn distinct_identities_get_distinct_addresses() {
    let mut addresses: Vec<[u8; 32]> = Vec::new();
    for n in 0..32u8 {
        let user = id(n.wrapping_mul(37).wrapping_add(n));
        let (addr, _) = vault::addressing::derive(&user).expect("no canonical discriminant");
        assert!(!addresses.contains(&addr.bytes));
        addresses.push(addr.bytes);
    }
}

#[test]
fn derived_address_differs_from_identity() {
    let user = id(5);
    let (addr, _) = vault::addressing::derive(&user).expect("no canonical discriminant");
    assert_ne!(addr.bytes, user.bytes);
}

#[test]
fn deposit_and_withdraw_conserve_value() {
    let alice = id(1);
    let mut l = VaultLedger::new();
    l.fund(&alice, 500);
    assert_eq!(l.initialize(Initialize { user: alice }), Ok(()));
    let a_vault = vault_address(&alice);

    assert_eq!(l.deposit(Deposit { vault: a_vault, user: alice }, 123), Ok(()));
    assert_eq!(l.wallet_balance_of(&alice), 377);
    assert_eq!(l.vault_balance_of(&alice), Some(123));

    assert_eq!(l.withdraw(Withdraw { vault: a_vault, user: alice }, 23), Ok(()));
    assert_eq!(l.wallet_balance_of(&alice), 400);
    assert_eq!(l.vault_balance_of(&alice), Some(100));
}

#[test]
fn anyone_may_top_up_any_vault() {
    let alice = id(1);
    let bob = id(2);
    let mut l = VaultLedger::new();
    l.fund(&bob, 300);
    assert_eq!(l.initialize(Initialize { user: alice }), Ok(()));
    let a_vault = vault_address(&alice);
    assert_eq!(l.deposit(Deposit { vault: a_vault, user: bob }, 200), Ok(()));
    assert_eq!(l.vault_balance_of(&alice), Some(200));
    assert_eq!(l.wallet_balance_of(&bob), 100);
    assert_eq!(
        l.withdraw(Withdraw { vault: a_vault, user: bob }, 200),
        Err(VaultError::Unauthorized)
    );
    assert_eq!(l.withdraw(Withdraw { vault: a_vault, user: alice }, 200), Ok(()));
    assert_eq!(l.wallet_balance_of(&alice), 200);
}

#[test]
fn authority_is_stable_across_operations() {
    let alice = id(1);
    let bob = id(2);
    let mut l = VaultLedger::new();
    l.fund(&alice, 100);
    assert_eq!(l.initialize(Initialize { user: alice }), Ok(()));
    let a_vault = vault_address(&alice);
    assert_eq!(l.authority_of(&alice), Some(alice));
    assert_eq!(l.deposit(Deposit { vault: a_vault, user: alice }, 60), Ok(()));
    assert_eq!(l.withdraw(Withdraw { vault: a_vault, user: alice }, 10), Ok(()));
    let _ = l.withdraw(Withdraw { vault: a_vault, user: bob }, 10);
    assert_eq!(l.authority_of(&alice), Some(alice));
}

#[test]
fn stored_discriminant_reproduces_address() {
    let user = id(9);
    let (addr, disc) = vault::addressing::derive(&user).expect("no canonical discriminant");
    let recomputed = vault::addressing::vault_address_for(&user, disc)
        .expect("stored discriminant must derive");
    assert_eq!(recomputed.bytes, addr.bytes);
}

#[test]
fn total_value_is_conserved_by_transfers() {
    let alice = id(1);
    let bob = id(2);
    let mut l = VaultLedger::new();
    assert_eq!(l.total_value_of(), 0);
    l.fund(&alice, 700);
    l.fund(&bob, 50);
    assert_eq!(l.total_value_of(), 750);
    assert_eq!(l.initialize(Initialize { user: alice }), Ok(()));
    let a_vault = vault_address(&alice);
    assert_eq!(l.deposit(Deposit { vault: a_vault, user: alice }, 300), Ok(()));
    assert_eq!(l.total_value_of(), 750);
    assert_eq!(l.withdraw(Withdraw { vault: a_vault, user: alice }, 120), Ok(()));
    assert_eq!(l.total_value_of(), 750);
}

#[test]
fn error_messages_are_distinct() {
    let kinds = [
        VaultError::Unauthorized,
        VaultError::InvalidAmount,
        VaultError::InsufficientFunds,
        VaultError::AccountAlreadyExists,
        VaultError::AccountNotFound,
        VaultError::TransferFailed,
    ];
    for (i, a) in kinds.iter().enumerate() {
        assert!(!a.message().is_empty());
        for b in kinds.iter().skip(i + 1) {
            assert_ne!(a.message(), b.message());
        }
    }
}
