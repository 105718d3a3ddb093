//! The dispatch layer, origin checking and the sudo key decisions.

use balances::dispatch::dispatch;
use balances::dispatch::dispatch_sequence;
use balances::dispatch::Call;
use balances::dispatch::DispatchError;
use balances::ledger::Ledger;
use balances::sudo::ensure_root;
use balances::sudo::ensure_signed;
use balances::sudo::Origin;
use balances::sudo::OriginError;
use balances::sudo::SudoKey;

#[test]
fn it_works() {
    let result = 2 + 2;
    assert_eq!(result, 4);
}

#[test]
fn balance_pallet_new_works() {
    let ledger = Ledger::new(10, 50, 50);
    assert!(ledger.accounts.entries.is_empty());
    assert_eq!(ledger.total_issuance(), 0);
    assert_eq!(ledger.account(1), balances::account::AccountData::zero());
}

#[test]
fn test_setup_works() {
    // Set root key as 1.
    let sudo = SudoKey::new(Some(1));
    assert_eq!(sudo.key(), Some(1u64));
}

#[test]
fn set_key_works() {
    // Calling with root 1 should succeed and change the key.
    let mut sudo = SudoKey::new(Some(1));
    assert!(sudo.set_key(Origin::Signed(1), 2).is_ok());
    assert_eq!(sudo.key(), Some(2));
    // Calling with non-root 2 should fail.
    let mut sudo = SudoKey::new(Some(1));
    assert_eq!(sudo.set_key(Origin::Signed(2), 3), Err(OriginError::RequireSudo));
    assert_eq!(sudo.key(), Some(1));
}

#[test]
fn sudo_key_grants_and_refuses_root() {
    let sudo = SudoKey::new(Some(1));
    assert_eq!(sudo.sudo_origin(Origin::Signed(1)), Ok(Origin::Root));
    assert_eq!(sudo.sudo_origin(Origin::Signed(2)), Err(OriginError::RequireSudo));
    assert_eq!(sudo.sudo_origin(Origin::Unsigned), Err(OriginError::RequireSudo));
    assert_eq!(sudo.sudo_as_origin(Origin::Signed(1), 2), Ok(Origin::Signed(2)));
    let keyless = SudoKey::new(None);
    assert_eq!(keyless.sudo_origin(Origin::Signed(1)), Err(OriginError::RequireSudo));
}

#[test]
fn origin_checks() {
    assert_eq!(ensure_signed(Origin::Signed(5)), Ok(5));
    assert_eq!(ensure_signed(Origin::Root), Err(OriginError::BadOrigin));
    assert!(ensure_root(Origin::Root).is_ok());
    assert_eq!(ensure_root(Origin::Signed(5)), Err(OriginError::BadOrigin));
    assert_eq!(ensure_root(Origin::Unsigned), Err(OriginError::BadOrigin));
}

#[test]
fn dispatch_checks_origins() {
    let mut ledger = Ledger::new(10, 50, 50);
    assert_eq!(ledger.deposit_creating(1, 100), 100);
    // A signed transfer goes through.
    assert!(dispatch(&mut ledger, Origin::Signed(1), Call::Transfer { dest: 2, value: 40 })
        .is_ok());
    assert_eq!(ledger.account(2).free, 40);
    // Privileged calls refuse a plain signature.
    assert_eq!(
        dispatch(
            &mut ledger,
            Origin::Signed(1),
            Call::SetBalance { who: 2, new_free: 7, new_reserved: 0 },
        ),
        Err(DispatchError::Origin(OriginError::BadOrigin))
    );
    assert_eq!(ledger.account(2).free, 40);
    // And go through as root.
    assert!(dispatch(
        &mut ledger,
        Origin::Root,
        Call::ForceTransfer { source: 2, dest: 1, value: 40 },
    )
        .is_ok());
    assert_eq!(ledger.account(1).free, 100);
    // A transfer needs a signature at all.
    assert_eq!(
        dispatch(&mut ledger, Origin::Unsigned, Call::Transfer { dest: 2, value: 1 }),
        Err(DispatchError::Origin(OriginError::BadOrigin))
    );
}

#[test]
fn dispatch_sequence_preserves_conservation() {
    let mut ledger = Ledger::new(10, 50, 50);
    assert_eq!(ledger.deposit_creating(1, 500), 500);
    assert_eq!(ledger.deposit_creating(2, 300), 300);
    let calls = vec![
        (Origin::Signed(1), Call::Transfer { dest: 2, value: 100 }),
        (Origin::Signed(2), Call::TransferKeepAlive { dest: 3, value: 50 }),
        (Origin::Signed(3), Call::Transfer { dest: 1, value: 9999 }),
        (Origin::Root, Call::SetBalance { who: 4, new_free: 80, new_reserved: 0 }),
        (Origin::Signed(4), Call::TransferAll { dest: 1, keep_alive: false }),
        (Origin::Root, Call::ForceUnreserve { who: 1, amount: 10 }),
        (Origin::Signed(9), Call::Transfer { dest: 1, value: 1 }),
    ];
    let results = dispatch_sequence(&mut ledger, &calls);
    assert_eq!(results.len(), 7);
    assert!(results[0].is_ok());
    assert!(results[1].is_ok());
    assert!(results[2].is_err());
    assert!(results[3].is_ok());
    assert!(results[4].is_ok());
    assert!(results[5].is_ok());
    assert!(results[6].is_err());
    let mut sum: u128 = 0;
    for entry in ledger.accounts.entries.iter() {
        let total = entry.1.free as u128 + entry.1.reserved as u128;
        assert!(total >= ledger.existential_deposit as u128);
        sum += total;
    }
    assert_eq!(sum, ledger.total_issuance() as u128);
}
