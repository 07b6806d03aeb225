use amail::account::AccountId;
use amail::ledger::{settle_tip_transfer, Mail, TipError, TipOrder};

// The hosting ledger owns the balances: attaching value to a call moves it
// from the caller to the contract, and a tip order moves value from the
// contract to the contact. These tests play that host.

#[test]
fn test_tip() {
    let bob = AccountId::new(1);
    let eve = AccountId::new(2);
    let ml = Mail::new();
    let mut bal_bob: u128 = 10000;
    let mut bal_eve: u128 = 100;
    let mut bal_contract: u128 = 0;

    let attached: u128 = 2000;
    bal_bob -= attached;
    bal_contract += attached;
    let res = ml.tip_contact(eve, 2000, attached, bal_contract);
    assert!(res.is_ok());
    let order = res.unwrap();
    assert_eq!(order, TipOrder { to: eve, amount: 2000 });
    bal_contract -= order.amount;
    bal_eve += order.amount;
    let _ = bal_contract;

    assert_eq!(bal_bob, 8000);
    assert_eq!(bal_eve, 2100);
}

#[test]
fn tip_value_mismatch_aborts() {
    let bob = AccountId::new(1);
    let eve = AccountId::new(2);
    let ml = Mail::new();
    let bal_bob: u128 = 10000;
    let bal_eve: u128 = 100;

    let res = ml.tip_contact(eve, 2000, 1500, 1500);
    assert_eq!(res, Err(TipError::ValueMismatch));

    // The operation aborted: the host reverts, so no balance moves.
    assert_eq!(bal_bob, 10000);
    assert_eq!(bal_eve, 100);
    let _ = bob;
}

#[test]
fn tip_insufficient_funds() {
    let eve = AccountId::new(2);
    let ml = Mail::new();
    let res = ml.tip_contact(eve, 5000, 5000, 4999);
    assert_eq!(res, Err(TipError::InsufficientFunds));
}

#[test]
fn tip_transfer_failure_aborts() {
    assert_eq!(settle_tip_transfer(true), Ok(true));
    assert_eq!(settle_tip_transfer(false), Err(TipError::TransferFailed));
}
