//! Accounts and the transaction state machine.

use payments_engine::engine::Engine;
use payments_engine::model::ClientId;
use payments_engine::model::Kind;
use payments_engine::model::RejectReason;
use payments_engine::model::Transaction;
use payments_engine::model::TxId;
use payments_engine::money::Money;

const CLIENT: ClientId = 7;

/// Parses a test amount, allowing a leading `-` that the input format does
/// not.
fn money(s: &str) -> Money {
    let (sign, magnitude) = match s.strip_prefix('-') {
        Some(rest) => (-1, rest),
        None => (1, s),
    };
    let units = magnitude
        .parse::<Money>()
        .expect("test amount should parse")
        .units();
    Money::from_units(sign * units)
}

/// Applies `kind` for [`CLIENT`], to keep test bodies short.
fn tx(engine: &mut Engine, tx: TxId, kind: Kind) -> Result<(), RejectReason> {
    engine.apply(Transaction {
        client: CLIENT,
        tx,
        kind,
    })
}

fn deposit(engine: &mut Engine, id: TxId, amount: &str) -> Result<(), RejectReason> {
    tx(engine, id, Kind::Deposit(money(amount)))
}

fn withdraw(engine: &mut Engine, id: TxId, amount: &str) -> Result<(), RejectReason> {
    tx(engine, id, Kind::Withdrawal(money(amount)))
}

fn assert_rejects(outcome: Result<(), RejectReason>, reason: RejectReason) {
    assert_eq!(outcome, Err(reason));
}

fn assert_balances(engine: &Engine, available: &str, held: &str, locked: bool) {
    let account = engine.accounts()[&CLIENT];
    assert_eq!(account.available, money(available), "available");
    assert_eq!(account.held, money(held), "held");
    assert_eq!(account.locked, locked, "locked");
    // Against the values this call expects. Comparing `total()` to the
    // fields it is computed from would be an assertion that cannot fail.
    assert_eq!(
        account.total(),
        money(available).widening_add(money(held)),
        "total"
    );
}

#[test]
fn deposits_and_withdrawals_move_available_funds() {
    let mut engine = Engine::new();
    assert_eq!(deposit(&mut engine, 1, "1.0"), Ok(()));
    assert_eq!(deposit(&mut engine, 2, "2.0"), Ok(()));
    assert_eq!(withdraw(&mut engine, 3, "1.5"), Ok(()));
    assert_balances(&engine, "1.5", "0", false);
}

#[test]
fn withdrawal_beyond_available_funds_is_ignored() {
    let mut engine = Engine::new();
    deposit(&mut engine, 1, "1.0").unwrap();
    assert_rejects(
        withdraw(&mut engine, 2, "1.0001"),
        RejectReason::InsufficientFunds,
    );
    assert_balances(&engine, "1.0", "0", false);
}

#[test]
fn an_ignored_transaction_still_creates_the_client() {
    let mut engine = Engine::new();
    assert_rejects(
        withdraw(&mut engine, 1, "1.0"),
        RejectReason::InsufficientFunds,
    );
    assert_balances(&engine, "0", "0", false);
}

#[test]
fn dispute_holds_funds_without_changing_the_total() {
    let mut engine = Engine::new();
    deposit(&mut engine, 1, "10.0").unwrap();
    assert_eq!(tx(&mut engine, 1, Kind::Dispute), Ok(()));
    assert_balances(&engine, "0", "10.0", false);
}

#[test]
fn dispute_after_the_funds_left_drives_available_negative() {
    // Deposit, move the money out, then reverse the deposit.
    let mut engine = Engine::new();
    deposit(&mut engine, 1, "10.0").unwrap();
    withdraw(&mut engine, 2, "10.0").unwrap();
    assert_eq!(tx(&mut engine, 1, Kind::Dispute), Ok(()));
    assert_balances(&engine, "-10.0", "10.0", false);

    assert_eq!(tx(&mut engine, 1, Kind::Chargeback), Ok(()));
    assert_balances(&engine, "-10.0", "0", true);
}

#[test]
fn resolve_returns_held_funds() {
    let mut engine = Engine::new();
    deposit(&mut engine, 1, "10.0").unwrap();
    tx(&mut engine, 1, Kind::Dispute).unwrap();
    assert_eq!(tx(&mut engine, 1, Kind::Resolve), Ok(()));
    assert_balances(&engine, "10.0", "0", false);
}

#[test]
fn chargeback_removes_held_funds_and_freezes_the_account() {
    let mut engine = Engine::new();
    deposit(&mut engine, 1, "10.0").unwrap();
    tx(&mut engine, 1, Kind::Dispute).unwrap();
    assert_eq!(tx(&mut engine, 1, Kind::Chargeback), Ok(()));
    assert_balances(&engine, "0", "0", true);
}

#[test]
fn a_frozen_account_ignores_everything_afterwards() {
    let mut engine = Engine::new();
    deposit(&mut engine, 1, "10.0").unwrap();
    deposit(&mut engine, 2, "5.0").unwrap();
    tx(&mut engine, 1, Kind::Dispute).unwrap();
    tx(&mut engine, 1, Kind::Chargeback).unwrap();

    for attempt in [
        deposit(&mut engine, 3, "1.0"),
        withdraw(&mut engine, 4, "1.0"),
        tx(&mut engine, 2, Kind::Dispute),
        tx(&mut engine, 2, Kind::Resolve),
        tx(&mut engine, 2, Kind::Chargeback),
    ] {
        assert_rejects(attempt, RejectReason::AccountLocked);
    }
    assert_balances(&engine, "5.0", "0", true);
}

#[test]
fn a_chargeback_leaves_other_disputes_held() {
    let mut engine = Engine::new();
    deposit(&mut engine, 1, "10.0").unwrap();
    deposit(&mut engine, 2, "4.0").unwrap();
    tx(&mut engine, 1, Kind::Dispute).unwrap();
    tx(&mut engine, 2, Kind::Dispute).unwrap();

    tx(&mut engine, 1, Kind::Chargeback).unwrap();

    // Freezing does not release the surviving dispute.
    assert_balances(&engine, "0", "4.0", true);
}

#[test]
fn a_deposit_can_be_disputed_again_after_being_resolved() {
    let mut engine = Engine::new();
    deposit(&mut engine, 1, "10.0").unwrap();
    tx(&mut engine, 1, Kind::Dispute).unwrap();
    tx(&mut engine, 1, Kind::Resolve).unwrap();
    assert_eq!(tx(&mut engine, 1, Kind::Dispute), Ok(()));
    assert_eq!(tx(&mut engine, 1, Kind::Chargeback), Ok(()));
    assert_balances(&engine, "0", "0", true);
}

#[test]
fn a_dispute_needs_an_undisputed_deposit() {
    let mut engine = Engine::new();
    deposit(&mut engine, 1, "10.0").unwrap();

    assert_rejects(tx(&mut engine, 99, Kind::Dispute), RejectReason::UnknownTx);
    assert_rejects(
        engine.apply(Transaction {
            client: CLIENT + 1,
            tx: 1,
            kind: Kind::Dispute,
        }),
        RejectReason::ClientMismatch,
    );

    tx(&mut engine, 1, Kind::Dispute).unwrap();
    assert_rejects(
        tx(&mut engine, 1, Kind::Dispute),
        RejectReason::TxNotDisputable,
    );
    assert_balances(&engine, "0", "10.0", false);
}

#[test]
fn a_withdrawal_is_not_disputable() {
    let mut engine = Engine::new();
    deposit(&mut engine, 1, "10.0").unwrap();
    withdraw(&mut engine, 2, "4.0").unwrap();
    assert_rejects(tx(&mut engine, 2, Kind::Dispute), RejectReason::UnknownTx);
    assert_balances(&engine, "6.0", "0", false);
}

#[test]
fn resolve_and_chargeback_need_an_open_dispute() {
    let mut engine = Engine::new();
    deposit(&mut engine, 1, "10.0").unwrap();

    assert_rejects(
        tx(&mut engine, 1, Kind::Resolve),
        RejectReason::TxNotDisputed,
    );
    assert_rejects(
        tx(&mut engine, 1, Kind::Chargeback),
        RejectReason::TxNotDisputed,
    );
    assert_rejects(tx(&mut engine, 9, Kind::Resolve), RejectReason::UnknownTx);
    assert_balances(&engine, "10.0", "0", false);
}

#[test]
fn a_repeated_transaction_id_cannot_rewrite_a_deposit() {
    let mut engine = Engine::new();
    deposit(&mut engine, 1, "10.0").unwrap();
    assert_rejects(deposit(&mut engine, 1, "999.0"), RejectReason::DuplicateTx);
    assert_balances(&engine, "10.0", "0", false);

    // The original amount is held, not the replacement.
    tx(&mut engine, 1, Kind::Dispute).unwrap();
    assert_balances(&engine, "0", "10.0", false);
}

/// Deposits the largest representable amount, to set up an overflow.
fn deposit_max(engine: &mut Engine, id: TxId) {
    tx(engine, id, Kind::Deposit(Money::from_units(i64::MAX))).unwrap();
}

#[test]
fn an_overflowing_deposit_is_rejected_and_changes_nothing() {
    let mut engine = Engine::new();
    deposit_max(&mut engine, 1);
    let before = engine.clone();

    assert_rejects(deposit(&mut engine, 2, "0.0001"), RejectReason::Overflow);
    assert_eq!(engine, before);
}

#[test]
fn an_overflowing_resolve_leaves_both_balances_alone() {
    // A resolve moves two balances at once. If it wrote the first before
    // discovering the second overflows, the account would be left claiming
    // funds it does not have.
    let mut engine = Engine::new();
    deposit_max(&mut engine, 1);
    tx(&mut engine, 1, Kind::Dispute).unwrap();
    deposit_max(&mut engine, 2);
    let before = engine.clone();

    assert_rejects(tx(&mut engine, 1, Kind::Resolve), RejectReason::Overflow);
    assert_eq!(engine, before);
}
