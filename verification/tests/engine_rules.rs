use payments_engine::amount::Amount;
use payments_engine::models::{CommonError, InputRecord, OutputRecord, TransactionType};
use payments_engine::processor::{process_payments, try_process_payments};
use rust_decimal::Decimal;
use std::str::FromStr;

use TransactionType::{Chargeback, Deposit, Dispute, Resolve, Withdrawal};

fn amount(text: &str) -> Amount {
    let d = Decimal::from_str(text).unwrap();
    Amount::new(d.mantissa(), d.scale()).unwrap()
}

fn record(kind: TransactionType, client: u16, tx: u32, value: Option<&str>) -> InputRecord {
    InputRecord {
        record_type: kind,
        record_client: client,
        record_tx: tx,
        record_amount: value.map(amount),
    }
}

fn decimal(a: Amount) -> Decimal {
    Decimal::from_i128_with_scale(a.mantissa, a.scale)
}

fn sorted(mut accounts: Vec<OutputRecord>) -> Vec<OutputRecord> {
    accounts.sort_by_key(|a| a.record_client);
    accounts
}

fn check(account: &OutputRecord, client: u16, available: &str, held: &str, total: &str, locked: bool) {
    assert_eq!(account.record_client, client);
    assert_eq!(decimal(account.record_available), Decimal::from_str(available).unwrap());
    assert_eq!(decimal(account.record_held), Decimal::from_str(held).unwrap());
    assert_eq!(decimal(account.record_total), Decimal::from_str(total).unwrap());
    assert_eq!(account.record_locked, locked);
}

fn accounts_of(records: Vec<InputRecord>) -> Vec<OutputRecord> {
    sorted(process_payments(records).unwrap())
}

#[test]
fn withdrawal_without_amount_is_an_error() {
    match process_payments(vec![record(Deposit, 1, 1, Some("5")), record(Withdrawal, 1, 2, None)]) {
        Err(CommonError::Processing(m)) => assert_eq!(m, "couldn't process input - no withdrawal amount"),
        other => panic!("unexpected {:?}", other),
    }
}

#[test]
fn an_error_stops_the_whole_run() {
    let result = process_payments(vec![
        record(Deposit, 1, 1, Some("5")),
        record(Deposit, 2, 2, None),
        record(Deposit, 3, 3, Some("7")),
    ]);
    assert!(matches!(result, Err(CommonError::Processing(_))));
}

#[test]
fn a_deposit_without_amount_is_an_error_on_a_locked_account() {
    let result = process_payments(vec![
        record(Deposit, 1, 1, Some("10")),
        record(Dispute, 1, 1, None),
        record(Chargeback, 1, 1, None),
        record(Deposit, 1, 2, None),
    ]);
    match result {
        Err(CommonError::Processing(m)) => assert_eq!(m, "couldn't process input - no deposit amount"),
        other => panic!("unexpected {:?}", other),
    }
}

#[test]
fn a_locked_account_ignores_transactions_with_amounts() {
    let accounts = accounts_of(vec![
        record(Deposit, 1, 1, Some("10")),
        record(Dispute, 1, 1, None),
        record(Chargeback, 1, 1, None),
        record(Deposit, 1, 2, Some("3")),
        record(Withdrawal, 1, 3, Some("1")),
        record(Dispute, 1, 2, None),
    ]);
    check(&accounts[0], 1, "0", "0", "0", true);
}

#[test]
fn resolve_without_dispute_changes_nothing() {
    let accounts = accounts_of(vec![record(Deposit, 1, 1, Some("10")), record(Resolve, 1, 1, None)]);
    check(&accounts[0], 1, "10", "0", "10", false);
}

#[test]
fn chargeback_without_dispute_changes_nothing() {
    let accounts = accounts_of(vec![record(Deposit, 1, 1, Some("10")), record(Chargeback, 1, 1, None)]);
    check(&accounts[0], 1, "10", "0", "10", false);
}

#[test]
fn dispute_of_a_withdrawal_changes_nothing() {
    let accounts = accounts_of(vec![
        record(Deposit, 1, 1, Some("10")),
        record(Withdrawal, 1, 2, Some("4")),
        record(Dispute, 1, 2, None),
    ]);
    check(&accounts[0], 1, "6", "0", "6", false);
}

#[test]
fn dispute_before_its_deposit_changes_nothing() {
    let accounts = accounts_of(vec![record(Dispute, 1, 5, None), record(Deposit, 1, 5, Some("10"))]);
    check(&accounts[0], 1, "10", "0", "10", false);
}

#[test]
fn dispute_uses_the_first_transaction_with_the_id() {
    let accounts = accounts_of(vec![
        record(Deposit, 1, 1, Some("3")),
        record(Deposit, 1, 1, Some("4")),
        record(Dispute, 1, 1, None),
    ]);
    check(&accounts[0], 1, "4", "3", "7", false);
}

#[test]
fn a_second_dispute_of_the_same_deposit_holds_it_again() {
    let accounts = accounts_of(vec![
        record(Deposit, 1, 1, Some("10")),
        record(Dispute, 1, 1, None),
        record(Dispute, 1, 1, None),
    ]);
    check(&accounts[0], 1, "-10", "20", "10", false);
}

#[test]
fn one_resolve_ends_a_twice_held_dispute() {
    let accounts = accounts_of(vec![
        record(Deposit, 1, 1, Some("10")),
        record(Dispute, 1, 1, None),
        record(Dispute, 1, 1, None),
        record(Resolve, 1, 1, None),
        record(Resolve, 1, 1, None),
    ]);
    check(&accounts[0], 1, "0", "10", "10", false);
}

#[test]
fn a_dispute_by_another_client_opens_no_resolve() {
    let accounts = accounts_of(vec![
        record(Deposit, 1, 1, Some("10")),
        record(Dispute, 2, 1, None),
        record(Resolve, 1, 1, None),
    ]);
    check(&accounts[0], 1, "10", "0", "10", false);
    check(&accounts[1], 2, "0", "0", "0", false);
}

#[test]
fn another_client_cannot_resolve_a_dispute() {
    let accounts = accounts_of(vec![
        record(Deposit, 1, 1, Some("10")),
        record(Dispute, 1, 1, None),
        record(Resolve, 2, 1, None),
        record(Chargeback, 2, 1, None),
    ]);
    check(&accounts[0], 1, "0", "10", "10", false);
    check(&accounts[1], 2, "0", "0", "0", false);
}

#[test]
fn a_chargeback_after_a_resolve_changes_nothing() {
    let accounts = accounts_of(vec![
        record(Deposit, 1, 1, Some("10")),
        record(Dispute, 1, 1, None),
        record(Resolve, 1, 1, None),
        record(Chargeback, 1, 1, None),
    ]);
    check(&accounts[0], 1, "10", "0", "10", false);
}

#[test]
fn a_second_resolve_changes_nothing() {
    let accounts = accounts_of(vec![
        record(Deposit, 1, 1, Some("10")),
        record(Dispute, 1, 1, None),
        record(Resolve, 1, 1, None),
        record(Resolve, 1, 1, None),
    ]);
    check(&accounts[0], 1, "10", "0", "10", false);
}

#[test]
fn a_deposit_may_be_disputed_again_after_a_resolve() {
    let accounts = accounts_of(vec![
        record(Deposit, 1, 1, Some("10")),
        record(Dispute, 1, 1, None),
        record(Resolve, 1, 1, None),
        record(Dispute, 1, 1, None),
    ]);
    check(&accounts[0], 1, "0", "10", "10", false);
}

#[test]
fn two_deposits_under_dispute_at_once() {
    let accounts = accounts_of(vec![
        record(Deposit, 1, 1, Some("10")),
        record(Deposit, 1, 2, Some("5")),
        record(Dispute, 1, 1, None),
        record(Dispute, 1, 2, None),
        record(Resolve, 1, 2, None),
        record(Chargeback, 1, 1, None),
    ]);
    check(&accounts[0], 1, "5", "0", "5", true);
}

#[test]
fn a_client_named_only_by_a_dispute_has_an_account() {
    let accounts = accounts_of(vec![record(Deposit, 1, 1, Some("10")), record(Dispute, 3, 999, None)]);
    assert_eq!(accounts.len(), 2);
    check(&accounts[0], 1, "10", "0", "10", false);
    check(&accounts[1], 3, "0", "0", "0", false);
}

#[test]
fn other_accounts_are_unchanged() {
    let accounts = accounts_of(vec![
        record(Deposit, 1, 1, Some("10")),
        record(Deposit, 2, 2, Some("20")),
        record(Dispute, 2, 2, None),
        record(Chargeback, 2, 2, None),
        record(Withdrawal, 1, 3, Some("1")),
    ]);
    check(&accounts[0], 1, "9", "0", "9", false);
    check(&accounts[1], 2, "0", "0", "0", true);
}

#[test]
fn each_client_is_listed_once() {
    let accounts = process_payments(vec![
        record(Deposit, 4, 1, Some("1")),
        record(Deposit, 2, 2, Some("1")),
        record(Deposit, 4, 3, Some("1")),
        record(Deposit, 9, 4, Some("1")),
        record(Deposit, 2, 5, Some("1")),
    ])
    .unwrap();
    let mut clients: Vec<u16> = accounts.iter().map(|a| a.record_client).collect();
    clients.sort();
    assert_eq!(clients, vec![2, 4, 9]);
}

#[test]
fn withdrawing_all_available_funds_leaves_zero() {
    let accounts = accounts_of(vec![record(Deposit, 1, 1, Some("2.5")), record(Withdrawal, 1, 2, Some("2.50"))]);
    check(&accounts[0], 1, "0", "0", "0", false);
}

#[test]
fn no_transactions_no_accounts() {
    assert!(process_payments(vec![]).unwrap().is_empty());
}

#[test]
fn deposit_into_a_new_account_keeps_its_digits() {
    let accounts = accounts_of(vec![record(Deposit, 1, 1, Some("10.00"))]);
    assert_eq!(accounts[0].record_available.mantissa, 1000);
    assert_eq!(accounts[0].record_available.scale, 2);
}

#[test]
fn sums_take_the_finer_scale() {
    let accounts = accounts_of(vec![record(Deposit, 1, 1, Some("1.5")), record(Deposit, 1, 2, Some("2.25"))]);
    assert_eq!(accounts[0].record_total.mantissa, 375);
    assert_eq!(accounts[0].record_total.scale, 2);
}

#[test]
fn differences_take_the_finer_scale() {
    let accounts = accounts_of(vec![record(Deposit, 1, 1, Some("5")), record(Withdrawal, 1, 2, Some("1.25"))]);
    assert_eq!(accounts[0].record_available.mantissa, 375);
    assert_eq!(accounts[0].record_available.scale, 2);
}

#[test]
fn an_overflowing_run_is_reported() {
    let max = Amount::new(79228162514264337593543950335, 0).unwrap();
    let deposit = |tx| InputRecord { record_type: Deposit, record_client: 1, record_tx: tx, record_amount: Some(max) };
    assert!(try_process_payments(vec![deposit(1), deposit(2)]).is_none());
    let one = try_process_payments(vec![deposit(1)]).unwrap().unwrap();
    assert_eq!(one[0].record_total.mantissa, 79228162514264337593543950335);
}

#[test]
fn try_process_reports_errors_and_accounts() {
    assert!(matches!(try_process_payments(vec![record(Deposit, 1, 1, None)]), Some(Err(CommonError::Processing(_)))));
    let r = try_process_payments(vec![record(Deposit, 1, 1, Some("1"))]).unwrap().unwrap();
    check(&r[0], 1, "1", "0", "1", false);
}

#[test]
fn amounts_must_fit_a_decimal() {
    assert!(Amount::new(79228162514264337593543950336, 0).is_none());
    assert!(Amount::new(-79228162514264337593543950336, 0).is_none());
    assert!(Amount::new(1, 29).is_none());
    let a = Amount::new(-79228162514264337593543950335, 28).unwrap();
    assert_eq!(a.mantissa, -79228162514264337593543950335);
    let z = Amount::zero();
    assert_eq!((z.mantissa, z.scale), (0, 0));
}

#[test]
fn error_messages_name_their_kind() {
    assert_eq!(CommonError::Processing("bad".to_string()).message(), "processing error: bad");
    assert_eq!(
        CommonError::MissingArgument("input file".to_string()).message(),
        "missing argument error: input file"
    );
    assert_eq!(CommonError::Output("closed".to_string()).message(), "output error: closed");
    assert_eq!(
        CommonError::Input("no such file".to_string()).message(),
        "input error: no such file"
    );
}
