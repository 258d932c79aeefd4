use payments_engine::amount::Amount;
use payments_engine::models::{CommonError, InputRecord, OutputRecord, TransactionType};
use payments_engine::processor::{process_payments, try_process_payments};
use rust_decimal::Decimal;
use std::str::FromStr;

use TransactionType::{Chargeback, Deposit, Dispute, Resolve, Withdrawal};

fn amount(text: &str) -> Amount {
    let d = Decimal::from_str(text).unwrap();
    Amount::new(d.mantissa(), d.scale()).unwrap()
}

fn record(kind: TransactionType, client: u16, tx: u32, value: Option<&str>) -> InputRecord {
    InputRecord {
        record_type: kind,
        record_client: client,
        record_tx: tx,
        record_amount: value.map(amount),
    }
}

fn decimal(a: Amount) -> Decimal {
    Decimal::from_i128_with_scale(a.mantissa, a.scale)
}

fn run(records: Vec<InputRecord>) -> Result<Vec<OutputRecord>, CommonError> {
    let result = process_payments(records);
    if let Ok(accounts) = &result {
        for a in accounts {
            assert_eq!(
                decimal(a.record_total),
                decimal(a.record_available) + decimal(a.record_held)
            );
        }
    }
    result
}

fn sorted(mut accounts: Vec<OutputRecord>) -> Vec<OutputRecord> {
    accounts.sort_by_key(|a| a.record_client);
    accounts
}

fn check(account: &OutputRecord, client: u16, available: &str, held: &str, total: &str, locked: bool) {
    assert_eq!(account.record_client, client);
    assert_eq!(decimal(account.record_available), Decimal::from_str(available).unwrap());
    assert_eq!(decimal(account.record_held), Decimal::from_str(held).unwrap());
    assert_eq!(decimal(account.record_total), Decimal::from_str(total).unwrap());
    assert_eq!(account.record_locked, locked);
}

fn single(records: Vec<InputRecord>) -> OutputRecord {
    let accounts = run(records).unwrap();
    assert_eq!(accounts.len(), 1);
    accounts[0]
}

fn processing_message(result: Result<Vec<OutputRecord>, CommonError>) -> String {
    match result {
        Err(CommonError::Processing(message)) => message,
        other => panic!("expected a processing error, got {:?}", other),
    }
}

#[test]
fn basic_deposit() {
    let a = single(vec![record(Deposit, 1, 1, Some("10.00"))]);
    check(&a, 1, "10", "0", "10", false);
}

#[test]
fn multiple_deposits() {
    let a = single(vec![
        record(Deposit, 1, 1, Some("10")),
        record(Deposit, 1, 2, Some("5.50")),
        record(Deposit, 1, 3, Some("2.25")),
    ]);
    check(&a, 1, "17.75", "0", "17.75", false);
}

#[test]
fn withdrawal_with_sufficient_funds() {
    let a = single(vec![
        record(Deposit, 1, 1, Some("10.00")),
        record(Withdrawal, 1, 2, Some("4.00")),
    ]);
    check(&a, 1, "6", "0", "6", false);
}

#[test]
fn withdrawal_with_insufficient_funds() {
    let a = single(vec![
        record(Deposit, 1, 1, Some("10.00")),
        record(Withdrawal, 1, 2, Some("15.00")),
    ]);
    check(&a, 1, "10", "0", "10", false);
}

#[test]
fn multiple_clients() {
    let accounts = sorted(
        run(vec![
            record(Deposit, 1, 1, Some("10.00")),
            record(Deposit, 2, 2, Some("20.00")),
            record(Withdrawal, 1, 3, Some("3.00")),
            record(Withdrawal, 2, 4, Some("5.00")),
        ])
        .unwrap(),
    );
    assert_eq!(accounts.len(), 2);
    check(&accounts[0], 1, "7", "0", "7", false);
    check(&accounts[1], 2, "15", "0", "15", false);
}

#[test]
fn withdrawal_after_a_deposit() {
    let a = single(vec![
        record(Deposit, 1, 1, Some("100.00")),
        record(Withdrawal, 1, 2, Some("25.00")),
        record(Deposit, 1, 3, Some("10.00")),
        record(Withdrawal, 1, 4, Some("15.00")),
    ]);
    check(&a, 1, "70", "0", "70", false);
}

#[test]
fn dispute_of_a_transaction() {
    let a = single(vec![record(Deposit, 1, 1, Some("10.00")), record(Dispute, 1, 1, None)]);
    check(&a, 1, "0", "10", "10", false);
}

#[test]
fn resolve_of_a_disputed_transaction() {
    let a = single(vec![
        record(Deposit, 1, 1, Some("10.00")),
        record(Dispute, 1, 1, None),
        record(Resolve, 1, 1, None),
    ]);
    check(&a, 1, "10", "0", "10", false);
}

#[test]
fn chargeback() {
    let a = single(vec![
        record(Deposit, 1, 1, Some("10.00")),
        record(Dispute, 1, 1, None),
        record(Chargeback, 1, 1, None),
    ]);
    check(&a, 1, "0", "0", "0", true);
}

#[test]
fn attempt_to_operate_on_locked_client() {
    let a = single(vec![
        record(Deposit, 1, 1, Some("10.00")),
        record(Dispute, 1, 1, None),
        record(Chargeback, 1, 1, None),
        record(Deposit, 1, 2, Some("5.00")),
    ]);
    check(&a, 1, "0", "0", "0", true);
}

#[test]
fn dispute_referencing_nonexistent_transaction() {
    let a = single(vec![record(Deposit, 1, 1, Some("10.00")), record(Dispute, 1, 999, None)]);
    check(&a, 1, "10", "0", "10", false);
}

#[test]
fn dispute_referencing_another_clients_transaction() {
    let accounts = sorted(
        run(vec![
            record(Deposit, 1, 1, Some("10.00")),
            record(Deposit, 2, 2, Some("20.00")),
            record(Dispute, 1, 2, None),
        ])
        .unwrap(),
    );
    assert_eq!(accounts.len(), 2);
    check(&accounts[0], 1, "10", "0", "10", false);
    check(&accounts[1], 2, "20", "0", "20", false);
}

#[test]
fn resolve_of_nonexistent_transaction() {
    let a = single(vec![record(Deposit, 1, 1, Some("10.00")), record(Resolve, 1, 999, None)]);
    check(&a, 1, "10", "0", "10", false);
}

#[test]
fn chargeback_of_nonexistent_transaction() {
    let a = single(vec![record(Deposit, 1, 1, Some("10.00")), record(Chargeback, 1, 999, None)]);
    check(&a, 1, "10", "0", "10", false);
}

#[test]
fn transactions_with_unordered_ids() {
    let a = single(vec![
        record(Deposit, 1, 42, Some("10.00")),
        record(Withdrawal, 1, 7, Some("5.00")),
        record(Deposit, 1, 103, Some("20.00")),
    ]);
    check(&a, 1, "25", "0", "25", false);
}

#[test]
fn decimal_amounts_and_precision() {
    let a = single(vec![
        record(Deposit, 1, 1, Some("10.1234")),
        record(Deposit, 1, 2, Some("0.0001")),
        record(Withdrawal, 1, 3, Some("2.0002")),
    ]);
    check(&a, 1, "8.1233", "0", "8.1233", false);
}

#[test]
fn zero_amount_deposit() {
    let a = single(vec![record(Deposit, 1, 1, Some("0.00"))]);
    check(&a, 1, "0", "0", "0", false);
}

#[test]
fn malformed_record_missing_amount() {
    let message = processing_message(run(vec![record(Deposit, 1, 1, None)]));
    assert_eq!(message, "couldn't process input - no deposit amount");
}

#[test]
fn dispute_can_exceed_available_funds() {
    let a = single(vec![
        record(Deposit, 1, 1, Some("100.00")),
        record(Withdrawal, 1, 2, Some("80.00")),
        record(Dispute, 1, 1, None),
    ]);
    check(&a, 1, "-80", "100", "20", false);
}

#[test]
fn chargeback_can_result_in_negative_balance() {
    let a = single(vec![
        record(Deposit, 1, 1, Some("100.00")),
        record(Withdrawal, 1, 2, Some("80.00")),
        record(Dispute, 1, 1, None),
        record(Chargeback, 1, 1, None),
    ]);
    check(&a, 1, "-80", "0", "-80", true);
}
