use crate::amount::{
    amount_at_least, amount_difference, amount_sum, checked_add_amounts, checked_sub_amounts,
    Amount,
};
use crate::models::{CommonError, InputRecord, OutputRecord, TransactionType};
use std::collections::{HashMap, HashSet};
use vstd::std_specs::hash::spec_hash_map_iter;
use vstd::std_specs::iter::IteratorSpec;
use vstd::prelude::*;

verus! {

/// The first transaction, over the whole input, whose id is `tx`.
pub open spec fn first_with_tx(txs: Seq<InputRecord>, tx: u32) -> Option<InputRecord>
    decreases txs.len(),
{
    if txs.len() == 0 {
        None
    } else if txs[0].record_tx == tx {
        Some(txs[0])
    } else {
        first_with_tx(txs.drop_first(), tx)
    }
}

proof fn lemma_first_with_tx_skip(txs: Seq<InputRecord>, i: int, tx: u32)
    requires
        0 <= i < txs.len(),
        txs[i].record_tx != tx,
    ensures
        first_with_tx(txs.skip(i), tx) == first_with_tx(txs.skip(i + 1), tx),
{
    assert(txs.skip(i).drop_first() =~= txs.skip(i + 1));
}

/// The first transaction, over the whole input, whose id is `tx_id`.
fn find_transaction(transactions: &[InputRecord], tx_id: u32) -> (r: Option<&InputRecord>)
    ensures
        match r {
            Some(t) => first_with_tx(transactions@, tx_id) == Some(*t),
            None => first_with_tx(transactions@, tx_id) is None,
        },
{
    let n = transactions.len();
    let mut i: usize = 0;
    assert(transactions@.skip(0) =~= transactions@);
    while i < n
        invariant
            n == transactions@.len(),
            0 <= i <= n,
            first_with_tx(transactions@, tx_id) == first_with_tx(transactions@.skip(i as int), tx_id),
        decreases n - i,
    {
        if transactions[i].record_tx == tx_id {
            assert(transactions@.skip(i as int)[0] == transactions@[i as int]);
            return Some(&transactions[i]);
        }
        proof {
            lemma_first_with_tx_skip(transactions@, i as int, tx_id);
        }
        i = i + 1;
    }
    assert(transactions@.skip(i as int).len() == 0);
    None
}

/// The amount of the deposit of `client` that transaction id `tx` names,
/// where the first transaction with that id is such a deposit and has an
/// amount.
pub open spec fn referenced_deposit(txs: Seq<InputRecord>, client: u16, tx: u32) -> Option<Amount> {
    match first_with_tx(txs, tx) {
        Some(t) => if t.record_client == client && t.record_type == TransactionType::Deposit {
            t.record_amount
        } else {
            None
        },
        None => None,
    }
}

/// The text of the error for a deposit without an amount.
pub open spec fn missing_deposit_amount_message() -> Seq<char> {
    "couldn't process input - no deposit amount"@
}

/// The text of the error for a withdrawal without an amount.
pub open spec fn missing_withdrawal_amount_message() -> Seq<char> {
    "couldn't process input - no withdrawal amount"@
}

/// The account of a client that no transaction has touched yet.
pub open spec fn new_account(client: u16) -> OutputRecord {
    OutputRecord {
        record_client: client,
        record_available: Amount { mantissa: 0, scale: 0 },
        record_held: Amount { mantissa: 0, scale: 0 },
        record_total: Amount { mantissa: 0, scale: 0 },
        record_locked: false,
    }
}

/// `acct` with the given available, held and total amounts.
pub open spec fn with_amounts(
    acct: OutputRecord,
    available: Amount,
    held: Amount,
    total: Amount,
) -> OutputRecord {
    OutputRecord {
        record_client: acct.record_client,
        record_available: available,
        record_held: held,
        record_total: total,
        record_locked: acct.record_locked,
    }
}

/// `acct` after moving `amount` from available to held funds (a dispute).
pub open spec fn hold(acct: OutputRecord, amount: Amount) -> Option<OutputRecord> {
    match amount_difference(acct.record_available, amount) {
        None => None,
        Some(available) => match amount_sum(acct.record_held, amount) {
            None => None,
            Some(held) => Some(with_amounts(acct, available, held, acct.record_total)),
        },
    }
}

/// `acct` after moving `amount` from held back to available funds (a resolve).
pub open spec fn release(acct: OutputRecord, amount: Amount) -> Option<OutputRecord> {
    match amount_sum(acct.record_available, amount) {
        None => None,
        Some(available) => match amount_difference(acct.record_held, amount) {
            None => None,
            Some(held) => Some(with_amounts(acct, available, held, acct.record_total)),
        },
    }
}

/// `acct` after removing `amount` from held and total funds and locking it
/// (a chargeback).
pub open spec fn charge_back(acct: OutputRecord, amount: Amount) -> Option<OutputRecord> {
    match amount_difference(acct.record_held, amount) {
        None => None,
        Some(held) => match amount_difference(acct.record_total, amount) {
            None => None,
            Some(total) => Some(
                OutputRecord {
                    record_client: acct.record_client,
                    record_available: acct.record_available,
                    record_held: held,
                    record_total: total,
                    record_locked: true,
                },
            ),
        },
    }
}

/// `acct` after adding `amount` to available and total funds (a deposit).
pub open spec fn credit(acct: OutputRecord, amount: Amount) -> Option<OutputRecord> {
    match amount_sum(acct.record_available, amount) {
        None => None,
        Some(available) => match amount_sum(acct.record_total, amount) {
            None => None,
            Some(total) => Some(with_amounts(acct, available, acct.record_held, total)),
        },
    }
}

/// `acct` after removing `amount` from available and total funds (a
/// withdrawal that the available funds cover).
pub open spec fn debit(acct: OutputRecord, amount: Amount) -> Option<OutputRecord> {
    match amount_difference(acct.record_available, amount) {
        None => None,
        Some(available) => match amount_difference(acct.record_total, amount) {
            None => None,
            Some(total) => Some(with_amounts(acct, available, acct.record_held, total)),
        },
    }
}

/// The outcome that leaves `acct` as it is.
pub open spec fn unchanged(acct: OutputRecord) -> Option<Result<OutputRecord, Seq<char>>> {
    Some(Ok(acct))
}

/// Lifts an optional new account state into an outcome.
pub open spec fn done(acct: Option<OutputRecord>) -> Option<Result<OutputRecord, Seq<char>>> {
    match acct {
        Some(a) => Some(Ok(a)),
        None => None,
    }
}

/// Transaction `r` opens a dispute: it names a deposit of its own client.
/// A deposit that is under dispute already is held again.
pub open spec fn dispute_opens(txs: Seq<InputRecord>, r: InputRecord) -> bool {
    referenced_deposit(txs, r.record_client, r.record_tx) is Some
}

/// Transaction `r` settles a dispute (a resolve or a chargeback): it names
/// a deposit of its own client that is under dispute.
pub open spec fn dispute_settles(disputed: Set<u32>, txs: Seq<InputRecord>, r: InputRecord) -> bool {
    &&& referenced_deposit(txs, r.record_client, r.record_tx) is Some
    &&& disputed.contains(r.record_tx)
}

/// Transaction `r` is a deposit or a withdrawal without an amount.
pub open spec fn lacks_amount(r: InputRecord) -> bool {
    &&& r.record_amount is None
    &&& (r.record_type == TransactionType::Deposit || r.record_type
        == TransactionType::Withdrawal)
}

/// The text of the error for a record that lacks its amount.
pub open spec fn missing_amount_message(r: InputRecord) -> Seq<char> {
    if r.record_type == TransactionType::Deposit {
        missing_deposit_amount_message()
    } else {
        missing_withdrawal_amount_message()
    }
}

/// What transaction `i` of `txs` does to `acct`, the account of its client,
/// where `disputed` holds the ids of the deposits under dispute:
/// `Some(Ok(..))` with the new account, `Some(Err(..))` with the text of the
/// error that stops the processing, or `None` where a decimal operation
/// overflows.
///
/// A deposit or a withdrawal without an amount is an error, also on a
/// locked account; any other transaction of a locked account is ignored.
pub open spec fn account_after(
    acct: OutputRecord,
    disputed: Set<u32>,
    txs: Seq<InputRecord>,
    i: int,
) -> Option<Result<OutputRecord, Seq<char>>> {
    let r = txs[i];
    if lacks_amount(r) {
        Some(Err(missing_amount_message(r)))
    } else if acct.record_locked {
        unchanged(acct)
    } else {
        match r.record_type {
            TransactionType::Deposit => done(credit(acct, r.record_amount.unwrap())),
            TransactionType::Withdrawal => {
                let amount = r.record_amount.unwrap();
                if acct.record_available.value() >= amount.value() {
                    done(debit(acct, amount))
                } else {
                    unchanged(acct)
                }
            },
            TransactionType::Dispute => if dispute_opens(txs, r) {
                done(hold(acct, referenced_deposit(txs, r.record_client, r.record_tx).unwrap()))
            } else {
                unchanged(acct)
            },
            TransactionType::Resolve => if dispute_settles(disputed, txs, r) {
                done(release(acct, referenced_deposit(txs, r.record_client, r.record_tx).unwrap()))
            } else {
                unchanged(acct)
            },
            TransactionType::Chargeback => if dispute_settles(disputed, txs, r) {
                done(
                    charge_back(acct, referenced_deposit(txs, r.record_client, r.record_tx).unwrap()),
                )
            } else {
                unchanged(acct)
            },
        }
    }
}

/// The deposits under dispute after transaction `i` of `txs` has been
/// applied to `acct`, the account of its client: an opened dispute adds its
/// deposit, a settling resolve or chargeback removes it.
pub open spec fn disputed_after(
    acct: OutputRecord,
    disputed: Set<u32>,
    txs: Seq<InputRecord>,
    i: int,
) -> Set<u32> {
    let r = txs[i];
    if acct.record_locked {
        disputed
    } else {
        match r.record_type {
            TransactionType::Dispute => if dispute_opens(txs, r) {
                disputed.insert(r.record_tx)
            } else {
                disputed
            },
            TransactionType::Resolve => if dispute_settles(disputed, txs, r) {
                disputed.remove(r.record_tx)
            } else {
                disputed
            },
            TransactionType::Chargeback => if dispute_settles(disputed, txs, r) {
                disputed.remove(r.record_tx)
            } else {
                disputed
            },
            _ => disputed,
        }
    }
}

/// `e` is a processing error with the text `msg`.
pub open spec fn is_processing_error(e: CommonError, msg: Seq<char>) -> bool {
    e matches CommonError::Processing(s) && s@ == msg
}

/// An executable outcome `r` is the modelled outcome `s`: the same value,
/// the processing error with the same text, or neither where `s` overflowed.
pub open spec fn outcome_matches<T>(
    r: Option<Result<T, CommonError>>,
    s: Option<Result<T, Seq<char>>>,
) -> bool {
    match s {
        None => r is None,
        Some(Ok(x)) => r == Some(Ok::<T, CommonError>(x)),
        Some(Err(msg)) => r matches Some(Err(e)) && is_processing_error(e, msg),
    }
}

/// Every amount of the input is one that a decimal can hold.
pub open spec fn transactions_wf(txs: Seq<InputRecord>) -> bool {
    forall|i: int| 0 <= i < txs.len() ==> #[trigger] txs[i].wf()
}

/// The amount of the deposit of `client` that transaction id `tx` names.
fn deposit_referenced(transactions: &[InputRecord], client: u16, tx: u32) -> (r: Option<Amount>)
    requires
        transactions_wf(transactions@),
    ensures
        r == referenced_deposit(transactions@, client, tx),
        r matches Some(a) ==> a.wf(),
{
    proof {
        lemma_first_with_tx_in(transactions@, tx);
    }
    match find_transaction(transactions, tx) {
        Some(t) => {
            proof {
                let k = choose|k: int| 0 <= k < transactions@.len() && transactions@[k] == *t;
                assert(transactions@[k].wf());
            }
            if t.record_client == client && t.record_type == TransactionType::Deposit {
                t.record_amount
            } else {
                None
            }
        },
        None => None,
    }
}

/// The first transaction with a given id is one of the transactions.
proof fn lemma_first_with_tx_in(txs: Seq<InputRecord>, tx: u32)
    ensures
        first_with_tx(txs, tx) matches Some(t) ==> txs.contains(t),
    decreases txs.len(),
{
    if txs.len() > 0 && txs[0].record_tx != tx {
        lemma_first_with_tx_in(txs.drop_first(), tx);
        if let Some(t) = first_with_tx(txs, tx) {
            let k = choose|k: int| 0 <= k < txs.drop_first().len() && txs.drop_first()[k] == t;
            assert(txs[k + 1] == t);
        }
    } else if txs.len() > 0 {
        assert(txs[0] == txs[0]);
    }
}

/// Applies an optional account change to an outcome.
fn lift(acct: Option<OutputRecord>) -> (r: Option<Result<OutputRecord, CommonError>>)
    ensures
        outcome_matches(r, done(acct)),
{
    match acct {
        Some(a) => Some(Ok(a)),
        None => None,
    }
}


/// The account with the given available, held and total amounts.
fn set_amounts(acct: OutputRecord, available: Amount, held: Amount, total: Amount) -> (r:
    OutputRecord)
    ensures
        r == with_amounts(acct, available, held, total),
{
    OutputRecord {
        record_client: acct.record_client,
        record_available: available,
        record_held: held,
        record_total: total,
        record_locked: acct.record_locked,
    }
}

/// Adds `amount` to the available and total funds.
fn credit_account(acct: OutputRecord, amount: Amount) -> (r: Option<OutputRecord>)
    requires
        acct.wf(),
        amount.wf(),
    ensures
        r == credit(acct, amount),
        r matches Some(a) ==> a.wf(),
{
    match checked_add_amounts(acct.record_available, amount) {
        None => None,
        Some(available) => match checked_add_amounts(acct.record_total, amount) {
            None => None,
            Some(total) => Some(set_amounts(acct, available, acct.record_held, total)),
        },
    }
}

/// Removes `amount` from the available and total funds.
fn debit_account(acct: OutputRecord, amount: Amount) -> (r: Option<OutputRecord>)
    requires
        acct.wf(),
        amount.wf(),
    ensures
        r == debit(acct, amount),
        r matches Some(a) ==> a.wf(),
{
    match checked_sub_amounts(acct.record_available, amount) {
        None => None,
        Some(available) => match checked_sub_amounts(acct.record_total, amount) {
            None => None,
            Some(total) => Some(set_amounts(acct, available, acct.record_held, total)),
        },
    }
}

/// Moves `amount` from the available to the held funds.
fn hold_funds(acct: OutputRecord, amount: Amount) -> (r: Option<OutputRecord>)
    requires
        acct.wf(),
        amount.wf(),
    ensures
        r == hold(acct, amount),
        r matches Some(a) ==> a.wf(),
{
    match checked_sub_amounts(acct.record_available, amount) {
        None => None,
        Some(available) => match checked_add_amounts(acct.record_held, amount) {
            None => None,
            Some(held) => Some(set_amounts(acct, available, held, acct.record_total)),
        },
    }
}

/// Moves `amount` from the held back to the available funds.
fn release_funds(acct: OutputRecord, amount: Amount) -> (r: Option<OutputRecord>)
    requires
        acct.wf(),
        amount.wf(),
    ensures
        r == release(acct, amount),
        r matches Some(a) ==> a.wf(),
{
    match checked_add_amounts(acct.record_available, amount) {
        None => None,
        Some(available) => match checked_sub_amounts(acct.record_held, amount) {
            None => None,
            Some(held) => Some(set_amounts(acct, available, held, acct.record_total)),
        },
    }
}

/// Removes `amount` from the held and total funds and locks the account.
fn charge_back_funds(acct: OutputRecord, amount: Amount) -> (r: Option<OutputRecord>)
    requires
        acct.wf(),
        amount.wf(),
    ensures
        r == charge_back(acct, amount),
        r matches Some(a) ==> a.wf(),
{
    match checked_sub_amounts(acct.record_held, amount) {
        None => None,
        Some(held) => match checked_sub_amounts(acct.record_total, amount) {
            None => None,
            Some(total) => Some(
                OutputRecord {
                    record_client: acct.record_client,
                    record_available: acct.record_available,
                    record_held: held,
                    record_total: total,
                    record_locked: true,
                },
            ),
        },
    }
}

/// Applies transaction `index` of `transactions` to `account`, the account
/// of its client, and updates `disputed`, the ids of the deposits under
/// dispute.
fn apply_transaction(
    account: OutputRecord,
    disputed: &mut HashSet<u32>,
    transactions: &[InputRecord],
    index: usize,
) -> (r: Option<Result<OutputRecord, CommonError>>)
    requires
        account.wf(),
        transactions_wf(transactions@),
        index < transactions@.len(),
    ensures
        outcome_matches(r, account_after(account, old(disputed)@, transactions@, index as int)),
        r matches Some(Ok(a)) ==> a.wf(),
        r matches Some(Ok(_)) ==> final(disputed)@ == disputed_after(
            account,
            old(disputed)@,
            transactions@,
            index as int,
        ),
{
    let record = transactions[index];
    assert(transactions@[index as int].wf());
    let tx = record.record_tx;
    match record.record_type {
        TransactionType::Deposit => {
            if record.record_amount.is_none() {
                return Some(
                    Err(
                        CommonError::Processing(
                            "couldn't process input - no deposit amount".to_owned(),
                        ),
                    ),
                );
            }
        },
        TransactionType::Withdrawal => {
            if record.record_amount.is_none() {
                return Some(
                    Err(
                        CommonError::Processing(
                            "couldn't process input - no withdrawal amount".to_owned(),
                        ),
                    ),
                );
            }
        },
        _ => {},
    }
    if account.record_locked {
        return Some(Ok(account));
    }
    match record.record_type {
        TransactionType::Deposit => match record.record_amount {
            Some(amount) => lift(credit_account(account, amount)),
            None => unreached(),
        },
        TransactionType::Withdrawal => match record.record_amount {
            Some(amount) => {
                if amount_at_least(account.record_available, amount) {
                    lift(debit_account(account, amount))
                } else {
                    Some(Ok(account))
                }
            },
            None => unreached(),
        },
        TransactionType::Dispute => {
            match deposit_referenced(transactions, record.record_client, tx) {
                Some(amount) => match hold_funds(account, amount) {
                    Some(a) => {
                        disputed.insert(tx);
                        Some(Ok(a))
                    },
                    None => None,
                },
                None => Some(Ok(account)),
            }
        },
        TransactionType::Resolve => {
            if !disputed.contains(&tx) {
                return Some(Ok(account));
            }
            match deposit_referenced(transactions, record.record_client, tx) {
                Some(amount) => match release_funds(account, amount) {
                    Some(a) => {
                        disputed.remove(&tx);
                        Some(Ok(a))
                    },
                    None => None,
                },
                None => Some(Ok(account)),
            }
        },
        TransactionType::Chargeback => {
            if !disputed.contains(&tx) {
                return Some(Ok(account));
            }
            match deposit_referenced(transactions, record.record_client, tx) {
                Some(amount) => match charge_back_funds(account, amount) {
                    Some(a) => {
                        disputed.remove(&tx);
                        Some(Ok(a))
                    },
                    None => None,
                },
                None => Some(Ok(account)),
            }
        },
    }
}

/// The account of `client` in `accounts`, or a new one where it has none.
pub open spec fn account_of(accounts: Map<u16, OutputRecord>, client: u16) -> OutputRecord {
    if accounts.contains_key(client) {
        accounts[client]
    } else {
        new_account(client)
    }
}

/// The state of the engine between transactions: the client accounts, and
/// the ids of the deposits that are under dispute.
pub ghost struct Ledger {
    pub accounts: Map<u16, OutputRecord>,
    pub disputed: Set<u32>,
}

/// The state before any transaction.
pub open spec fn empty_ledger() -> Ledger {
    Ledger { accounts: Map::empty(), disputed: Set::empty() }
}

/// What transaction `i` of `txs` does to the ledger: the account of its
/// client is created if it has none, then changed as `account_after` says,
/// and the disputes change as `disputed_after` says.
pub open spec fn ledger_after(state: Ledger, txs: Seq<InputRecord>, i: int) -> Option<
    Result<Ledger, Seq<char>>,
> {
    let client = txs[i].record_client;
    let acct = account_of(state.accounts, client);
    match account_after(acct, state.disputed, txs, i) {
        None => None,
        Some(Err(msg)) => Some(Err(msg)),
        Some(Ok(a)) => Some(
            Ok(
                Ledger {
                    accounts: state.accounts.insert(client, a),
                    disputed: disputed_after(acct, state.disputed, txs, i),
                },
            ),
        ),
    }
}

/// The ledger after the first `n` transactions of `txs`, applied in order
/// from the empty ledger; processing stops at the first error or overflow.
pub open spec fn ledger_prefix(txs: Seq<InputRecord>, n: nat) -> Option<Result<Ledger, Seq<char>>>
    decreases n,
{
    if n == 0 {
        Some(Ok(empty_ledger()))
    } else {
        match ledger_prefix(txs, (n - 1) as nat) {
            Some(Ok(state)) => ledger_after(state, txs, n - 1),
            stopped => stopped,
        }
    }
}

/// The ledger after all of `txs`.
pub open spec fn ledger(txs: Seq<InputRecord>) -> Option<Result<Ledger, Seq<char>>> {
    ledger_prefix(txs, txs.len())
}

/// Each account is stored under its own client id and holds valid amounts.
pub open spec fn ledger_wf(accounts: Map<u16, OutputRecord>) -> bool {
    forall|k: u16|
        #[trigger] accounts.contains_key(k) ==> accounts[k].record_client == k && accounts[k].wf()
}

/// Once processing has stopped, later transactions change nothing.
pub proof fn lemma_ledger_stopped(txs: Seq<InputRecord>, n: nat, m: nat)
    requires
        n <= m,
        !(ledger_prefix(txs, n) is Some && ledger_prefix(txs, n).unwrap() is Ok),
    ensures
        ledger_prefix(txs, m) == ledger_prefix(txs, n),
    decreases m - n,
{
    if n < m {
        lemma_ledger_stopped(txs, n, (m - 1) as nat);
    }
}

/// Applies all transactions, from the empty ledger, and returns the
/// accounts.
fn run_ledger(transactions: &[InputRecord]) -> (r: Option<
    Result<HashMap<u16, OutputRecord>, CommonError>,
>)
    requires
        transactions_wf(transactions@),
    ensures
        match ledger(transactions@) {
            None => r is None,
            Some(Err(msg)) => r matches Some(Err(e)) && is_processing_error(e, msg),
            Some(Ok(state)) => r matches Some(Ok(h)) && h@ == state.accounts && ledger_wf(
                state.accounts,
            ),
        },
{
    let n = transactions.len();
    let mut clients: HashMap<u16, OutputRecord> = HashMap::new();
    let mut disputed: HashSet<u32> = HashSet::new();
    let mut i: usize = 0;
    while i < n
        invariant
            n == transactions@.len(),
            0 <= i <= n,
            transactions_wf(transactions@),
            ledger_prefix(transactions@, i as nat) == Some(
                Ok::<Ledger, Seq<char>>(Ledger { accounts: clients@, disputed: disputed@ }),
            ),
            ledger_wf(clients@),
        decreases n - i,
    {
        let client_id = transactions[i].record_client;
        let account = match clients.get(&client_id) {
            Some(a) => *a,
            None => OutputRecord {
                record_client: client_id,
                record_available: Amount::zero(),
                record_held: Amount::zero(),
                record_total: Amount::zero(),
                record_locked: false,
            },
        };
        assert(account == account_of(clients@, client_id));
        let outcome = apply_transaction(account, &mut disputed, transactions, i);
        match outcome {
            None => {
                proof {
                    lemma_ledger_stopped(transactions@, (i + 1) as nat, n as nat);
                }
                return None;
            },
            Some(Err(e)) => {
                proof {
                    lemma_ledger_stopped(transactions@, (i + 1) as nat, n as nat);
                }
                return Some(Err(e));
            },
            Some(Ok(a)) => {
                clients.insert(client_id, a);
            },
        }
        i = i + 1;
    }
    Some(Ok(clients))
}

/// `v` lists the accounts of `m`, each once, in some order.
pub open spec fn lists_accounts(v: Seq<OutputRecord>, m: Map<u16, OutputRecord>) -> bool {
    &&& v.len() == m.dom().len()
    &&& forall|i: int|
        0 <= i < v.len() ==> #[trigger] m.contains_key(v[i].record_client) && m[v[i].record_client]
            == v[i]
    &&& forall|k: u16| #[trigger]
        m.contains_key(k) ==> exists|i: int| 0 <= i < v.len() && #[trigger] v[i].record_client == k
    &&& forall|i: int, j: int|
        0 <= i < j < v.len() ==> #[trigger] v[i].record_client != #[trigger] v[j].record_client
}

/// The accounts of `clients`, in the order the map hands them out.
fn collect_accounts(clients: &HashMap<u16, OutputRecord>) -> (r: Vec<OutputRecord>)
    requires
        ledger_wf(clients@),
    ensures
        lists_accounts(r@, clients@),
{
    let ghost m = clients@;
    let ghost pairs = spec_hash_map_iter(clients).remaining();
    let mut out: Vec<OutputRecord> = Vec::new();
    for entry in it: clients.iter()
        invariant
            it.seq() == pairs,
            out.len() == it.index(),
            forall|j: int| 0 <= j < out.len() ==> out[j] == *pairs[j].1,
    {
        out.push(*entry.1);
    }
    proof {
        assert(pairs.len() == m.dom().len());
        assert(pairs.no_duplicates());
        assert forall|i: int| 0 <= i < out.len() implies #[trigger] m.contains_key(
            out@[i].record_client,
        ) && m[out@[i].record_client] == out@[i] by {
            assert(m.contains_key(*pairs[i].0) && m[*pairs[i].0] == *pairs[i].1);
        }
        assert forall|k: u16| #[trigger] m.contains_key(k) implies exists|i: int|
            0 <= i < out.len() && #[trigger] out@[i].record_client == k by {
            assert(pairs.contains((&k, &m[k])));
            let i = choose|i: int| 0 <= i < pairs.len() && pairs[i] == (&k, &m[k]);
            assert(out@[i].record_client == k);
        }
        assert forall|i: int, j: int| 0 <= i < j < out.len() implies #[trigger] out@[i].record_client
            != #[trigger] out@[j].record_client by {
            assert(m.contains_key(*pairs[i].0) && m[*pairs[i].0] == *pairs[i].1);
            assert(m.contains_key(*pairs[j].0) && m[*pairs[j].0] == *pairs[j].1);
            if out@[i].record_client == out@[j].record_client {
                assert(pairs[i] == pairs[j]);
            }
        }
    }
    out
}


/// A decimal operation overflows somewhere while the transactions are
/// applied (before any error stops the processing).
pub open spec fn ledger_overflows(txs: Seq<InputRecord>) -> bool {
    ledger(txs) is None
}

/// `r` is what processing `txs` gives: the accounts that `ledger` ends
/// with, each once, or the processing error that stops it.
pub open spec fn payments_outcome(
    txs: Seq<InputRecord>,
    r: Result<Vec<OutputRecord>, CommonError>,
) -> bool {
    match ledger(txs) {
        Some(Ok(state)) => r matches Ok(v) && lists_accounts(v@, state.accounts),
        Some(Err(msg)) => r matches Err(e) && is_processing_error(e, msg),
        None => false,
    }
}

/// Applies the transactions in order and returns the state of every client
/// account that a transaction names, in no particular order.
///
/// A deposit or withdrawal without an amount stops the processing with an
/// error, also on a locked account; any other transaction of a locked
/// account is ignored. A dispute applies only to a deposit of the same
/// client (and holds it again where it is under dispute already); a resolve
/// or chargeback only to a deposit of the same client that is under
/// dispute, and ends that dispute. Any other dispute, resolve or chargeback changes nothing.
pub fn process_payments(transactions: Vec<InputRecord>) -> (r: Result<
    Vec<OutputRecord>,
    CommonError,
>)
    requires
        transactions_wf(transactions@),
        !ledger_overflows(transactions@),
    ensures
        payments_outcome(transactions@, r),
        r matches Ok(v) ==> forall|i: int| 0 <= i < v.len() ==> #[trigger] v[i].wf(),
{
    match run_ledger(transactions.as_slice()) {
        Some(Ok(clients)) => {
            let out = collect_accounts(&clients);
            proof {
                assert forall|i: int| 0 <= i < out.len() implies #[trigger] out[i].wf() by {
                    assert(clients@.contains_key(out@[i].record_client));
                }
            }
            Ok(out)
        },
        Some(Err(e)) => Err(e),
        None => unreached(),
    }
}

/// `process_payments` where no decimal operation overflows, and `None`
/// where one would (there the `+` and `-` of decimals panic). Whether one
/// would is found by applying the transactions; `process_payments` then
/// applies them again.
pub fn try_process_payments(transactions: Vec<InputRecord>) -> (r: Option<
    Result<Vec<OutputRecord>, CommonError>,
>)
    requires
        transactions_wf(transactions@),
    ensures
        r is None <==> ledger_overflows(transactions@),
        r matches Some(res) ==> payments_outcome(transactions@, res),
        r matches Some(Ok(v)) ==> forall|i: int| 0 <= i < v.len() ==> #[trigger] v[i].wf(),
{
    if run_ledger(transactions.as_slice()).is_some() {
        Some(process_payments(transactions))
    } else {
        None
    }
}

} // verus!
