//! What every transaction, and every run of the engine, keeps.
use crate::amount::{
    difference_fits, lemma_exact_difference, lemma_exact_sum, sum_fits, Amount,
};
use crate::models::{InputRecord, OutputRecord, TransactionType};
use crate::processor::{
    account_after, account_of, charge_back, credit, debit, disputed_after, dispute_opens,
    dispute_settles, first_with_tx, hold, lacks_amount, ledger, ledger_after, ledger_prefix,
    ledger_wf, missing_amount_message, new_account, referenced_deposit, release,
    transactions_wf, Ledger,
};
use vstd::prelude::*;

verus! {

/// A deposit of `amount` can be applied to `acct` exactly.
pub open spec fn credit_fits(acct: OutputRecord, amount: Amount) -> bool {
    sum_fits(acct.record_available, amount) && sum_fits(acct.record_total, amount)
}

/// A withdrawal of `amount` can be applied to `acct` exactly.
pub open spec fn debit_fits(acct: OutputRecord, amount: Amount) -> bool {
    difference_fits(acct.record_available, amount) && difference_fits(acct.record_total, amount)
}

/// A dispute of `amount` can be applied to `acct` exactly.
pub open spec fn hold_fits(acct: OutputRecord, amount: Amount) -> bool {
    difference_fits(acct.record_available, amount) && sum_fits(acct.record_held, amount)
}

/// A resolve of `amount` can be applied to `acct` exactly.
pub open spec fn release_fits(acct: OutputRecord, amount: Amount) -> bool {
    sum_fits(acct.record_available, amount) && difference_fits(acct.record_held, amount)
}

/// A chargeback of `amount` can be applied to `acct` exactly.
pub open spec fn charge_back_fits(acct: OutputRecord, amount: Amount) -> bool {
    difference_fits(acct.record_held, amount) && difference_fits(acct.record_total, amount)
}

/// Every decimal operation that transaction `i` performs on `acct` gives
/// the exact result.
pub open spec fn step_fits(
    acct: OutputRecord,
    disputed: Set<u32>,
    txs: Seq<InputRecord>,
    i: int,
) -> bool {
    let r = txs[i];
    let referenced = referenced_deposit(txs, r.record_client, r.record_tx);
    lacks_amount(r) || acct.record_locked || match r.record_type {
        TransactionType::Deposit => credit_fits(acct, r.record_amount.unwrap()),
        TransactionType::Withdrawal => {
            let amount = r.record_amount.unwrap();
            acct.record_available.value() < amount.value() || debit_fits(acct, amount)
        },
        TransactionType::Dispute => !dispute_opens(txs, r) || hold_fits(
            acct,
            referenced.unwrap(),
        ),
        TransactionType::Resolve => !dispute_settles(disputed, txs, r) || release_fits(
            acct,
            referenced.unwrap(),
        ),
        TransactionType::Chargeback => !dispute_settles(disputed, txs, r) || charge_back_fits(
            acct,
            referenced.unwrap(),
        ),
    }
}

/// Every decimal operation of the whole run gives the exact result.
pub open spec fn ledger_fits(txs: Seq<InputRecord>) -> bool {
    forall|j: int|
        0 <= j < txs.len() ==> (#[trigger] ledger_prefix(txs, j as nat) matches Some(Ok(s))
            ==> step_fits(account_of(s.accounts, txs[j].record_client), s.disputed, txs, j))
}

/// `b` is `acct` with its available, held and total funds moved by the
/// given numbers of units (of `10^-28`), the same client and lock, and valid
/// amounts.
pub open spec fn moved_by(
    acct: OutputRecord,
    b: OutputRecord,
    d_available: int,
    d_held: int,
    d_total: int,
) -> bool {
    &&& b.wf()
    &&& b.record_client == acct.record_client
    &&& b.record_locked == acct.record_locked
    &&& b.record_available.value() == acct.record_available.value() + d_available
    &&& b.record_held.value() == acct.record_held.value() + d_held
    &&& b.record_total.value() == acct.record_total.value() + d_total
}

/// The total funds of `acct` are its available plus its held funds.
pub open spec fn balanced(acct: OutputRecord) -> bool {
    acct.record_total.value() == acct.record_available.value() + acct.record_held.value()
}

proof fn lemma_credit(acct: OutputRecord, amount: Amount)
    requires
        acct.wf(),
        amount.wf(),
        credit_fits(acct, amount),
    ensures
        credit(acct, amount) matches Some(b) && moved_by(acct, b, amount.value(), 0, amount.value()),
{
    lemma_exact_sum(acct.record_available, amount);
    lemma_exact_sum(acct.record_total, amount);
}

proof fn lemma_debit(acct: OutputRecord, amount: Amount)
    requires
        acct.wf(),
        amount.wf(),
        debit_fits(acct, amount),
    ensures
        debit(acct, amount) matches Some(b) && moved_by(
            acct,
            b,
            -amount.value(),
            0,
            -amount.value(),
        ),
{
    lemma_exact_difference(acct.record_available, amount);
    lemma_exact_difference(acct.record_total, amount);
}

proof fn lemma_hold(acct: OutputRecord, amount: Amount)
    requires
        acct.wf(),
        amount.wf(),
        hold_fits(acct, amount),
    ensures
        hold(acct, amount) matches Some(b) && moved_by(acct, b, -amount.value(), amount.value(), 0),
{
    lemma_exact_difference(acct.record_available, amount);
    lemma_exact_sum(acct.record_held, amount);
}

proof fn lemma_release(acct: OutputRecord, amount: Amount)
    requires
        acct.wf(),
        amount.wf(),
        release_fits(acct, amount),
    ensures
        release(acct, amount) matches Some(b) && moved_by(
            acct,
            b,
            amount.value(),
            -amount.value(),
            0,
        ),
{
    lemma_exact_sum(acct.record_available, amount);
    lemma_exact_difference(acct.record_held, amount);
}

proof fn lemma_charge_back(acct: OutputRecord, amount: Amount)
    requires
        acct.wf(),
        amount.wf(),
        charge_back_fits(acct, amount),
    ensures
        charge_back(acct, amount) matches Some(b) && b.wf() && b.record_locked && b.record_client
            == acct.record_client && b.record_available == acct.record_available
            && b.record_held.value() == acct.record_held.value() - amount.value()
            && b.record_total.value() == acct.record_total.value() - amount.value(),
{
    lemma_exact_difference(acct.record_held, amount);
    lemma_exact_difference(acct.record_total, amount);
}

/// A referenced deposit's amount is a valid one.
proof fn lemma_referenced_deposit_wf(txs: Seq<InputRecord>, client: u16, tx: u32)
    requires
        transactions_wf(txs),
    ensures
        referenced_deposit(txs, client, tx) matches Some(a) ==> a.wf(),
    decreases txs.len(),
{
    if txs.len() > 0 {
        assert(txs[0].wf());
        if txs[0].record_tx != tx {
            assert forall|i: int| 0 <= i < txs.drop_first().len() implies #[trigger] txs.drop_first()[i].wf() by {
                assert(txs[i + 1].wf());
            }
            lemma_referenced_deposit_wf(txs.drop_first(), client, tx);
        }
    }
}

/// A deposit or a withdrawal without an amount stops the processing with
/// an error that says which, also on a locked account.
pub proof fn law_missing_amount_is_an_error(
    acct: OutputRecord,
    disputed: Set<u32>,
    txs: Seq<InputRecord>,
    i: int,
)
    requires
        0 <= i < txs.len(),
        lacks_amount(txs[i]),
    ensures
        account_after(acct, disputed, txs, i) == Some(
            Err::<OutputRecord, Seq<char>>(missing_amount_message(txs[i])),
        ),
{
}

/// A locked account is never changed, and no dispute opens or settles on
/// it: every transaction of a locked account that has its amount is ignored.
pub proof fn law_locked_account_is_frozen(
    acct: OutputRecord,
    disputed: Set<u32>,
    txs: Seq<InputRecord>,
    i: int,
)
    requires
        0 <= i < txs.len(),
        acct.record_locked,
        !lacks_amount(txs[i]),
    ensures
        account_after(acct, disputed, txs, i) == Some(Ok::<OutputRecord, Seq<char>>(acct)),
        disputed_after(acct, disputed, txs, i) == disputed,
{
}

/// A deposit adds its amount to the available and the total funds of an
/// unlocked account and leaves the held funds and the disputes alone.
pub proof fn law_deposit(
    acct: OutputRecord,
    disputed: Set<u32>,
    txs: Seq<InputRecord>,
    i: int,
    amount: Amount,
)
    requires
        0 <= i < txs.len(),
        acct.wf(),
        amount.wf(),
        !acct.record_locked,
        txs[i].record_type == TransactionType::Deposit,
        txs[i].record_amount == Some(amount),
        credit_fits(acct, amount),
    ensures
        account_after(acct, disputed, txs, i) matches Some(Ok(b)) && moved_by(
            acct,
            b,
            amount.value(),
            0,
            amount.value(),
        ),
        disputed_after(acct, disputed, txs, i) == disputed,
{
    lemma_credit(acct, amount);
}

/// A withdrawal that the available funds cover (also exactly) removes its
/// amount from the available and total funds, which leaves the available
/// funds at zero or above; one that they do not cover changes nothing.
pub proof fn law_withdrawal(
    acct: OutputRecord,
    disputed: Set<u32>,
    txs: Seq<InputRecord>,
    i: int,
    amount: Amount,
)
    requires
        0 <= i < txs.len(),
        acct.wf(),
        amount.wf(),
        !acct.record_locked,
        txs[i].record_type == TransactionType::Withdrawal,
        txs[i].record_amount == Some(amount),
    ensures
        disputed_after(acct, disputed, txs, i) == disputed,
        acct.record_available.value() < amount.value() ==> account_after(acct, disputed, txs, i)
            == Some(Ok::<OutputRecord, Seq<char>>(acct)),
        acct.record_available.value() >= amount.value() && debit_fits(acct, amount) ==> (
        account_after(acct, disputed, txs, i) matches Some(Ok(b)) && moved_by(
            acct,
            b,
            -amount.value(),
            0,
            -amount.value(),
        ) && b.record_available.value() >= 0),
{
    if acct.record_available.value() >= amount.value() && debit_fits(acct, amount) {
        lemma_debit(acct, amount);
    }
}

/// A dispute of a deposit of the same client moves the deposit's amount
/// from available to held funds, whatever the available funds are (again
/// where the deposit is under dispute already), and puts the deposit under
/// dispute. A dispute of anything else (another client's deposit, a
/// withdrawal, an unknown id) changes nothing.
pub proof fn law_dispute(acct: OutputRecord, disputed: Set<u32>, txs: Seq<InputRecord>, i: int)
    requires
        0 <= i < txs.len(),
        transactions_wf(txs),
        acct.wf(),
        !acct.record_locked,
        txs[i].record_type == TransactionType::Dispute,
    ensures
        ({
            let r = txs[i];
            let amount = referenced_deposit(txs, r.record_client, r.record_tx).unwrap();
            if dispute_opens(txs, r) {
                &&& disputed_after(acct, disputed, txs, i) == disputed.insert(r.record_tx)
                &&& hold_fits(acct, amount) ==> (account_after(acct, disputed, txs, i) matches Some(
                    Ok(b),
                ) && moved_by(acct, b, -amount.value(), amount.value(), 0))
            } else {
                &&& disputed_after(acct, disputed, txs, i) == disputed
                &&& account_after(acct, disputed, txs, i) == Some(
                    Ok::<OutputRecord, Seq<char>>(acct),
                )
            }
        }),
{
    let r = txs[i];
    lemma_referenced_deposit_wf(txs, r.record_client, r.record_tx);
    if dispute_opens(txs, r) {
        let amount = referenced_deposit(txs, r.record_client, r.record_tx).unwrap();
        if hold_fits(acct, amount) {
            lemma_hold(acct, amount);
        }
    }
}

/// A resolve of a deposit of the same client that is under dispute moves
/// the deposit's amount from held back to available funds and ends the
/// dispute; any other resolve changes nothing.
pub proof fn law_resolve(acct: OutputRecord, disputed: Set<u32>, txs: Seq<InputRecord>, i: int)
    requires
        0 <= i < txs.len(),
        transactions_wf(txs),
        acct.wf(),
        !acct.record_locked,
        txs[i].record_type == TransactionType::Resolve,
    ensures
        ({
            let r = txs[i];
            let amount = referenced_deposit(txs, r.record_client, r.record_tx).unwrap();
            if dispute_settles(disputed, txs, r) {
                &&& disputed_after(acct, disputed, txs, i) == disputed.remove(r.record_tx)
                &&& release_fits(acct, amount) ==> (account_after(acct, disputed, txs, i) matches Some(
                    Ok(b),
                ) && moved_by(acct, b, amount.value(), -amount.value(), 0))
            } else {
                &&& disputed_after(acct, disputed, txs, i) == disputed
                &&& account_after(acct, disputed, txs, i) == Some(
                    Ok::<OutputRecord, Seq<char>>(acct),
                )
            }
        }),
{
    let r = txs[i];
    lemma_referenced_deposit_wf(txs, r.record_client, r.record_tx);
    if dispute_settles(disputed, txs, r) {
        let amount = referenced_deposit(txs, r.record_client, r.record_tx).unwrap();
        if release_fits(acct, amount) {
            lemma_release(acct, amount);
        }
    }
}

/// A chargeback of a deposit of the same client that is under dispute
/// removes the deposit's amount from held and total funds, locks the
/// account and ends the dispute; any other chargeback changes nothing.
pub proof fn law_chargeback(acct: OutputRecord, disputed: Set<u32>, txs: Seq<InputRecord>, i: int)
    requires
        0 <= i < txs.len(),
        transactions_wf(txs),
        acct.wf(),
        !acct.record_locked,
        txs[i].record_type == TransactionType::Chargeback,
    ensures
        ({
            let r = txs[i];
            let amount = referenced_deposit(txs, r.record_client, r.record_tx).unwrap();
            if dispute_settles(disputed, txs, r) {
                &&& disputed_after(acct, disputed, txs, i) == disputed.remove(r.record_tx)
                &&& charge_back_fits(acct, amount) ==> (account_after(
                    acct,
                    disputed,
                    txs,
                    i,
                ) matches Some(Ok(b)) && b.wf() && b.record_locked && b.record_client
                    == acct.record_client && b.record_available == acct.record_available
                    && b.record_held.value() == acct.record_held.value() - amount.value()
                    && b.record_total.value() == acct.record_total.value() - amount.value())
            } else {
                &&& disputed_after(acct, disputed, txs, i) == disputed
                &&& account_after(acct, disputed, txs, i) == Some(
                    Ok::<OutputRecord, Seq<char>>(acct),
                )
            }
        }),
{
    let r = txs[i];
    lemma_referenced_deposit_wf(txs, r.record_client, r.record_tx);
    if dispute_settles(disputed, txs, r) {
        let amount = referenced_deposit(txs, r.record_client, r.record_tx).unwrap();
        if charge_back_fits(acct, amount) {
            lemma_charge_back(acct, amount);
        }
    }
}

/// A transaction whose decimal operations are exact keeps an account's
/// total funds equal to its available plus held funds, and its amounts
/// valid.
pub proof fn law_transaction_keeps_balance(
    acct: OutputRecord,
    disputed: Set<u32>,
    txs: Seq<InputRecord>,
    i: int,
)
    requires
        0 <= i < txs.len(),
        transactions_wf(txs),
        acct.wf(),
        balanced(acct),
        step_fits(acct, disputed, txs, i),
    ensures
        account_after(acct, disputed, txs, i) is Some,
        account_after(acct, disputed, txs, i) matches Some(Ok(b)) ==> b.wf() && balanced(b)
            && b.record_client == acct.record_client,
{
    let r = txs[i];
    assert(txs[i].wf());
    lemma_referenced_deposit_wf(txs, r.record_client, r.record_tx);
    if !lacks_amount(r) && !acct.record_locked {
        match r.record_type {
            TransactionType::Deposit => {
                lemma_credit(acct, r.record_amount.unwrap());
            },
            TransactionType::Withdrawal => {
                let amount = r.record_amount.unwrap();
                if acct.record_available.value() >= amount.value() {
                    lemma_debit(acct, amount);
                }
            },
            TransactionType::Dispute => {
                if dispute_opens(txs, r) {
                    lemma_hold(acct, referenced_deposit(txs, r.record_client, r.record_tx).unwrap());
                }
            },
            TransactionType::Resolve => {
                if dispute_settles(disputed, txs, r) {
                    lemma_release(
                        acct,
                        referenced_deposit(txs, r.record_client, r.record_tx).unwrap(),
                    );
                }
            },
            TransactionType::Chargeback => {
                if dispute_settles(disputed, txs, r) {
                    lemma_charge_back(
                        acct,
                        referenced_deposit(txs, r.record_client, r.record_tx).unwrap(),
                    );
                }
            },
        }
    }
}

/// Every account is valid and balanced.
pub open spec fn all_balanced(accounts: Map<u16, OutputRecord>) -> bool {
    &&& ledger_wf(accounts)
    &&& forall|k: u16| #[trigger] accounts.contains_key(k) ==> balanced(accounts[k])
}

proof fn lemma_prefix_balanced(txs: Seq<InputRecord>, n: nat)
    requires
        n <= txs.len(),
        transactions_wf(txs),
        ledger_fits(txs),
    ensures
        ledger_prefix(txs, n) is Some,
        ledger_prefix(txs, n) matches Some(Ok(s)) ==> all_balanced(s.accounts),
    decreases n,
{
    if n > 0 {
        let j = (n - 1) as nat;
        lemma_prefix_balanced(txs, j);
        if let Some(Ok(s)) = ledger_prefix(txs, j) {
            let m = s.accounts;
            let client = txs[j as int].record_client;
            let acct = account_of(m, client);
            assert(ledger_prefix(txs, j) matches Some(Ok(s)));
            assert(step_fits(acct, s.disputed, txs, j as int));
            if m.contains_key(client) {
                assert(acct.wf() && balanced(acct));
            } else {
                let p = crate::amount::pow10(28);
                assert(0 * p == 0) by (nonlinear_arith);
                assert(new_account(client).record_available.value() == 0);
                assert(acct.wf() && balanced(acct));
            }
            law_transaction_keeps_balance(acct, s.disputed, txs, j as int);
            if let Some(Ok(b)) = account_after(acct, s.disputed, txs, j as int) {
                let m2 = m.insert(client, b);
                assert forall|k: u16| #[trigger] m2.contains_key(k) implies m2[k].record_client == k
                    && m2[k].wf() && balanced(m2[k]) by {
                    if k != client {
                        assert(m.contains_key(k));
                    }
                }
            }
        }
    }
}

/// Where every decimal operation of a run is exact, the run does not
/// overflow, and every account it ends with has valid amounts and total
/// funds equal to its available plus held funds.
pub proof fn law_total_is_available_plus_held(txs: Seq<InputRecord>)
    requires
        transactions_wf(txs),
        ledger_fits(txs),
    ensures
        ledger(txs) is Some,
        ledger(txs) matches Some(Ok(s)) ==> all_balanced(s.accounts),
{
    lemma_prefix_balanced(txs, txs.len());
}

/// A transaction changes no account but its own client's.
pub proof fn law_other_accounts_unchanged(state: Ledger, txs: Seq<InputRecord>, i: int, k: u16)
    requires
        0 <= i < txs.len(),
        k != txs[i].record_client,
    ensures
        ledger_after(state, txs, i) matches Some(Ok(s)) ==> (s.accounts.contains_key(k)
            == state.accounts.contains_key(k) && (state.accounts.contains_key(k)
            ==> s.accounts[k] == state.accounts[k])),
{
}

proof fn lemma_prefix_clients(txs: Seq<InputRecord>, n: nat)
    requires
        n <= txs.len(),
    ensures
        ledger_prefix(txs, n) matches Some(Ok(s)) ==> forall|k: u16|
            #[trigger] s.accounts.contains_key(k) <==> exists|i: int|
                0 <= i < n && #[trigger] txs[i].record_client == k,
    decreases n,
{
    if n > 0 {
        let j = (n - 1) as nat;
        lemma_prefix_clients(txs, j);
        if let Some(Ok(s)) = ledger_prefix(txs, j) {
            let m = s.accounts;
            if let Some(Ok(s2)) = ledger_prefix(txs, n) {
                let m2 = s2.accounts;
                assert forall|k: u16| #[trigger] m2.contains_key(k) <==> exists|i: int|
                    0 <= i < n && #[trigger] txs[i].record_client == k by {
                    if m2.contains_key(k) && k != txs[j as int].record_client {
                        assert(m.contains_key(k));
                        let i = choose|i: int| 0 <= i < j && #[trigger] txs[i].record_client == k;
                        assert(0 <= i < n && txs[i].record_client == k);
                    }
                    if exists|i: int| 0 <= i < n && #[trigger] txs[i].record_client == k {
                        let i = choose|i: int| 0 <= i < n && #[trigger] txs[i].record_client == k;
                        if i < j {
                            assert(m.contains_key(k));
                        }
                    }
                }
            }
        }
    }
}

/// A successful run has exactly one account for each client that some
/// transaction names.
pub proof fn law_accounts_are_the_named_clients(txs: Seq<InputRecord>)
    ensures
        ledger(txs) matches Some(Ok(s)) ==> forall|k: u16|
            #[trigger] s.accounts.contains_key(k) <==> exists|i: int|
                0 <= i < txs.len() && #[trigger] txs[i].record_client == k,
{
    lemma_prefix_clients(txs, txs.len());
}

/// Once an account is locked, no later transaction of a run that goes on
/// changes it.
pub proof fn law_locked_account_stays_locked(txs: Seq<InputRecord>, n: nat, n2: nat, k: u16)
    requires
        n <= n2 <= txs.len(),
        ledger_prefix(txs, n) matches Some(Ok(s)) && s.accounts.contains_key(k)
            && s.accounts[k].record_locked,
        ledger_prefix(txs, n2) is Some && ledger_prefix(txs, n2).unwrap() is Ok,
    ensures
        ledger_prefix(txs, n2) matches Some(Ok(s2)) && ledger_prefix(txs, n) matches Some(Ok(s))
            && s2.accounts.contains_key(k) && s2.accounts[k] == s.accounts[k],
    decreases n2 - n,
{
    if n < n2 {
        let j = (n2 - 1) as nat;
        if !(ledger_prefix(txs, j) is Some && ledger_prefix(txs, j).unwrap() is Ok) {
            crate::processor::lemma_ledger_stopped(txs, j, n2);
        }
        law_locked_account_stays_locked(txs, n, j, k);
    }
}

/// The first transaction with an id that occurs in `s` is the same in `s`
/// with a transaction appended.
proof fn lemma_first_with_tx_push(s: Seq<InputRecord>, r: InputRecord, tx: u32, k: int)
    requires
        0 <= k < s.len(),
        s[k].record_tx == tx,
    ensures
        first_with_tx(s.push(r), tx) == first_with_tx(s, tx),
    decreases s.len(),
{
    if s[0].record_tx != tx {
        assert(s.push(r).drop_first() =~= s.drop_first().push(r));
        lemma_first_with_tx_push(s.drop_first(), r, tx, k - 1);
    }
}

/// Appending a transaction does not change what the earlier ones do.
proof fn lemma_prefix_push(xs: Seq<InputRecord>, r: InputRecord, n: nat)
    requires
        n <= xs.len(),
    ensures
        ledger_prefix(xs.push(r), n) == ledger_prefix(xs, n),
    decreases n,
{
    if n > 0 {
        let j = n - 1;
        lemma_prefix_push(xs, r, (n - 1) as nat);
        lemma_first_with_tx_push(xs, r, xs[j].record_tx, j);
        assert(xs.push(r)[j] == xs[j]);
    }
}

/// Processing `xs` followed by `r` is processing `xs`, then applying `r`
/// to the ledger it ends with: the earlier transactions never look at a
/// later one.
pub proof fn law_append(xs: Seq<InputRecord>, r: InputRecord)
    ensures
        ledger(xs.push(r)) == match ledger(xs) {
            Some(Ok(state)) => ledger_after(state, xs.push(r), xs.len() as int),
            stopped => stopped,
        },
{
    lemma_prefix_push(xs, r, xs.len());
    assert(xs.push(r).len() == xs.len() + 1);
}

/// The ledger that processing `xs` ends with, where it ends with one.
pub open spec fn final_ledger(xs: Seq<InputRecord>) -> Ledger {
    ledger(xs).unwrap()->Ok_0
}

/// Processing `xs` ends with a ledger.
pub open spec fn ends_ok(xs: Seq<InputRecord>) -> bool {
    ledger(xs) is Some && ledger(xs).unwrap() is Ok
}

/// `s2` is `s` with the account of `c` replaced by `b` (created where `c`
/// had none).
pub open spec fn only_account_changed(s: Ledger, s2: Ledger, c: u16, b: OutputRecord) -> bool {
    s2.accounts == s.accounts.insert(c, b)
}

/// A deposit appended to a run that succeeds adds its amount to the
/// available and total funds of its unlocked client and changes nothing
/// else.
pub proof fn law_append_deposit(xs: Seq<InputRecord>, r: InputRecord, amount: Amount)
    requires
        ends_ok(xs),
        account_of(final_ledger(xs).accounts, r.record_client).wf(),
        amount.wf(),
        !account_of(final_ledger(xs).accounts, r.record_client).record_locked,
        r.record_type == TransactionType::Deposit,
        r.record_amount == Some(amount),
        credit_fits(account_of(final_ledger(xs).accounts, r.record_client), amount),
    ensures
        ({
            let s = final_ledger(xs);
            let a = account_of(s.accounts, r.record_client);
            ledger(xs.push(r)) matches Some(Ok(s2)) && s2.disputed == s.disputed
                && only_account_changed(s, s2, r.record_client, s2.accounts[r.record_client])
                && moved_by(a, s2.accounts[r.record_client], amount.value(), 0, amount.value())
        }),
{
    law_append(xs, r);
    let s = final_ledger(xs);
    law_deposit(account_of(s.accounts, r.record_client), s.disputed, xs.push(r), xs.len() as int, amount);
}

/// A withdrawal appended to a run that succeeds removes its amount from the
/// available and total funds of its unlocked client where they cover it
/// (also exactly), and otherwise changes nothing.
pub proof fn law_append_withdrawal(xs: Seq<InputRecord>, r: InputRecord, amount: Amount)
    requires
        ends_ok(xs),
        account_of(final_ledger(xs).accounts, r.record_client).wf(),
        amount.wf(),
        !account_of(final_ledger(xs).accounts, r.record_client).record_locked,
        r.record_type == TransactionType::Withdrawal,
        r.record_amount == Some(amount),
    ensures
        ({
            let s = final_ledger(xs);
            let a = account_of(s.accounts, r.record_client);
            &&& a.record_available.value() < amount.value() ==> ledger(xs.push(r)) == Some(
                Ok::<Ledger, Seq<char>>(
                    Ledger { accounts: s.accounts.insert(r.record_client, a), disputed: s.disputed },
                ),
            )
            &&& a.record_available.value() >= amount.value() && debit_fits(a, amount) ==> (ledger(
                xs.push(r),
            ) matches Some(Ok(s2)) && s2.disputed == s.disputed && only_account_changed(
                s,
                s2,
                r.record_client,
                s2.accounts[r.record_client],
            ) && moved_by(a, s2.accounts[r.record_client], -amount.value(), 0, -amount.value()))
        }),
{
    law_append(xs, r);
    let s = final_ledger(xs);
    law_withdrawal(
        account_of(s.accounts, r.record_client),
        s.disputed,
        xs.push(r),
        xs.len() as int,
        amount,
    );
}

/// A dispute appended to a run that succeeds, by an unlocked client, of its
/// own deposit, moves the deposit's amount from available to held funds
/// (available funds may go below zero; a deposit under dispute already is
/// held again) and puts the deposit under dispute; any other dispute changes
/// no funds.
pub proof fn law_append_dispute(xs: Seq<InputRecord>, r: InputRecord)
    requires
        ends_ok(xs),
        transactions_wf(xs.push(r)),
        account_of(final_ledger(xs).accounts, r.record_client).wf(),
        !account_of(final_ledger(xs).accounts, r.record_client).record_locked,
        r.record_type == TransactionType::Dispute,
    ensures
        ({
            let s = final_ledger(xs);
            let ys = xs.push(r);
            let a = account_of(s.accounts, r.record_client);
            let amount = referenced_deposit(ys, r.record_client, r.record_tx).unwrap();
            if dispute_opens(ys, r) {
                hold_fits(a, amount) ==> (ledger(ys) matches Some(Ok(s2)) && s2.disputed
                    == s.disputed.insert(r.record_tx) && only_account_changed(
                    s,
                    s2,
                    r.record_client,
                    s2.accounts[r.record_client],
                ) && moved_by(a, s2.accounts[r.record_client], -amount.value(), amount.value(), 0))
            } else {
                ledger(ys) == Some(
                    Ok::<Ledger, Seq<char>>(
                        Ledger { accounts: s.accounts.insert(r.record_client, a), disputed: s.disputed },
                    ),
                )
            }
        }),
{
    law_append(xs, r);
    let s = final_ledger(xs);
    assert(xs.push(r)[xs.len() as int] == r);
    law_dispute(account_of(s.accounts, r.record_client), s.disputed, xs.push(r), xs.len() as int);
}

/// A resolve appended to a run that succeeds, by an unlocked client, of its
/// own deposit that is under dispute, moves the deposit's amount from held
/// back to available funds and ends the dispute; any other resolve (of a
/// deposit not under dispute, or another client's) changes no funds.
pub proof fn law_append_resolve(xs: Seq<InputRecord>, r: InputRecord)
    requires
        ends_ok(xs),
        transactions_wf(xs.push(r)),
        account_of(final_ledger(xs).accounts, r.record_client).wf(),
        !account_of(final_ledger(xs).accounts, r.record_client).record_locked,
        r.record_type == TransactionType::Resolve,
    ensures
        ({
            let s = final_ledger(xs);
            let ys = xs.push(r);
            let a = account_of(s.accounts, r.record_client);
            let amount = referenced_deposit(ys, r.record_client, r.record_tx).unwrap();
            if dispute_settles(s.disputed, ys, r) {
                release_fits(a, amount) ==> (ledger(ys) matches Some(Ok(s2)) && s2.disputed
                    == s.disputed.remove(r.record_tx) && only_account_changed(
                    s,
                    s2,
                    r.record_client,
                    s2.accounts[r.record_client],
                ) && moved_by(a, s2.accounts[r.record_client], amount.value(), -amount.value(), 0))
            } else {
                ledger(ys) == Some(
                    Ok::<Ledger, Seq<char>>(
                        Ledger { accounts: s.accounts.insert(r.record_client, a), disputed: s.disputed },
                    ),
                )
            }
        }),
{
    law_append(xs, r);
    let s = final_ledger(xs);
    assert(xs.push(r)[xs.len() as int] == r);
    law_resolve(account_of(s.accounts, r.record_client), s.disputed, xs.push(r), xs.len() as int);
}

/// A chargeback appended to a run that succeeds, by an unlocked client, of
/// its own deposit that is under dispute, removes the deposit's amount from
/// held and total funds (total funds may go below zero), locks the account
/// and ends the dispute; any other chargeback changes no funds.
pub proof fn law_append_chargeback(xs: Seq<InputRecord>, r: InputRecord)
    requires
        ends_ok(xs),
        transactions_wf(xs.push(r)),
        account_of(final_ledger(xs).accounts, r.record_client).wf(),
        !account_of(final_ledger(xs).accounts, r.record_client).record_locked,
        r.record_type == TransactionType::Chargeback,
    ensures
        ({
            let s = final_ledger(xs);
            let ys = xs.push(r);
            let a = account_of(s.accounts, r.record_client);
            let amount = referenced_deposit(ys, r.record_client, r.record_tx).unwrap();
            if dispute_settles(s.disputed, ys, r) {
                charge_back_fits(a, amount) ==> (ledger(ys) matches Some(Ok(s2)) && s2.disputed
                    == s.disputed.remove(r.record_tx) && only_account_changed(
                    s,
                    s2,
                    r.record_client,
                    s2.accounts[r.record_client],
                ) && s2.accounts[r.record_client].record_locked
                    && s2.accounts[r.record_client].record_available == a.record_available
                    && s2.accounts[r.record_client].record_held.value() == a.record_held.value()
                    - amount.value() && s2.accounts[r.record_client].record_total.value()
                    == a.record_total.value() - amount.value())
            } else {
                ledger(ys) == Some(
                    Ok::<Ledger, Seq<char>>(
                        Ledger { accounts: s.accounts.insert(r.record_client, a), disputed: s.disputed },
                    ),
                )
            }
        }),
{
    law_append(xs, r);
    let s = final_ledger(xs);
    assert(xs.push(r)[xs.len() as int] == r);
    law_chargeback(account_of(s.accounts, r.record_client), s.disputed, xs.push(r), xs.len() as int);
}

/// A deposit or withdrawal without an amount appended to a run that
/// succeeds makes the whole run fail with the error that says which.
pub proof fn law_append_missing_amount(xs: Seq<InputRecord>, r: InputRecord)
    requires
        ends_ok(xs),
        lacks_amount(r),
    ensures
        ledger(xs.push(r)) == Some(Err::<Ledger, Seq<char>>(missing_amount_message(r))),
{
    law_append(xs, r);
    assert(xs.push(r)[xs.len() as int] == r);
}

/// A transaction with its amount appended to a run that succeeds, by a
/// client whose account is locked, changes nothing at all.
pub proof fn law_append_to_locked_account(xs: Seq<InputRecord>, r: InputRecord)
    requires
        ends_ok(xs),
        final_ledger(xs).accounts.contains_key(r.record_client),
        final_ledger(xs).accounts[r.record_client].record_locked,
        !lacks_amount(r),
    ensures
        ledger(xs.push(r)) == Some(Ok::<Ledger, Seq<char>>(final_ledger(xs))),
{
    law_append(xs, r);
    let s = final_ledger(xs);
    assert(xs.push(r)[xs.len() as int] == r);
    assert(s.accounts.insert(r.record_client, s.accounts[r.record_client]) =~= s.accounts);
}


/// The account of client `c` that its next transaction acts on: the one
/// stored for `c`, or, for a client that has none yet, one with no funds
/// that is not locked.
pub open spec fn account_before(s: Ledger, c: u16) -> OutputRecord {
    if s.accounts.contains_key(c) {
        s.accounts[c]
    } else {
        OutputRecord {
            record_client: c,
            record_available: Amount { mantissa: 0, scale: 0 },
            record_held: Amount { mantissa: 0, scale: 0 },
            record_total: Amount { mantissa: 0, scale: 0 },
            record_locked: false,
        }
    }
}

/// Transaction `d` is a deposit of client `c` with amount `a`.
pub open spec fn is_deposit_of(d: InputRecord, c: u16, a: Amount) -> bool {
    &&& d.record_type == TransactionType::Deposit
    &&& d.record_client == c
    &&& d.record_amount == Some(a)
}

/// The first transaction of `txs` with id `tx` is a deposit of client `c`
/// that has an amount.
pub open spec fn names_own_deposit(txs: Seq<InputRecord>, c: u16, tx: u32) -> bool {
    first_with_tx(txs, tx) matches Some(d) && d.record_type == TransactionType::Deposit
        && d.record_client == c && d.record_amount is Some
}

/// A transaction acts on the account that the earlier ones left for its
/// client, and a client's first transaction acts on an account with no
/// funds that is not locked.
pub proof fn law_transactions_act_on_the_stored_account(accounts: Map<u16, OutputRecord>, c: u16)
    ensures
        accounts.contains_key(c) ==> account_of(accounts, c) == accounts[c],
        !accounts.contains_key(c) ==> account_of(accounts, c) == (OutputRecord {
            record_client: c,
            record_available: Amount { mantissa: 0, scale: 0 },
            record_held: Amount { mantissa: 0, scale: 0 },
            record_total: Amount { mantissa: 0, scale: 0 },
            record_locked: false,
        }),
{
}

/// Facts shared by the laws on one appended transaction.
proof fn lemma_appended(xs: Seq<InputRecord>, r: InputRecord)
    requires
        ends_ok(xs),
    ensures
        xs.push(r)[xs.len() as int] == r,
        ledger(xs.push(r)) == ledger_after(final_ledger(xs), xs.push(r), xs.len() as int),
        account_of(final_ledger(xs).accounts, r.record_client) == account_before(
            final_ledger(xs),
            r.record_client,
        ),
{
    law_append(xs, r);
}

/// A deposit with amount `a`, appended to a run that succeeds, on an
/// unlocked account (a client's first transaction included) raises its
/// available and total funds by `a`, leaves its held funds and lock alone,
/// and changes no other account and no dispute.
pub proof fn law_deposit_credits_the_account(xs: Seq<InputRecord>, r: InputRecord, a: Amount)
    requires
        ends_ok(xs),
        r.record_type == TransactionType::Deposit,
        r.record_amount == Some(a),
        a.wf(),
        account_before(final_ledger(xs), r.record_client).wf(),
        !account_before(final_ledger(xs), r.record_client).record_locked,
        credit_fits(account_before(final_ledger(xs), r.record_client), a),
    ensures
        ({
            let s = final_ledger(xs);
            let c = r.record_client;
            let before = account_before(s, c);
            ledger(xs.push(r)) matches Some(Ok(s2)) && s2.disputed == s.disputed && s2.accounts
                == s.accounts.insert(c, s2.accounts[c]) && moved_by(
                before,
                s2.accounts[c],
                a.value(),
                0,
                a.value(),
            ) && !s2.accounts[c].record_locked
        }),
{
    lemma_appended(xs, r);
    let s = final_ledger(xs);
    law_deposit(account_before(s, r.record_client), s.disputed, xs.push(r), xs.len() as int, a);
}

/// A withdrawal of `a`, appended to a run that succeeds, on an unlocked
/// account lowers its available and total funds by `a` where its available
/// funds are at least `a`, and changes nothing where they are less; it
/// changes no other account and no dispute.
pub proof fn law_withdrawal_debits_the_account(xs: Seq<InputRecord>, r: InputRecord, a: Amount)
    requires
        ends_ok(xs),
        r.record_type == TransactionType::Withdrawal,
        r.record_amount == Some(a),
        a.wf(),
        account_before(final_ledger(xs), r.record_client).wf(),
        !account_before(final_ledger(xs), r.record_client).record_locked,
    ensures
        ({
            let s = final_ledger(xs);
            let c = r.record_client;
            let before = account_before(s, c);
            &&& before.record_available.value() < a.value() ==> ledger(xs.push(r)) == Some(
                Ok::<Ledger, Seq<char>>(
                    Ledger { accounts: s.accounts.insert(c, before), disputed: s.disputed },
                ),
            )
            &&& before.record_available.value() >= a.value() && debit_fits(before, a) ==> (ledger(
                xs.push(r),
            ) matches Some(Ok(s2)) && s2.disputed == s.disputed && s2.accounts == s.accounts.insert(
                c,
                s2.accounts[c],
            ) && moved_by(before, s2.accounts[c], -a.value(), 0, -a.value()))
        }),
{
    lemma_appended(xs, r);
    let s = final_ledger(xs);
    law_withdrawal(account_before(s, r.record_client), s.disputed, xs.push(r), xs.len() as int, a);
}

/// A dispute, appended to a run that succeeds, whose id first names a
/// deposit `d` of amount `a` of the same, unlocked client, lowers the
/// client's available funds by `a` (also below zero) and raises its held
/// funds by `a`, whatever `a` is, leaves its total funds alone, and puts
/// the deposit under dispute; no other account changes.
pub proof fn law_dispute_holds_the_deposit(
    xs: Seq<InputRecord>,
    r: InputRecord,
    d: InputRecord,
    a: Amount,
)
    requires
        ends_ok(xs),
        transactions_wf(xs.push(r)),
        r.record_type == TransactionType::Dispute,
        first_with_tx(xs.push(r), r.record_tx) == Some(d),
        is_deposit_of(d, r.record_client, a),
        account_before(final_ledger(xs), r.record_client).wf(),
        !account_before(final_ledger(xs), r.record_client).record_locked,
        hold_fits(account_before(final_ledger(xs), r.record_client), a),
    ensures
        ({
            let s = final_ledger(xs);
            let c = r.record_client;
            let before = account_before(s, c);
            ledger(xs.push(r)) matches Some(Ok(s2)) && s2.disputed == s.disputed.insert(
                r.record_tx,
            ) && s2.accounts == s.accounts.insert(c, s2.accounts[c]) && moved_by(
                before,
                s2.accounts[c],
                -a.value(),
                a.value(),
                0,
            ) && !s2.accounts[c].record_locked
        }),
{
    lemma_appended(xs, r);
    let s = final_ledger(xs);
    law_dispute(account_before(s, r.record_client), s.disputed, xs.push(r), xs.len() as int);
}

/// A dispute, appended to a run that succeeds, whose id does not first name
/// a deposit with an amount of the same client (another client's deposit,
/// a withdrawal, an unknown id) changes no account and no dispute; only an
/// account is created for a client that had none.
pub proof fn law_dispute_of_anything_else_is_ignored(xs: Seq<InputRecord>, r: InputRecord)
    requires
        ends_ok(xs),
        r.record_type == TransactionType::Dispute,
        !names_own_deposit(xs.push(r), r.record_client, r.record_tx),
    ensures
        ({
            let s = final_ledger(xs);
            let c = r.record_client;
            ledger(xs.push(r)) == Some(
                Ok::<Ledger, Seq<char>>(
                    Ledger { accounts: s.accounts.insert(c, account_before(s, c)), disputed: s.disputed },
                ),
            )
        }),
{
    lemma_appended(xs, r);
}

/// A resolve, appended to a run that succeeds, whose id first names a
/// deposit `d` of amount `a` of the same, unlocked client and is under
/// dispute, raises the client's available funds by `a` and lowers its held
/// funds by `a`, whatever `a` and its scale are, leaves its total funds
/// alone, and ends the dispute; no other account changes.
pub proof fn law_resolve_releases_the_deposit(
    xs: Seq<InputRecord>,
    r: InputRecord,
    d: InputRecord,
    a: Amount,
)
    requires
        ends_ok(xs),
        transactions_wf(xs.push(r)),
        r.record_type == TransactionType::Resolve,
        first_with_tx(xs.push(r), r.record_tx) == Some(d),
        is_deposit_of(d, r.record_client, a),
        final_ledger(xs).disputed.contains(r.record_tx),
        account_before(final_ledger(xs), r.record_client).wf(),
        !account_before(final_ledger(xs), r.record_client).record_locked,
        release_fits(account_before(final_ledger(xs), r.record_client), a),
    ensures
        ({
            let s = final_ledger(xs);
            let c = r.record_client;
            let before = account_before(s, c);
            ledger(xs.push(r)) matches Some(Ok(s2)) && s2.disputed == s.disputed.remove(
                r.record_tx,
            ) && s2.accounts == s.accounts.insert(c, s2.accounts[c]) && moved_by(
                before,
                s2.accounts[c],
                a.value(),
                -a.value(),
                0,
            ) && !s2.accounts[c].record_locked
        }),
{
    lemma_appended(xs, r);
    let s = final_ledger(xs);
    law_resolve(account_before(s, r.record_client), s.disputed, xs.push(r), xs.len() as int);
}

/// A chargeback, appended to a run that succeeds, whose id first names a
/// deposit `d` of amount `a` of the same, unlocked client and is under
/// dispute, lowers the client's held and total funds by `a` (total funds
/// also below zero), whatever `a` is, leaves its available funds alone,
/// locks the account and ends the dispute; no other account changes.
pub proof fn law_chargeback_removes_the_deposit(
    xs: Seq<InputRecord>,
    r: InputRecord,
    d: InputRecord,
    a: Amount,
)
    requires
        ends_ok(xs),
        transactions_wf(xs.push(r)),
        r.record_type == TransactionType::Chargeback,
        first_with_tx(xs.push(r), r.record_tx) == Some(d),
        is_deposit_of(d, r.record_client, a),
        final_ledger(xs).disputed.contains(r.record_tx),
        account_before(final_ledger(xs), r.record_client).wf(),
        !account_before(final_ledger(xs), r.record_client).record_locked,
        charge_back_fits(account_before(final_ledger(xs), r.record_client), a),
    ensures
        ({
            let s = final_ledger(xs);
            let c = r.record_client;
            let before = account_before(s, c);
            ledger(xs.push(r)) matches Some(Ok(s2)) && s2.disputed == s.disputed.remove(
                r.record_tx,
            ) && s2.accounts == s.accounts.insert(c, s2.accounts[c])
                && s2.accounts[c].record_locked && s2.accounts[c].wf()
                && s2.accounts[c].record_client == before.record_client
                && s2.accounts[c].record_available == before.record_available
                && s2.accounts[c].record_held.value() == before.record_held.value() - a.value()
                && s2.accounts[c].record_total.value() == before.record_total.value() - a.value()
        }),
{
    lemma_appended(xs, r);
    let s = final_ledger(xs);
    law_chargeback(account_before(s, r.record_client), s.disputed, xs.push(r), xs.len() as int);
}

/// A resolve or chargeback, appended to a run that succeeds, whose id is
/// not under dispute or does not first name a deposit with an amount of the
/// same client changes no account and no dispute; only an account is
/// created for a client that had none.
pub proof fn law_settling_without_dispute_is_ignored(xs: Seq<InputRecord>, r: InputRecord)
    requires
        ends_ok(xs),
        r.record_type == TransactionType::Resolve || r.record_type
            == TransactionType::Chargeback,
        !(names_own_deposit(xs.push(r), r.record_client, r.record_tx)
            && final_ledger(xs).disputed.contains(r.record_tx)),
    ensures
        ({
            let s = final_ledger(xs);
            let c = r.record_client;
            ledger(xs.push(r)) == Some(
                Ok::<Ledger, Seq<char>>(
                    Ledger { accounts: s.accounts.insert(c, account_before(s, c)), disputed: s.disputed },
                ),
            )
        }),
{
    lemma_appended(xs, r);
}

/// A transaction with its amount (where it needs one), appended to a run
/// that succeeds, by a client whose account is locked, changes nothing.
pub proof fn law_locked_account_ignores_transactions(xs: Seq<InputRecord>, r: InputRecord)
    requires
        ends_ok(xs),
        final_ledger(xs).accounts.contains_key(r.record_client),
        final_ledger(xs).accounts[r.record_client].record_locked,
        r.record_amount is Some || (r.record_type != TransactionType::Deposit && r.record_type
            != TransactionType::Withdrawal),
    ensures
        ledger(xs.push(r)) == Some(Ok::<Ledger, Seq<char>>(final_ledger(xs))),
{
    law_append_to_locked_account(xs, r);
}

/// A deposit or withdrawal without an amount, appended to a run that
/// succeeds, fails the whole run with the error that names it, whatever
/// the account's state.
pub proof fn law_amountless_record_fails_the_run(xs: Seq<InputRecord>, r: InputRecord)
    requires
        ends_ok(xs),
        r.record_amount is None,
    ensures
        r.record_type == TransactionType::Deposit ==> ledger(xs.push(r)) == Some(
            Err::<Ledger, Seq<char>>("couldn't process input - no deposit amount"@),
        ),
        r.record_type == TransactionType::Withdrawal ==> ledger(xs.push(r)) == Some(
            Err::<Ledger, Seq<char>>("couldn't process input - no withdrawal amount"@),
        ),
{
    lemma_appended(xs, r);
}


/// The transaction that an id names is the first transaction with that id:
/// there is none exactly where no transaction has the id.
pub proof fn law_an_id_names_its_first_transaction(txs: Seq<InputRecord>, tx: u32)
    ensures
        first_with_tx(txs, tx) is None <==> forall|k: int|
            0 <= k < txs.len() ==> #[trigger] txs[k].record_tx != tx,
        first_with_tx(txs, tx) matches Some(d) ==> exists|k: int|
            0 <= k < txs.len() && txs[k] == d && #[trigger] txs[k].record_tx == tx && forall|j: int|
                0 <= j < k ==> #[trigger] txs[j].record_tx != tx,
    decreases txs.len(),
{
    if txs.len() > 0 {
        let rest = txs.drop_first();
        law_an_id_names_its_first_transaction(rest, tx);
        if txs[0].record_tx == tx {
            assert(txs[0].record_tx == tx);
        } else {
            assert forall|k: int| 0 <= k < rest.len() implies rest[k] == txs[k + 1] by {}
            if let Some(d) = first_with_tx(txs, tx) {
                let k = choose|k: int|
                    0 <= k < rest.len() && rest[k] == d && #[trigger] rest[k].record_tx == tx
                        && forall|j: int| 0 <= j < k ==> #[trigger] rest[j].record_tx != tx;
                assert(txs[k + 1] == d && txs[k + 1].record_tx == tx);
                assert forall|j: int| 0 <= j < k + 1 implies #[trigger] txs[j].record_tx != tx by {
                    if j > 0 {
                        assert(txs[j] == rest[j - 1]);
                    }
                }
            } else {
                assert forall|k: int| 0 <= k < txs.len() implies #[trigger] txs[k].record_tx
                    != tx by {
                    if k > 0 {
                        assert(txs[k] == rest[k - 1]);
                    }
                }
            }
        }
    }
}

} // verus!
