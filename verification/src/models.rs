use crate::amount::Amount;
use vstd::prelude::*;

verus! {

/// The kind of a transaction.
#[derive(Debug, Clone, Copy, PartialEq, Eq, Structural)]
pub enum TransactionType {
    Deposit,
    Withdrawal,
    Dispute,
    Resolve,
    Chargeback,
}

/// One transaction of the input: its kind, the client it belongs to, its
/// transaction id and, for deposits and withdrawals, its amount.
#[derive(Debug, Clone, Copy)]
pub struct InputRecord {
    pub record_type: TransactionType,
    pub record_client: u16,
    pub record_tx: u32,
    pub record_amount: Option<Amount>,
}

/// The state of one client account.
#[derive(Debug, Clone, Copy)]
pub struct OutputRecord {
    pub record_client: u16,
    pub record_available: Amount,
    pub record_held: Amount,
    pub record_total: Amount,
    pub record_locked: bool,
}

/// Why the engine stopped.
#[derive(Debug)]
pub enum CommonError {
    /// A command-line argument is missing; the text names it.
    MissingArgument(String),
    /// The input could not be read or parsed; the text says why.
    Input(String),
    /// A transaction is malformed; the text says how.
    Processing(String),
    /// The output could not be written; the text says why.
    Output(String),
}

impl InputRecord {
    /// The record's amount, where it has one, is one that a decimal can hold.
    pub open spec fn wf(self) -> bool {
        self.record_amount matches Some(a) ==> a.wf()
    }
}

impl OutputRecord {
    /// The account's amounts are ones that a decimal can hold.
    pub open spec fn wf(self) -> bool {
        &&& self.record_available.wf()
        &&& self.record_held.wf()
        &&& self.record_total.wf()
    }
}


impl CommonError {
    /// The message that reports the error: a prefix that names its kind,
    /// then its text.
    pub fn message(&self) -> (s: String)
        ensures
            self matches CommonError::MissingArgument(m) ==> s@ == "missing argument error: "@
                + m@,
            self matches CommonError::Processing(m) ==> s@ == "processing error: "@ + m@,
            self matches CommonError::Output(m) ==> s@ == "output error: "@ + m@,
            self matches CommonError::Input(m) ==> s@ == "input error: "@ + m@,
    {
        match self {
            CommonError::MissingArgument(m) => {
                let mut s = "missing argument error: ".to_owned();
                s.append(m.as_str());
                s
            },
            CommonError::Input(m) => {
                let mut s = "input error: ".to_owned();
                s.append(m.as_str());
                s
            },
            CommonError::Processing(m) => {
                let mut s = "processing error: ".to_owned();
                s.append(m.as_str());
                s
            },
            CommonError::Output(m) => {
                let mut s = "output error: ".to_owned();
                s.append(m.as_str());
                s
            },
        }
    }
}

} // verus!
