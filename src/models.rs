use crate::amount::Amount;
use std::collections::HashMap;
use vstd::prelude::*;

verus! {

pub type ClientID = u32;

pub type TxID = u32;

/// What a recorded transaction did to its account.
#[derive(Clone, Copy, Debug, PartialEq, Eq, Structural)]
pub enum TxCategory {
    Deposit,
    Withdrawal,
}

/// Where a recorded transaction stands in its dispute lifecycle.
#[derive(Clone, Copy, Debug, PartialEq, Eq, Structural)]
pub enum TxState {
    Normal,
    Disputed,
    Chargedback,
}

/// A deposit or withdrawal that was applied, kept so that later records can
/// refer to it.
#[derive(Clone, Copy, Debug, PartialEq)]
pub struct Transaction {
    pub category: TxCategory,
    pub state: TxState,
    pub amount: Amount,
    pub client_id: ClientID,
}

/// The balances of one client.
#[derive(Clone, Copy, Debug, PartialEq)]
pub struct Account {
    pub available: Amount,
    pub held: Amount,
    pub total: Amount,
    pub locked: bool,
}

impl Account {
    /// The balances agree: `total == available + held`.
    pub open spec fn wf(&self) -> bool {
        self.total@ == self.available@ + self.held@
    }
}

/// An account with nothing in it.
pub open spec fn fresh_account() -> Account {
    Account {
        available: Amount::nothing(),
        held: Amount::nothing(),
        total: Amount::nothing(),
        locked: false,
    }
}

impl Default for Account {
    fn default() -> (r: Account)
        ensures
            r == fresh_account(),
            r.wf(),
            r.available@ == 0,
    {
        Account {
            available: Amount::zero(),
            held: Amount::zero(),
            total: Amount::zero(),
            locked: false,
        }
    }
}

/// One well-formed record of the input, with its fields read.
#[derive(Clone, Copy, Debug, PartialEq)]
pub enum Command {
    Deposit { client: ClientID, tx: TxID, amount: Amount },
    Withdrawal { client: ClientID, tx: TxID, amount: Amount },
    Dispute { client: ClientID, tx: TxID },
    Resolve { client: ClientID, tx: TxID },
    Chargeback { client: ClientID, tx: TxID },
}

/// All accounts, by client, and all applied deposits and withdrawals, by
/// transaction id.
#[derive(Debug)]
pub struct Ledger {
    pub accounts: HashMap<ClientID, Account>,
    pub transactions: HashMap<TxID, Transaction>,
}

/// What a ledger holds, as maps.
pub struct LedgerView {
    pub accounts: Map<ClientID, Account>,
    pub transactions: Map<TxID, Transaction>,
}

impl LedgerView {
    /// Every account's balances agree.
    pub open spec fn wf(self) -> bool {
        forall|c: ClientID| #[trigger]
            self.accounts.contains_key(c) ==> self.accounts[c].wf()
    }
}

impl View for Ledger {
    type V = LedgerView;

    open spec fn view(&self) -> LedgerView {
        LedgerView { accounts: self.accounts@, transactions: self.transactions@ }
    }
}

impl Ledger {
    pub fn new() -> (r: Ledger)
        ensures
            r@.accounts == Map::<ClientID, Account>::empty(),
            r@.transactions == Map::<TxID, Transaction>::empty(),
            r@.wf(),
    {
        Ledger { accounts: HashMap::new(), transactions: HashMap::new() }
    }
}

impl Default for Ledger {
    fn default() -> (r: Ledger)
        ensures
            r@.accounts == Map::<ClientID, Account>::empty(),
            r@.transactions == Map::<TxID, Transaction>::empty(),
            r@.wf(),
    {
        Ledger::new()
    }
}

} // verus!
