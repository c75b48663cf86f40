use crate::amount::Amount;
use crate::input::InputError;
use crate::models::{
    fresh_account, Account, ClientID, Command, Ledger, LedgerView, Transaction, TxCategory, TxID,
    TxState,
};
use vstd::prelude::*;

verus! {

impl Transaction {
    pub fn from_deposit(client_id: ClientID, amount: Amount) -> (r: Transaction)
        ensures
            r == (Transaction {
                category: TxCategory::Deposit,
                state: TxState::Normal,
                amount,
                client_id,
            }),
    {
        Transaction { category: TxCategory::Deposit, state: TxState::Normal, amount, client_id }
    }

    pub fn from_withdrawal(client_id: ClientID, amount: Amount) -> (r: Transaction)
        ensures
            r == (Transaction {
                category: TxCategory::Withdrawal,
                state: TxState::Normal,
                amount,
                client_id,
            }),
    {
        Transaction { category: TxCategory::Withdrawal, state: TxState::Normal, amount, client_id }
    }

    /// The same transaction, moved to state `s`.
    pub open spec fn with_state(self, s: TxState) -> Transaction {
        Transaction { state: s, ..self }
    }
}

impl Account {
    pub open spec fn may_withdraw(&self, a: int) -> bool {
        self.available@ >= a && self.total@ >= a && !self.locked
    }

    pub open spec fn may_dispute(&self, a: int) -> bool {
        self.available@ >= a
    }

    pub open spec fn may_resolve(&self, a: int) -> bool {
        self.held@ >= a
    }

    pub open spec fn may_chargeback(&self, a: int) -> bool {
        self.total@ >= a && self.held@ >= a
    }

    /// The balances after a deposit of `a` are representable.
    pub open spec fn deposit_fits(&self, a: Amount) -> bool {
        self.available.add_fits(a) && self.total.add_fits(a)
    }

    pub open spec fn withdrawal_fits(&self, a: Amount) -> bool {
        self.available.sub_fits(a) && self.total.sub_fits(a)
    }

    pub open spec fn dispute_fits(&self, a: Amount) -> bool {
        self.available.sub_fits(a) && self.held.add_fits(a)
    }

    pub open spec fn resolve_fits(&self, a: Amount) -> bool {
        self.available.add_fits(a) && self.held.sub_fits(a)
    }

    pub open spec fn chargeback_fits(&self, a: Amount) -> bool {
        self.total.sub_fits(a) && self.held.sub_fits(a)
    }

    pub open spec fn after_deposit(self, a: Amount) -> Account {
        Account { available: self.available.plus(a), total: self.total.plus(a), ..self }
    }

    pub open spec fn after_withdrawal(self, a: Amount) -> Account {
        Account { available: self.available.minus(a), total: self.total.minus(a), ..self }
    }

    pub open spec fn after_dispute(self, a: Amount) -> Account {
        Account { available: self.available.minus(a), held: self.held.plus(a), ..self }
    }

    pub open spec fn after_resolve(self, a: Amount) -> Account {
        Account { available: self.available.plus(a), held: self.held.minus(a), ..self }
    }

    pub open spec fn after_chargeback(self, a: Amount) -> Account {
        Account { total: self.total.minus(a), held: self.held.minus(a), locked: true, ..self }
    }

    pub fn can_withdraw(&self, amount: &Amount) -> (r: bool)
        ensures
            r == self.may_withdraw(amount@),
    {
        self.available.ge(amount) && self.total.ge(amount) && !self.locked
    }

    pub fn can_dispute(&self, amount: &Amount) -> (r: bool)
        ensures
            r == self.may_dispute(amount@),
    {
        self.available.ge(amount)
    }

    pub fn can_resolve(&self, amount: &Amount) -> (r: bool)
        ensures
            r == self.may_resolve(amount@),
    {
        self.held.ge(amount)
    }

    pub fn can_chargeback(&self, amount: &Amount) -> (r: bool)
        ensures
            r == self.may_chargeback(amount@),
    {
        self.total.ge(amount) && self.held.ge(amount)
    }

    pub fn handle_deposit(&mut self, amount: &Amount)
        requires
            old(self).deposit_fits(*amount),
        ensures
            *final(self) == old(self).after_deposit(*amount),
            old(self).wf() ==> final(self).wf(),
    {
        self.available = match self.available.checked_add(amount) {
            Some(x) => x,
            None => self.available,
        };
        self.total = match self.total.checked_add(amount) {
            Some(x) => x,
            None => self.total,
        };
    }

    pub fn handle_withdrawal(&mut self, amount: &Amount)
        requires
            old(self).may_withdraw(amount@),
            old(self).withdrawal_fits(*amount),
        ensures
            *final(self) == old(self).after_withdrawal(*amount),
            old(self).wf() ==> final(self).wf(),
    {
        self.available = match self.available.checked_sub(amount) {
            Some(x) => x,
            None => self.available,
        };
        self.total = match self.total.checked_sub(amount) {
            Some(x) => x,
            None => self.total,
        };
    }

    pub fn handle_dispute(&mut self, amount: &Amount)
        requires
            old(self).may_dispute(amount@),
            old(self).dispute_fits(*amount),
        ensures
            *final(self) == old(self).after_dispute(*amount),
            old(self).wf() ==> final(self).wf(),
    {
        self.available = match self.available.checked_sub(amount) {
            Some(x) => x,
            None => self.available,
        };
        self.held = match self.held.checked_add(amount) {
            Some(x) => x,
            None => self.held,
        };
    }

    pub fn handle_resolve(&mut self, amount: &Amount)
        requires
            old(self).may_resolve(amount@),
            old(self).resolve_fits(*amount),
        ensures
            *final(self) == old(self).after_resolve(*amount),
            old(self).wf() ==> final(self).wf(),
    {
        self.available = match self.available.checked_add(amount) {
            Some(x) => x,
            None => self.available,
        };
        self.held = match self.held.checked_sub(amount) {
            Some(x) => x,
            None => self.held,
        };
    }

    pub fn handle_chargeback(&mut self, amount: &Amount)
        requires
            old(self).may_chargeback(amount@),
            old(self).chargeback_fits(*amount),
        ensures
            *final(self) == old(self).after_chargeback(*amount),
            old(self).wf() ==> final(self).wf(),
    {
        self.total = match self.total.checked_sub(amount) {
            Some(x) => x,
            None => self.total,
        };
        self.held = match self.held.checked_sub(amount) {
            Some(x) => x,
            None => self.held,
        };
        self.locked = true;
    }
}

impl LedgerView {
    /// The client's account, or a fresh one where the client has none yet.
    pub open spec fn account_or_fresh(self, c: ClientID) -> Account {
        if self.accounts.contains_key(c) {
            self.accounts[c]
        } else {
            fresh_account()
        }
    }

    pub open spec fn withdrawal_eligible(self, c: ClientID, a: int) -> bool {
        self.accounts.contains_key(c) && self.accounts[c].may_withdraw(a)
    }

    /// A dispute needs the client's account and a recorded, undisputed
    /// deposit whose amount is still available; it does not ask who owns
    /// the deposit.
    pub open spec fn dispute_eligible(self, c: ClientID, tx: TxID) -> bool {
        &&& self.accounts.contains_key(c)
        &&& self.transactions.contains_key(tx)
        &&& self.transactions[tx].category == TxCategory::Deposit
        &&& self.transactions[tx].state == TxState::Normal
        &&& self.accounts[c].may_dispute(self.transactions[tx].amount@)
    }

    pub open spec fn resolve_eligible(self, c: ClientID, tx: TxID) -> bool {
        &&& self.accounts.contains_key(c)
        &&& self.transactions.contains_key(tx)
        &&& self.transactions[tx].client_id == c
        &&& self.transactions[tx].state == TxState::Disputed
        &&& self.accounts[c].may_resolve(self.transactions[tx].amount@)
    }

    pub open spec fn chargeback_eligible(self, c: ClientID, tx: TxID) -> bool {
        &&& self.accounts.contains_key(c)
        &&& self.transactions.contains_key(tx)
        &&& self.transactions[tx].client_id == c
        &&& self.transactions[tx].state == TxState::Disputed
        &&& self.accounts[c].may_chargeback(self.transactions[tx].amount@)
    }

    /// Whether the command takes effect on balances and records.
    pub open spec fn eligible(self, cmd: Command) -> bool {
        match cmd {
            Command::Deposit { .. } => true,
            Command::Withdrawal { client, amount, .. } => self.withdrawal_eligible(
                client,
                amount@,
            ),
            Command::Dispute { client, tx } => self.dispute_eligible(client, tx),
            Command::Resolve { client, tx } => self.resolve_eligible(client, tx),
            Command::Chargeback { client, tx } => self.chargeback_eligible(client, tx),
        }
    }

    /// The balances that the command would give are representable.
    pub open spec fn in_range(self, cmd: Command) -> bool {
        match cmd {
            Command::Deposit { client, amount, .. } => self.account_or_fresh(client).deposit_fits(amount),
            Command::Withdrawal { client, amount, .. } => self.withdrawal_eligible(client, amount@)
                ==> self.accounts[client].withdrawal_fits(amount),
            Command::Dispute { client, tx } => self.dispute_eligible(client, tx)
                ==> self.accounts[client].dispute_fits(self.transactions[tx].amount),
            Command::Resolve { client, tx } => self.resolve_eligible(client, tx)
                ==> self.accounts[client].resolve_fits(self.transactions[tx].amount),
            Command::Chargeback { client, tx } => self.chargeback_eligible(client, tx)
                ==> self.accounts[client].chargeback_fits(self.transactions[tx].amount),
        }
    }

    /// The same ledger with an empty account opened for `c`.
    pub open spec fn with_fresh(self, c: ClientID) -> LedgerView {
        LedgerView { accounts: self.accounts.insert(c, fresh_account()), ..self }
    }

    /// The ledger after `cmd`: a deposit always applies; any other command
    /// for an unknown client only opens an empty account for it; an
    /// ineligible one changes nothing.
    pub open spec fn step(self, cmd: Command) -> LedgerView {
        match cmd {
            Command::Deposit { client, tx, amount } => LedgerView {
                accounts: self.accounts.insert(
                    client,
                    self.account_or_fresh(client).after_deposit(amount),
                ),
                transactions: self.transactions.insert(
                    tx,
                    Transaction {
                        category: TxCategory::Deposit,
                        state: TxState::Normal,
                        amount,
                        client_id: client,
                    },
                ),
            },
            Command::Withdrawal { client, tx, amount } => if !self.accounts.contains_key(client) {
                self.with_fresh(client)
            } else if self.withdrawal_eligible(client, amount@) {
                LedgerView {
                    accounts: self.accounts.insert(
                        client,
                        self.accounts[client].after_withdrawal(amount),
                    ),
                    transactions: self.transactions.insert(
                        tx,
                        Transaction {
                            category: TxCategory::Withdrawal,
                            state: TxState::Normal,
                            amount,
                            client_id: client,
                        },
                    ),
                }
            } else {
                self
            },
            Command::Dispute { client, tx } => if !self.accounts.contains_key(client) {
                self.with_fresh(client)
            } else if self.dispute_eligible(client, tx) {
                LedgerView {
                    accounts: self.accounts.insert(
                        client,
                        self.accounts[client].after_dispute(self.transactions[tx].amount),
                    ),
                    transactions: self.transactions.insert(
                        tx,
                        self.transactions[tx].with_state(TxState::Disputed),
                    ),
                }
            } else {
                self
            },
            Command::Resolve { client, tx } => if !self.accounts.contains_key(client) {
                self.with_fresh(client)
            } else if self.resolve_eligible(client, tx) {
                LedgerView {
                    accounts: self.accounts.insert(
                        client,
                        self.accounts[client].after_resolve(self.transactions[tx].amount),
                    ),
                    transactions: self.transactions.insert(
                        tx,
                        self.transactions[tx].with_state(TxState::Normal),
                    ),
                }
            } else {
                self
            },
            Command::Chargeback { client, tx } => if !self.accounts.contains_key(client) {
                self.with_fresh(client)
            } else if self.chargeback_eligible(client, tx) {
                LedgerView {
                    accounts: self.accounts.insert(
                        client,
                        self.accounts[client].after_chargeback(self.transactions[tx].amount),
                    ),
                    transactions: self.transactions.insert(
                        tx,
                        self.transactions[tx].with_state(TxState::Chargedback),
                    ),
                }
            } else {
                self
            },
        }
    }
}

impl Ledger {
    fn create_account(&mut self, client_id: &ClientID)
        requires
            old(self)@.wf(),
        ensures
            final(self)@ == old(self)@.with_fresh(*client_id),
            final(self)@.wf(),
    {
        let account = Account::default();
        assert(account.wf());
        self.accounts.insert(*client_id, account);
        assert(self@.accounts == old(self)@.accounts.insert(*client_id, account));
    }

    /// Credits `amount` to the client's account, opening it if need be, and
    /// records the deposit.
    pub fn handle_deposit(&mut self, client_id: &ClientID, tx_id: &TxID, amount: &Amount)
        requires
            old(self)@.wf(),
            old(self)@.in_range(Command::Deposit { client: *client_id, tx: *tx_id, amount: *amount }),
        ensures
            final(self)@ == old(self)@.step(
                Command::Deposit { client: *client_id, tx: *tx_id, amount: *amount },
            ),
            final(self)@.wf(),
    {
        self.transactions.insert(*tx_id, Transaction::from_deposit(*client_id, *amount));
        let mut account = match self.accounts.get(client_id) {
            Some(a) => *a,
            None => Account::default(),
        };
        account.handle_deposit(amount);
        self.accounts.insert(*client_id, account);
    }

    /// Debits `amount` where the account allows it, and records the
    /// withdrawal; a client without an account gets an empty one and nothing
    /// else happens.
    pub fn handle_withdrawal(&mut self, client_id: &ClientID, tx_id: &TxID, amount: &Amount)
        requires
            old(self)@.wf(),
            old(self)@.in_range(
                Command::Withdrawal { client: *client_id, tx: *tx_id, amount: *amount },
            ),
        ensures
            final(self)@ == old(self)@.step(
                Command::Withdrawal { client: *client_id, tx: *tx_id, amount: *amount },
            ),
            final(self)@.wf(),
            old(self)@.accounts.contains_key(*client_id) && !old(self)@.withdrawal_eligible(
                *client_id,
                amount@,
            ) ==> *final(self) == *old(self),
    {
        match self.accounts.get(client_id) {
            Some(a) => {
                let mut account = *a;
                if account.can_withdraw(amount) {
                    self.transactions.insert(
                        *tx_id,
                        Transaction::from_withdrawal(*client_id, *amount),
                    );
                    account.handle_withdrawal(amount);
                    self.accounts.insert(*client_id, account);
                }
            },
            None => self.create_account(client_id),
        }
    }

    /// Moves a recorded deposit's amount from available to held and marks
    /// the deposit disputed, where eligible.
    pub fn handle_dispute(&mut self, client_id: &ClientID, tx_id: &TxID)
        requires
            old(self)@.wf(),
            old(self)@.in_range(Command::Dispute { client: *client_id, tx: *tx_id }),
        ensures
            final(self)@ == old(self)@.step(Command::Dispute { client: *client_id, tx: *tx_id }),
            final(self)@.wf(),
            old(self)@.accounts.contains_key(*client_id) && !old(self)@.dispute_eligible(
                *client_id,
                *tx_id,
            ) ==> *final(self) == *old(self),
    {
        match self.accounts.get(client_id) {
            Some(a) => {
                let mut account = *a;
                match self.transactions.get(tx_id) {
                    Some(t) => {
                        let mut tx = *t;
                        if tx.category == TxCategory::Deposit && tx.state == TxState::Normal
                            && account.can_dispute(&tx.amount) {
                            tx.state = TxState::Disputed;
                            account.handle_dispute(&tx.amount);
                            self.transactions.insert(*tx_id, tx);
                            self.accounts.insert(*client_id, account);
                        }
                    },
                    None => {},
                }
            },
            None => self.create_account(client_id),
        }
    }

    /// Returns a disputed transaction's amount from held to available and
    /// marks it normal again, where eligible.
    pub fn handle_resolve(&mut self, client_id: &ClientID, tx_id: &TxID)
        requires
            old(self)@.wf(),
            old(self)@.in_range(Command::Resolve { client: *client_id, tx: *tx_id }),
        ensures
            final(self)@ == old(self)@.step(Command::Resolve { client: *client_id, tx: *tx_id }),
            final(self)@.wf(),
            old(self)@.accounts.contains_key(*client_id) && !old(self)@.resolve_eligible(
                *client_id,
                *tx_id,
            ) ==> *final(self) == *old(self),
    {
        match self.accounts.get(client_id) {
            Some(a) => {
                let mut account = *a;
                match self.transactions.get(tx_id) {
                    Some(t) => {
                        let mut tx = *t;
                        if tx.client_id == *client_id && tx.state == TxState::Disputed
                            && account.can_resolve(&tx.amount) {
                            tx.state = TxState::Normal;
                            account.handle_resolve(&tx.amount);
                            self.transactions.insert(*tx_id, tx);
                            self.accounts.insert(*client_id, account);
                        }
                    },
                    None => {},
                }
            },
            None => self.create_account(client_id),
        }
    }

    /// Removes a disputed transaction's amount from the account, locks the
    /// account and marks the transaction charged back, where eligible.
    pub fn handle_chargeback(&mut self, client_id: &ClientID, tx_id: &TxID)
        requires
            old(self)@.wf(),
            old(self)@.in_range(Command::Chargeback { client: *client_id, tx: *tx_id }),
        ensures
            final(self)@ == old(self)@.step(
                Command::Chargeback { client: *client_id, tx: *tx_id },
            ),
            final(self)@.wf(),
            old(self)@.accounts.contains_key(*client_id) && !old(self)@.chargeback_eligible(
                *client_id,
                *tx_id,
            ) ==> *final(self) == *old(self),
    {
        match self.accounts.get(client_id) {
            Some(a) => {
                let mut account = *a;
                match self.transactions.get(tx_id) {
                    Some(t) => {
                        let mut tx = *t;
                        if tx.client_id == *client_id && tx.state == TxState::Disputed
                            && account.can_chargeback(&tx.amount) {
                            tx.state = TxState::Chargedback;
                            account.handle_chargeback(&tx.amount);
                            self.transactions.insert(*tx_id, tx);
                            self.accounts.insert(*client_id, account);
                        }
                    },
                    None => {},
                }
            },
            None => self.create_account(client_id),
        }
    }

    /// Whether the balances that `cmd` would give are representable.
    pub fn admits(&self, cmd: &Command) -> (r: bool)
        ensures
            r == self@.in_range(*cmd),
    {
        match *cmd {
            Command::Deposit { client, amount, .. } => {
                let account = match self.accounts.get(&client) {
                    Some(a) => *a,
                    None => Account::default(),
                };
                account.available.checked_add(&amount).is_some() && account.total.checked_add(&amount).is_some()
            },
            Command::Withdrawal { client, amount, .. } => match self.accounts.get(&client) {
                Some(a) => !a.can_withdraw(&amount) || (a.available.checked_sub(&amount).is_some()
                    && a.total.checked_sub(&amount).is_some()),
                None => true,
            },
            Command::Dispute { client, tx } => match self.accounts.get(&client) {
                Some(a) => match self.transactions.get(&tx) {
                    Some(t) => !(t.category == TxCategory::Deposit && t.state == TxState::Normal
                        && a.can_dispute(&t.amount)) || (a.available.checked_sub(&t.amount).is_some()
                        && a.held.checked_add(&t.amount).is_some()),
                    None => true,
                },
                None => true,
            },
            Command::Resolve { client, tx } => match self.accounts.get(&client) {
                Some(a) => match self.transactions.get(&tx) {
                    Some(t) => !(t.client_id == client && t.state == TxState::Disputed
                        && a.can_resolve(&t.amount)) || (a.available.checked_add(&t.amount).is_some()
                        && a.held.checked_sub(&t.amount).is_some()),
                    None => true,
                },
                None => true,
            },
            Command::Chargeback { client, tx } => match self.accounts.get(&client) {
                Some(a) => match self.transactions.get(&tx) {
                    Some(t) => !(t.client_id == client && t.state == TxState::Disputed
                        && a.can_chargeback(&t.amount)) || (a.total.checked_sub(&t.amount).is_some()
                        && a.held.checked_sub(&t.amount).is_some()),
                    None => true,
                },
                None => true,
            },
        }
    }

    /// Applies one command. Where a balance it gives would not be
    /// representable, nothing changes and that is the error.
    pub fn apply(&mut self, cmd: &Command) -> (r: Result<(), InputError>)
        requires
            old(self)@.wf(),
        ensures
            final(self)@.wf(),
            r == if old(self)@.in_range(*cmd) {
                Ok::<(), InputError>(())
            } else {
                Err(InputError::BalanceOutOfRange)
            },
            old(self)@.in_range(*cmd) ==> final(self)@ == old(self)@.step(*cmd),
            !old(self)@.in_range(*cmd) ==> *final(self) == *old(self),
    {
        if !self.admits(cmd) {
            return Err(InputError::BalanceOutOfRange);
        }
        match *cmd {
            Command::Deposit { client, tx, amount } => self.handle_deposit(&client, &tx, &amount),
            Command::Withdrawal { client, tx, amount } => self.handle_withdrawal(
                &client,
                &tx,
                &amount,
            ),
            Command::Dispute { client, tx } => self.handle_dispute(&client, &tx),
            Command::Resolve { client, tx } => self.handle_resolve(&client, &tx),
            Command::Chargeback { client, tx } => self.handle_chargeback(&client, &tx),
        }
        Ok(())
    }
}

} // verus!
