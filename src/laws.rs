use crate::amount::{
    lemma_diff_then_sum, lemma_diff_value, lemma_nothing_sum, lemma_nothing_value, lemma_sum_then_diff,
    lemma_sum_value, Amount,
};
use crate::input::{command_of, replay};
use crate::models::{Account, ClientID, Command, LedgerView, TxCategory, TxID, TxState};
use vstd::prelude::*;

verus! {

/// The client that a command names.
pub open spec fn client_of(cmd: Command) -> ClientID {
    match cmd {
        Command::Deposit { client, .. } => client,
        Command::Withdrawal { client, .. } => client,
        Command::Dispute { client, .. } => client,
        Command::Resolve { client, .. } => client,
        Command::Chargeback { client, .. } => client,
    }
}

/// Every command keeps `total == available + held` in every account.
pub proof fn lemma_step_keeps_balances(v: LedgerView, cmd: Command)
    requires
        v.wf(),
        v.in_range(cmd),
    ensures
        v.step(cmd).wf(),
{
    let w = v.step(cmd);
    let c0 = client_of(cmd);
    lemma_nothing_value();
    if v.accounts.contains_key(c0) && v.eligible(cmd) {
        let acc = v.accounts[c0];
        match cmd {
            Command::Deposit { amount, .. } => {
                lemma_sum_value(acc.available, amount);
                lemma_sum_value(acc.total, amount);
            },
            Command::Withdrawal { amount, .. } => {
                lemma_diff_value(acc.available, amount);
                lemma_diff_value(acc.total, amount);
            },
            Command::Dispute { tx, .. } => {
                lemma_diff_value(acc.available, v.transactions[tx].amount);
                lemma_sum_value(acc.held, v.transactions[tx].amount);
            },
            Command::Resolve { tx, .. } => {
                lemma_sum_value(acc.available, v.transactions[tx].amount);
                lemma_diff_value(acc.held, v.transactions[tx].amount);
            },
            Command::Chargeback { tx, .. } => {
                lemma_diff_value(acc.total, v.transactions[tx].amount);
                lemma_diff_value(acc.held, v.transactions[tx].amount);
            },
        }
    }
    if let Command::Deposit { amount, .. } = cmd {
        if !v.accounts.contains_key(c0) {
            lemma_sum_value(Amount::nothing(), amount);
        }
    }
    assert forall|c: ClientID| #[trigger] w.accounts.contains_key(c) implies w.accounts[c].wf() by {
        if c != client_of(cmd) {
            assert(v.accounts.contains_key(c));
        } else if v.accounts.contains_key(c) {
            assert(v.accounts[c].wf());
        }
    }
}

/// Replaying records keeps `total == available + held` in every account,
/// whether or not it stops at an error.
pub proof fn lemma_replay_keeps_balances(v: LedgerView, records: Seq<Seq<Seq<char>>>)
    requires
        v.wf(),
    ensures
        replay(v, records).0.wf(),
    decreases records.len(),
{
    if records.len() > 0 {
        match command_of(records[0]) {
            Err(_) => {},
            Ok(cmd) => if v.in_range(cmd) {
                lemma_step_keeps_balances(v, cmd);
                lemma_replay_keeps_balances(v.step(cmd), records.drop_first());
            },
        }
    }
}

/// A command that is not eligible, for a client that has an account,
/// changes neither the accounts nor the recorded transactions.
pub proof fn lemma_ineligible_is_noop(v: LedgerView, cmd: Command)
    requires
        v.accounts.contains_key(client_of(cmd)),
        !v.eligible(cmd),
    ensures
        v.step(cmd) == v,
{
}

/// A deposit of `a` for a client without an account opens one holding
/// exactly `a`, available, with nothing held and no lock.
pub proof fn lemma_deposit_to_new_client(v: LedgerView, c: ClientID, tx: TxID, a: Amount)
    requires
        !v.accounts.contains_key(c),
        a.valid(),
    ensures
        v.in_range(Command::Deposit { client: c, tx, amount: a }),
        ({
            let acc = v.step(Command::Deposit { client: c, tx, amount: a }).accounts[c];
            &&& acc.available@ == a@
            &&& acc.total@ == a@
            &&& acc.held@ == 0
            &&& !acc.locked
        }),
{
    lemma_nothing_sum(a);
    lemma_sum_value(Amount::nothing(), a);
}

/// A withdrawal of more than is available from an existing account changes
/// nothing and records nothing, so a later dispute of its id, by any client
/// with an account, changes nothing either.
pub proof fn lemma_overdraft_is_noop(
    v: LedgerView,
    c: ClientID,
    tx: TxID,
    a: Amount,
    d: ClientID,
)
    requires
        v.accounts.contains_key(c),
        v.accounts.contains_key(d),
        !v.transactions.contains_key(tx),
        a@ > v.accounts[c].available@,
    ensures
        v.step(Command::Withdrawal { client: c, tx, amount: a }) == v,
        v.step(Command::Withdrawal { client: c, tx, amount: a }).step(
            Command::Dispute { client: d, tx },
        ) == v,
{
}

/// Disputing a client's own deposit, in an account that holds nothing, and
/// then resolving it moves its amount to held and back: the balances, the
/// lock and the transaction end as they began.
pub proof fn lemma_dispute_then_resolve(v: LedgerView, c: ClientID, tx: TxID)
    requires
        v.accounts.contains_key(c),
        v.transactions.contains_key(tx),
        v.transactions[tx].category == TxCategory::Deposit,
        v.transactions[tx].state == TxState::Normal,
        v.transactions[tx].client_id == c,
        v.transactions[tx].amount@ <= v.accounts[c].available@,
        v.accounts[c].held@ == 0,
        v.accounts[c].dispute_fits(v.transactions[tx].amount),
    ensures
        ({
            let a = v.transactions[tx].amount@;
            let w = v.step(Command::Dispute { client: c, tx });
            let u = w.step(Command::Resolve { client: c, tx });
            &&& w.accounts[c].available@ == v.accounts[c].available@ - a
            &&& w.accounts[c].held@ == a
            &&& w.transactions[tx].state == TxState::Disputed
            &&& u.accounts[c].available@ == v.accounts[c].available@
            &&& u.accounts[c].held@ == 0
            &&& u.accounts[c].total == v.accounts[c].total
            &&& u.accounts[c].locked == v.accounts[c].locked
            &&& u.transactions == v.transactions
        }),
{
    let acc = v.accounts[c];
    let a = v.transactions[tx].amount;
    let w = v.step(Command::Dispute { client: c, tx });
    let u = w.step(Command::Resolve { client: c, tx });
    lemma_diff_value(acc.available, a);
    lemma_sum_value(acc.held, a);
    lemma_diff_then_sum(acc.available, a);
    lemma_sum_then_diff(acc.held, a);
    lemma_sum_value(acc.available.minus(a), a);
    lemma_diff_value(acc.held.plus(a), a);
    assert(w.resolve_eligible(c, tx));
    assert(u.transactions[tx] == v.transactions[tx]);
    assert(u.transactions =~= v.transactions);
}

/// Disputing a client's own deposit, in an account that holds nothing, and
/// then charging it back removes its amount from the account for good and
/// locks the account; charging it back again changes nothing.
pub proof fn lemma_dispute_then_chargeback(v: LedgerView, c: ClientID, tx: TxID)
    requires
        v.accounts.contains_key(c),
        v.accounts[c].wf(),
        v.transactions.contains_key(tx),
        v.transactions[tx].category == TxCategory::Deposit,
        v.transactions[tx].state == TxState::Normal,
        v.transactions[tx].client_id == c,
        v.transactions[tx].amount@ <= v.accounts[c].available@,
        v.accounts[c].held@ == 0,
        v.accounts[c].dispute_fits(v.transactions[tx].amount),
        v.accounts[c].total.sub_fits(v.transactions[tx].amount),
    ensures
        ({
            let a = v.transactions[tx].amount@;
            let w = v.step(Command::Dispute { client: c, tx }).step(
                Command::Chargeback { client: c, tx },
            );
            &&& w.accounts[c].available@ == v.accounts[c].available@ - a
            &&& w.accounts[c].held@ == 0
            &&& w.accounts[c].total@ == v.accounts[c].total@ - a
            &&& w.accounts[c].locked
            &&& w.transactions[tx].state == TxState::Chargedback
            &&& w.step(Command::Chargeback { client: c, tx }) == w
        }),
{
    let acc = v.accounts[c];
    let a = v.transactions[tx].amount;
    let w = v.step(Command::Dispute { client: c, tx });
    lemma_diff_value(acc.available, a);
    lemma_sum_value(acc.held, a);
    lemma_sum_then_diff(acc.held, a);
    lemma_diff_value(acc.held.plus(a), a);
    lemma_diff_value(acc.total, a);
    assert(w.chargeback_eligible(c, tx));
}

/// Each account operation whose new balances are representable keeps
/// `total == available + held`.
pub proof fn lemma_account_ops_keep_balances(acc: Account, a: Amount)
    requires
        acc.wf(),
    ensures
        acc.deposit_fits(a) ==> acc.after_deposit(a).wf(),
        acc.withdrawal_fits(a) ==> acc.after_withdrawal(a).wf(),
        acc.dispute_fits(a) ==> acc.after_dispute(a).wf(),
        acc.resolve_fits(a) ==> acc.after_resolve(a).wf(),
        acc.chargeback_fits(a) ==> acc.after_chargeback(a).wf(),
{
    if acc.available.add_fits(a) {
        lemma_sum_value(acc.available, a);
    }
    if acc.available.sub_fits(a) {
        lemma_diff_value(acc.available, a);
    }
    if acc.held.add_fits(a) {
        lemma_sum_value(acc.held, a);
    }
    if acc.held.sub_fits(a) {
        lemma_diff_value(acc.held, a);
    }
    if acc.total.add_fits(a) {
        lemma_sum_value(acc.total, a);
    }
    if acc.total.sub_fits(a) {
        lemma_diff_value(acc.total, a);
    }
}

/// On an account, disputing `a` and then resolving it is always allowed
/// and representable once the dispute was, and restores the balances.
pub proof fn lemma_account_dispute_then_resolve(acc: Account, a: Amount)
    requires
        acc.may_dispute(a@),
        acc.held@ >= 0,
        acc.dispute_fits(a),
    ensures
        ({
            let d = acc.after_dispute(a);
            let r = d.after_resolve(a);
            &&& d.may_resolve(a@)
            &&& d.resolve_fits(a)
            &&& r.available@ == acc.available@
            &&& r.held@ == acc.held@
            &&& r.total == acc.total
            &&& r.locked == acc.locked
        }),
{
    lemma_diff_value(acc.available, a);
    lemma_sum_value(acc.held, a);
    lemma_diff_then_sum(acc.available, a);
    lemma_sum_then_diff(acc.held, a);
    lemma_sum_value(acc.available.minus(a), a);
    lemma_diff_value(acc.held.plus(a), a);
}

/// On an account holding nothing, disputing `a` and then charging it back
/// is allowed once both are representable, and removes `a` for good.
pub proof fn lemma_account_dispute_then_chargeback(acc: Account, a: Amount)
    requires
        acc.wf(),
        acc.held@ == 0,
        acc.may_dispute(a@),
        acc.dispute_fits(a),
        acc.total.sub_fits(a),
    ensures
        ({
            let d = acc.after_dispute(a);
            let r = d.after_chargeback(a);
            &&& d.may_chargeback(a@)
            &&& d.chargeback_fits(a)
            &&& r.available@ == acc.available@ - a@
            &&& r.held@ == 0
            &&& r.total@ == acc.total@ - a@
            &&& r.locked
        }),
{
    lemma_diff_value(acc.available, a);
    lemma_sum_value(acc.held, a);
    lemma_sum_then_diff(acc.held, a);
    lemma_diff_value(acc.held.plus(a), a);
    lemma_diff_value(acc.total, a);
}

} // verus!
