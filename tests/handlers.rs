use ledger::amount::Amount;
use ledger::models::{Account, Ledger, Transaction, TxCategory, TxState};

fn units(n: i64) -> Amount {
    Amount::from_whole(n)
}

#[test]
fn test_accounts() {
    let mut account = Account::default();
    account.handle_deposit(&units(100));
    assert_eq!(account.available, units(100));
    assert_eq!(account.total, units(100));

    account.handle_withdrawal(&units(99));
    assert_eq!(account.available, units(1));
    assert_eq!(account.total, units(1));

    account.handle_dispute(&units(1));
    assert_eq!(account.available, units(0));
    assert_eq!(account.held, units(1));
    assert_eq!(account.total, units(1));

    account.handle_resolve(&units(1));
    assert_eq!(account.available, units(1));
    assert_eq!(account.held, units(0));
    assert_eq!(account.total, units(1));

    account.handle_dispute(&units(1));
    account.handle_chargeback(&units(1));
    assert_eq!(account.available, units(0));
    assert_eq!(account.held, units(0));
    assert_eq!(account.total, units(0));
}

#[test]
fn account_predicates() {
    let mut account = Account::default();
    account.handle_deposit(&units(10));
    assert!(account.can_withdraw(&units(10)));
    assert!(!account.can_withdraw(&units(11)));
    assert!(account.can_dispute(&units(10)));
    assert!(!account.can_dispute(&units(11)));
    assert!(!account.can_resolve(&units(1)));
    assert!(!account.can_chargeback(&units(1)));
    account.handle_dispute(&units(4));
    assert!(account.can_resolve(&units(4)));
    assert!(account.can_chargeback(&units(4)));
    account.handle_chargeback(&units(4));
    assert!(account.locked);
    assert!(!account.can_withdraw(&units(1)));
    assert!(account.can_dispute(&units(1)));
}

#[test]
fn transaction_constructors() {
    let d = Transaction::from_deposit(3, units(5));
    assert_eq!(d.category, TxCategory::Deposit);
    assert_eq!(d.state, TxState::Normal);
    assert_eq!(d.amount, units(5));
    assert_eq!(d.client_id, 3);
    let w = Transaction::from_withdrawal(4, units(6));
    assert_eq!(w.category, TxCategory::Withdrawal);
    assert_eq!(w.state, TxState::Normal);
    assert_eq!(w.client_id, 4);
}

#[test]
fn deposit_to_new_client() {
    let mut ledger = Ledger::default();
    ledger.handle_deposit(&7, &1, &units(25));
    let a = ledger.accounts[&7];
    assert_eq!(a.available, units(25));
    assert_eq!(a.total, units(25));
    assert_eq!(a.held, units(0));
    assert!(!a.locked);
    assert_eq!(ledger.transactions[&1], Transaction::from_deposit(7, units(25)));
}

#[test]
fn overdraft_is_noop_and_not_recorded() {
    let mut ledger = Ledger::new();
    ledger.handle_deposit(&1, &1, &units(10));
    ledger.handle_withdrawal(&1, &2, &units(11));
    let a = ledger.accounts[&1];
    assert_eq!(a.available, units(10));
    assert_eq!(a.total, units(10));
    assert!(!ledger.transactions.contains_key(&2));
    ledger.handle_dispute(&1, &2);
    let b = ledger.accounts[&1];
    assert_eq!(a, b);
    assert_eq!(ledger.transactions.len(), 1);
}

#[test]
fn withdrawal_records_transaction() {
    let mut ledger = Ledger::new();
    ledger.handle_deposit(&1, &1, &units(10));
    ledger.handle_withdrawal(&1, &2, &units(4));
    assert_eq!(ledger.accounts[&1].available, units(6));
    assert_eq!(ledger.transactions[&2], Transaction::from_withdrawal(1, units(4)));
    // withdrawals cannot be disputed
    ledger.handle_dispute(&1, &2);
    assert_eq!(ledger.accounts[&1].held, units(0));
    assert_eq!(ledger.transactions[&2].state, TxState::Normal);
}

#[test]
fn unknown_client_gets_empty_account() {
    let mut ledger = Ledger::new();
    ledger.handle_withdrawal(&5, &1, &units(3));
    assert_eq!(ledger.accounts[&5], Account::default());
    assert!(ledger.transactions.is_empty());
    ledger.handle_dispute(&6, &1);
    ledger.handle_resolve(&8, &1);
    ledger.handle_chargeback(&9, &1);
    assert_eq!(ledger.accounts.len(), 4);
    assert!(ledger.transactions.is_empty());
}

#[test]
fn dispute_then_resolve_restores_balances() {
    let mut ledger = Ledger::new();
    ledger.handle_deposit(&1, &1, &units(30));
    ledger.handle_deposit(&1, &2, &units(20));
    ledger.handle_dispute(&1, &2);
    let a = ledger.accounts[&1];
    assert_eq!(a.available, units(30));
    assert_eq!(a.held, units(20));
    assert_eq!(a.total, units(50));
    assert_eq!(ledger.transactions[&2].state, TxState::Disputed);
    ledger.handle_resolve(&1, &2);
    let b = ledger.accounts[&1];
    assert_eq!(b.available, units(50));
    assert_eq!(b.held, units(0));
    assert_eq!(b.total, units(50));
    assert_eq!(ledger.transactions[&2].state, TxState::Normal);
}

#[test]
fn dispute_then_chargeback_locks() {
    let mut ledger = Ledger::new();
    ledger.handle_deposit(&1, &1, &units(30));
    ledger.handle_deposit(&1, &2, &units(20));
    ledger.handle_dispute(&1, &2);
    ledger.handle_chargeback(&1, &2);
    let a = ledger.accounts[&1];
    assert_eq!(a.available, units(30));
    assert_eq!(a.held, units(0));
    assert_eq!(a.total, units(30));
    assert!(a.locked);
    assert_eq!(ledger.transactions[&2].state, TxState::Chargedback);
    ledger.handle_chargeback(&1, &2);
    assert_eq!(ledger.accounts[&1], a);
    // a locked account still takes deposits but refuses withdrawals
    ledger.handle_deposit(&1, &3, &units(5));
    assert_eq!(ledger.accounts[&1].available, units(35));
    ledger.handle_withdrawal(&1, &4, &units(1));
    assert_eq!(ledger.accounts[&1].available, units(35));
    assert!(!ledger.transactions.contains_key(&4));
}

#[test]
fn dispute_does_not_check_owner_but_resolve_does() {
    let mut ledger = Ledger::new();
    ledger.handle_deposit(&1, &1, &units(10));
    ledger.handle_deposit(&2, &2, &units(10));
    // client 2 disputes client 1's deposit: funds move in client 2's account
    ledger.handle_dispute(&2, &1);
    assert_eq!(ledger.accounts[&2].held, units(10));
    assert_eq!(ledger.accounts[&2].available, units(0));
    assert_eq!(ledger.transactions[&1].state, TxState::Disputed);
    // client 2 cannot resolve a deposit it does not own
    ledger.handle_resolve(&2, &1);
    assert_eq!(ledger.accounts[&2].held, units(10));
    assert_eq!(ledger.transactions[&1].state, TxState::Disputed);
    // the owner cannot resolve either: its own held balance is empty
    ledger.handle_resolve(&1, &1);
    assert_eq!(ledger.accounts[&1].available, units(10));
    assert_eq!(ledger.transactions[&1].state, TxState::Disputed);
}

#[test]
fn balances_always_agree() {
    let mut ledger = Ledger::new();
    ledger.handle_deposit(&1, &1, &units(10));
    ledger.handle_deposit(&1, &2, &units(7));
    ledger.handle_withdrawal(&1, &3, &units(4));
    ledger.handle_dispute(&1, &2);
    ledger.handle_chargeback(&1, &2);
    ledger.handle_deposit(&2, &4, &units(1));
    ledger.handle_dispute(&2, &4);
    for a in ledger.accounts.values() {
        assert_eq!(Some(a.total), a.available.checked_add(&a.held));
    }
}
