//! Client accounts and the transaction state machine.

use std::collections::hash_map::Entry;
use std::collections::HashMap;

use vstd::prelude::*;

use crate::laws;
use crate::ledger::Ledger;
use crate::model::ClientId;
use crate::model::Kind;
use crate::model::RejectReason;
use crate::model::Transaction;
use crate::model::TxId;
use crate::money;
use crate::money::Money;
use crate::money::Total;

verus! {

/// Where a deposit stands in the dispute lifecycle.
///
/// Three states rather than a flag, so "charged back" cannot be mistaken for
/// "not currently disputed".
#[derive(Clone, Copy, Debug, PartialEq, Eq, Structural)]
pub enum DisputeState {
    /// Never disputed, or disputed and since resolved.
    Undisputed,
    /// Under dispute; its amount is part of the account's held funds.
    Disputed,
    /// Reversed. Unobservable while the account stays frozen, but marking it
    /// `Undisputed` would be wrong.
    ChargedBack,
}

/// A deposit, retained so a later dispute can find its amount.
///
/// Only deposits are disputable. Keeping withdrawals too would double the one
/// unbounded map.
#[derive(Clone, Copy, Debug, PartialEq, Eq, Structural)]
pub struct DepositRecord {
    pub amount: Money,
    pub client: ClientId,
    pub state: DisputeState,
}

/// A client's single asset account.
#[derive(Clone, Copy, Debug, PartialEq, Eq, Structural)]
pub struct Account {
    /// Funds the client can trade, stake or withdraw.
    pub available: Money,
    /// Funds withheld pending the outcome of a dispute.
    pub held: Money,
    /// Whether a chargeback has frozen the account.
    pub locked: bool,
}

impl Default for Account {
    /// An account with no funds, open to transactions.
    fn default() -> (account: Self)
        ensures
            account.available@ == 0,
            account.held@ == 0,
            !account.locked,
    {
        Account { available: Money::zero(), held: Money::zero(), locked: false }
    }
}

/// Adds, reporting overflow as a rejection rather than an [`Option`].
fn add(left: Money, right: Money) -> (sum: Result<Money, RejectReason>)
    ensures
        match sum {
            Ok(amount) => amount@ == left@ + right@,
            Err(reason) => reason == RejectReason::Overflow && !money::fits(left@ + right@),
        },
{
    match left.checked_add(right) {
        Some(amount) => Ok(amount),
        None => Err(RejectReason::Overflow),
    }
}

/// Subtracts, reporting overflow as a rejection rather than an [`Option`].
fn sub(left: Money, right: Money) -> (difference: Result<Money, RejectReason>)
    ensures
        match difference {
            Ok(amount) => amount@ == left@ - right@,
            Err(reason) => reason == RejectReason::Overflow && !money::fits(left@ - right@),
        },
{
    match left.checked_sub(right) {
        Some(amount) => Ok(amount),
        None => Err(RejectReason::Overflow),
    }
}

impl Account {
    /// The account after a deposit of `amount`, or why there is none.
    pub open spec fn after_deposit(self, amount: Money) -> Result<Account, RejectReason> {
        if money::fits(self.available@ + amount@) {
            Ok(Account { available: Money((self.available@ + amount@) as i64), ..self })
        } else {
            Err(RejectReason::Overflow)
        }
    }

    /// The account after a withdrawal of `amount`, or why there is none.
    pub open spec fn after_withdrawal(self, amount: Money) -> Result<Account, RejectReason> {
        if self.available@ < amount@ {
            Err(RejectReason::InsufficientFunds)
        } else if money::fits(self.available@ - amount@) {
            Ok(Account { available: Money((self.available@ - amount@) as i64), ..self })
        } else {
            Err(RejectReason::Overflow)
        }
    }

    /// The account after holding `amount`, or why that cannot be.
    pub open spec fn after_hold(self, amount: Money) -> Result<Account, RejectReason> {
        if money::fits(self.available@ - amount@) && money::fits(self.held@ + amount@) {
            Ok(
                Account {
                    available: Money((self.available@ - amount@) as i64),
                    held: Money((self.held@ + amount@) as i64),
                    ..self
                },
            )
        } else {
            Err(RejectReason::Overflow)
        }
    }

    /// The account after releasing `amount`, or why that cannot be.
    pub open spec fn after_release(self, amount: Money) -> Result<Account, RejectReason> {
        if money::fits(self.available@ + amount@) && money::fits(self.held@ - amount@) {
            Ok(
                Account {
                    available: Money((self.available@ + amount@) as i64),
                    held: Money((self.held@ - amount@) as i64),
                    ..self
                },
            )
        } else {
            Err(RejectReason::Overflow)
        }
    }

    /// The account after reversing a deposit of `amount`, or why that cannot
    /// be.
    pub open spec fn after_reversal(self, amount: Money) -> Result<Account, RejectReason> {
        if money::fits(self.held@ - amount@) {
            Ok(Account { held: Money((self.held@ - amount@) as i64), locked: true, ..self })
        } else {
            Err(RejectReason::Overflow)
        }
    }

    /// Returns `available + held`.
    #[must_use]
    pub fn total(&self) -> (total: Total)
        ensures
            total@ == self.available@ + self.held@,
    {
        self.available.widening_add(self.held)
    }

    /// Credits the account.
    fn deposit(&mut self, amount: Money) -> (result: Result<(), RejectReason>)
        ensures
            match result {
                Ok(()) => old(self).after_deposit(amount) == Ok::<Account, RejectReason>(*final(self)),
                Err(reason) => {
                    &&& old(self).after_deposit(amount) == Err::<Account, RejectReason>(reason)
                    &&& *final(self) == *old(self)
                },
            },
    {
        self.available = self::add(self.available, amount)?;
        Ok(())
    }

    /// Debits the account, if it holds enough available funds.
    fn withdraw(&mut self, amount: Money) -> (result: Result<(), RejectReason>)
        ensures
            match result {
                Ok(()) => old(self).after_withdrawal(amount) == Ok::<Account, RejectReason>(*final(self)),
                Err(reason) => {
                    &&& old(self).after_withdrawal(amount) == Err::<Account, RejectReason>(reason)
                    &&& *final(self) == *old(self)
                },
            },
    {
        if self.available < amount {
            return Err(RejectReason::InsufficientFunds);
        }
        self.available = self::sub(self.available, amount)?;
        Ok(())
    }

    /// Moves funds from available to held.
    ///
    /// Both balances are computed before either is stored, so a rejection
    /// cannot half-update the account. `available` may go negative: a client
    /// who withdrew a deposit and then disputed it owes the money back.
    fn hold(&mut self, amount: Money) -> (result: Result<(), RejectReason>)
        ensures
            match result {
                Ok(()) => old(self).after_hold(amount) == Ok::<Account, RejectReason>(*final(self)),
                Err(reason) => {
                    &&& old(self).after_hold(amount) == Err::<Account, RejectReason>(reason)
                    &&& *final(self) == *old(self)
                },
            },
    {
        let available = self::sub(self.available, amount)?;
        let held = self::add(self.held, amount)?;
        self.available = available;
        self.held = held;
        Ok(())
    }

    /// Moves funds from held back to available.
    fn release(&mut self, amount: Money) -> (result: Result<(), RejectReason>)
        ensures
            match result {
                Ok(()) => old(self).after_release(amount) == Ok::<Account, RejectReason>(*final(self)),
                Err(reason) => {
                    &&& old(self).after_release(amount) == Err::<Account, RejectReason>(reason)
                    &&& *final(self) == *old(self)
                },
            },
    {
        let available = self::add(self.available, amount)?;
        let held = self::sub(self.held, amount)?;
        self.available = available;
        self.held = held;
        Ok(())
    }

    /// Removes held funds from the account and freezes it.
    fn reverse(&mut self, amount: Money) -> (result: Result<(), RejectReason>)
        ensures
            match result {
                Ok(()) => old(self).after_reversal(amount) == Ok::<Account, RejectReason>(*final(self)),
                Err(reason) => {
                    &&& old(self).after_reversal(amount) == Err::<Account, RejectReason>(reason)
                    &&& *final(self) == *old(self)
                },
            },
    {
        self.held = self::sub(self.held, amount)?;
        self.locked = true;
        Ok(())
    }
}

/// Applies transactions to client accounts.
///
/// Takes one [`Transaction`] at a time and owns no I/O, so it works the same on
/// a file or a socket. Memory is one entry per client, at most 65,536 of them,
/// plus one record per deposit.
#[derive(Debug, PartialEq, Eq)]
pub struct Engine {
    accounts: HashMap<ClientId, Account>,
    deposits: HashMap<TxId, DepositRecord>,
}

impl View for Engine {
    type V = Ledger;

    closed spec fn view(&self) -> Ledger {
        Ledger { accounts: self.accounts@, deposits: self.deposits@ }
    }
}

impl Default for Engine {
    /// An engine with no accounts.
    fn default() -> (engine: Self)
        ensures
            engine@ == Ledger::empty(),
            engine@.sound(),
    {
        proof {
            laws::every_ledger_is_sound(Seq::empty());
        }
        Engine { accounts: HashMap::new(), deposits: HashMap::new() }
    }
}

impl Clone for Engine {
    /// An engine in the same state.
    fn clone(&self) -> (engine: Self)
        ensures
            engine@ == self@,
    {
        Engine { accounts: self.accounts.clone(), deposits: self.deposits.clone() }
    }
}

impl Engine {
    /// Creates an engine with no accounts.
    #[must_use]
    pub fn new() -> (engine: Self)
        ensures
            engine@ == Ledger::empty(),
            engine@.sound(),
    {
        Self::default()
    }

    /// Returns the accounts touched so far.
    #[must_use]
    pub fn accounts(&self) -> (accounts: &HashMap<ClientId, Account>)
        ensures
            accounts@ == self@.accounts,
    {
        &self.accounts
    }

    /// Applies one transaction, or reports why it was ignored.
    ///
    /// A rejection moves no money, but still creates the client record it
    /// names.
    pub fn apply(&mut self, transaction: Transaction) -> (result: Result<(), RejectReason>)
        ensures
            final(self)@ == old(self)@.next(transaction),
            old(self)@.sound() ==> final(self)@.sound(),
            match result {
                Ok(()) => old(self)@.refusal(transaction) is None,
                Err(reason) => old(self)@.refusal(transaction) == Some(reason),
            },
    {
        proof {
            if self@.sound() {
                laws::a_transaction_keeps_the_ledger_sound(self@, transaction);
            }
        }
        self.carry_out(transaction)
    }

    /// Carries out one transaction, or says why it is ignored.
    fn carry_out(&mut self, transaction: Transaction) -> (result: Result<(), RejectReason>)
        ensures
            final(self)@ == old(self)@.next(transaction),
            match result {
                Ok(()) => old(self)@.refusal(transaction) is None,
                Err(reason) => old(self)@.refusal(transaction) == Some(reason),
            },
    {
        let Transaction { client, tx, kind } = transaction;
        let account = self.accounts.entry(client).or_insert(Account::default());
        if account.locked {
            return Err(RejectReason::AccountLocked);
        }
        match kind {
            Kind::Deposit(amount) => match self.deposits.entry(tx) {
                // Ids are unique. A repeat could rewrite the amount of a
                // deposit that is already under dispute.
                Entry::Occupied(_) => Err(RejectReason::DuplicateTx),
                Entry::Vacant(slot) => {
                    account.deposit(amount)?;
                    slot.insert(DepositRecord { amount, client, state: DisputeState::Undisputed });
                    Ok(())
                },
            },
            Kind::Withdrawal(amount) => account.withdraw(amount),
            Kind::Dispute => {
                let record = find_deposit(&mut self.deposits, client, tx)?;
                if record.state != DisputeState::Undisputed {
                    return Err(RejectReason::TxNotDisputable);
                }
                account.hold(record.amount)?;
                record.state = DisputeState::Disputed;
                Ok(())
            },
            Kind::Resolve => {
                let record = find_deposit(&mut self.deposits, client, tx)?;
                if record.state != DisputeState::Disputed {
                    return Err(RejectReason::TxNotDisputed);
                }
                account.release(record.amount)?;
                record.state = DisputeState::Undisputed;
                Ok(())
            },
            Kind::Chargeback => {
                let record = find_deposit(&mut self.deposits, client, tx)?;
                if record.state != DisputeState::Disputed {
                    return Err(RejectReason::TxNotDisputed);
                }
                account.reverse(record.amount)?;
                record.state = DisputeState::ChargedBack;
                Ok(())
            },
        }
    }
}

/// Looks up the deposit a dispute, resolve or chargeback refers to.
///
/// The row's client must own it, or a partner could move funds on any account
/// by quoting someone else's id. This also lets clients be processed
/// independently.
fn find_deposit(
    deposits: &mut HashMap<TxId, DepositRecord>,
    client: ClientId,
    tx: TxId,
) -> (found: Result<&mut DepositRecord, RejectReason>)
    ensures
        match found {
            Ok(record) => {
                &&& old(deposits)@.contains_key(tx)
                &&& *record == old(deposits)@[tx]
                &&& record.client == client
                &&& final(deposits)@ == old(deposits)@.insert(tx, *final(record))
            },
            Err(reason) => {
                &&& final(deposits)@ == old(deposits)@
                &&& if old(deposits)@.contains_key(tx) {
                    reason == RejectReason::ClientMismatch && old(deposits)@[tx].client != client
                } else {
                    reason == RejectReason::UnknownTx
                }
            },
        },
{
    match deposits.entry(tx) {
        Entry::Vacant(_) => Err(RejectReason::UnknownTx),
        Entry::Occupied(slot) => if slot.get().client == client {
            Ok(slot.into_mut())
        } else {
            Err(RejectReason::ClientMismatch)
        },
    }
}

} // verus!
