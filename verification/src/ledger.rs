//! What the accounts and the deposits behind them are, and what each
//! transaction does to them.

use vstd::prelude::*;

use crate::engine::Account;
use crate::engine::DepositRecord;
use crate::engine::DisputeState;
use crate::model::ClientId;
use crate::model::Kind;
use crate::model::RejectReason;
use crate::model::Transaction;
use crate::model::TxId;
use crate::money;
use crate::money::Money;

verus! {

/// The state of an engine: the account of each client that a transaction has
/// named, and the deposit behind each transaction id.
#[verifier::ext_equal]
pub struct Ledger {
    pub accounts: Map<ClientId, Account>,
    pub deposits: Map<TxId, DepositRecord>,
}

impl Ledger {
    /// The ledger before any transaction.
    pub open spec fn empty() -> Ledger {
        Ledger { accounts: Map::empty(), deposits: Map::empty() }
    }

    /// The account of a client, which is empty and unlocked until a
    /// transaction names the client.
    pub open spec fn account(self, client: ClientId) -> Account {
        if self.accounts.contains_key(client) {
            self.accounts[client]
        } else {
            Account { available: Money(0), held: Money(0), locked: false }
        }
    }

    /// The ledger with a record for `client`, created if there is none.
    pub open spec fn opened(self, client: ClientId) -> Ledger {
        self.with_account(client, self.account(client))
    }

    /// The ledger in which `client` has the given account.
    pub open spec fn with_account(self, client: ClientId, account: Account) -> Ledger {
        Ledger { accounts: self.accounts.insert(client, account), deposits: self.deposits }
    }

    /// The ledger in which `tx` has the given record.
    pub open spec fn with_deposit(self, tx: TxId, record: DepositRecord) -> Ledger {
        Ledger { accounts: self.accounts, deposits: self.deposits.insert(tx, record) }
    }

    /// Why `tx` is not a deposit of `client`, if it is not.
    pub open spec fn missing(self, client: ClientId, tx: TxId) -> Option<RejectReason> {
        if !self.deposits.contains_key(tx) {
            Some(RejectReason::UnknownTx)
        } else if self.deposits[tx].client != client {
            Some(RejectReason::ClientMismatch)
        } else {
            None
        }
    }

    /// Why a transaction is ignored, or [`None`] if it is carried out.
    pub open spec fn refusal(self, t: Transaction) -> Option<RejectReason> {
        let account = self.account(t.client);
        let available = account.available@;
        let held = account.held@;
        let record = self.deposits[t.tx];
        if account.locked {
            Some(RejectReason::AccountLocked)
        } else {
            match t.kind {
                Kind::Deposit(amount) => if self.deposits.contains_key(t.tx) {
                    Some(RejectReason::DuplicateTx)
                } else if !money::fits(available + amount@) {
                    Some(RejectReason::Overflow)
                } else {
                    None
                },
                Kind::Withdrawal(amount) => if available < amount@ {
                    Some(RejectReason::InsufficientFunds)
                } else if !money::fits(available - amount@) {
                    Some(RejectReason::Overflow)
                } else {
                    None
                },
                Kind::Dispute => if self.missing(t.client, t.tx) is Some {
                    self.missing(t.client, t.tx)
                } else if record.state != DisputeState::Undisputed {
                    Some(RejectReason::TxNotDisputable)
                } else if !money::fits(available - record.amount@) || !money::fits(
                    held + record.amount@,
                ) {
                    Some(RejectReason::Overflow)
                } else {
                    None
                },
                Kind::Resolve => if self.missing(t.client, t.tx) is Some {
                    self.missing(t.client, t.tx)
                } else if record.state != DisputeState::Disputed {
                    Some(RejectReason::TxNotDisputed)
                } else if !money::fits(available + record.amount@) || !money::fits(
                    held - record.amount@,
                ) {
                    Some(RejectReason::Overflow)
                } else {
                    None
                },
                Kind::Chargeback => if self.missing(t.client, t.tx) is Some {
                    self.missing(t.client, t.tx)
                } else if record.state != DisputeState::Disputed {
                    Some(RejectReason::TxNotDisputed)
                } else if !money::fits(held - record.amount@) {
                    Some(RejectReason::Overflow)
                } else {
                    None
                },
            }
        }
    }

    /// What a transaction that is carried out makes of the ledger.
    pub open spec fn carried_out(self, t: Transaction) -> Ledger {
        let account = self.account(t.client);
        let record = self.deposits[t.tx];
        match t.kind {
            Kind::Deposit(amount) => self.with_account(
                t.client,
                Account { available: Money((account.available@ + amount@) as i64), ..account },
            ).with_deposit(
                t.tx,
                DepositRecord { amount, client: t.client, state: DisputeState::Undisputed },
            ),
            Kind::Withdrawal(amount) => self.with_account(
                t.client,
                Account { available: Money((account.available@ - amount@) as i64), ..account },
            ),
            Kind::Dispute => self.with_account(
                t.client,
                Account {
                    available: Money((account.available@ - record.amount@) as i64),
                    held: Money((account.held@ + record.amount@) as i64),
                    ..account
                },
            ).with_deposit(t.tx, DepositRecord { state: DisputeState::Disputed, ..record }),
            Kind::Resolve => self.with_account(
                t.client,
                Account {
                    available: Money((account.available@ + record.amount@) as i64),
                    held: Money((account.held@ - record.amount@) as i64),
                    ..account
                },
            ).with_deposit(t.tx, DepositRecord { state: DisputeState::Undisputed, ..record }),
            Kind::Chargeback => self.with_account(
                t.client,
                Account {
                    held: Money((account.held@ - record.amount@) as i64),
                    locked: true,
                    ..account
                },
            ).with_deposit(t.tx, DepositRecord { state: DisputeState::ChargedBack, ..record }),
        }
    }

    /// What a transaction makes of the ledger. One that is ignored still
    /// creates the client record it names, and does nothing else.
    pub open spec fn next(self, t: Transaction) -> Ledger {
        if self.refusal(t) is None {
            self.carried_out(t)
        } else {
            self.opened(t.client)
        }
    }

    /// What a sequence of transactions, one after the other, makes of the
    /// ledger.
    pub open spec fn after(self, ts: Seq<Transaction>) -> Ledger
        decreases ts.len(),
    {
        if ts.len() == 0 {
            self
        } else {
            self.after(ts.drop_last()).next(ts.last())
        }
    }
}

} // verus!
