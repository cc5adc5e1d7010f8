//! The validated form of an input row, and the reasons a row can be ignored.

use std::cmp::Ordering;

use vstd::prelude::*;
use vstd::std_specs::cmp::PartialOrdSpecImpl;

use crate::money;
use crate::money::Money;

verus! {

/// Identifies a client account.
pub type ClientId = u16;

/// Identifies a transaction. Globally unique across all clients.
pub type TxId = u32;

/// A transaction, after validation.
///
/// The amount lives in [`Kind`] because only two kinds have one, so the engine
/// cannot ask a dispute for an amount it lacks.
#[derive(Clone, Copy, Debug, PartialEq, Eq, Structural)]
pub struct Transaction {
    /// The account the transaction applies to.
    pub client: ClientId,
    /// The transaction this row creates, or refers back to.
    pub tx: TxId,
    /// What the transaction does.
    pub kind: Kind,
}

/// What a [`Transaction`] does.
#[derive(Clone, Copy, Debug, PartialEq, Eq, Structural)]
pub enum Kind {
    /// Credits the account.
    Deposit(Money),
    /// Debits the account, if the funds are available.
    Withdrawal(Money),
    /// Claims a past deposit was erroneous and holds its funds.
    Dispute,
    /// Ends a dispute, releasing the held funds back to the client.
    Resolve,
    /// Ends a dispute by reversing the deposit and freezing the account.
    Chargeback,
}

/// Why a row was ignored.
///
/// A declined row is a normal outcome, not a failure of this program. One
/// variant per thing a partner would have to fix. Ordered by declaration, which
/// is the order the end-of-run summary prints.
#[derive(Clone, Copy, Debug, PartialEq, Eq, Structural, Ord)]
pub enum RejectReason {
    /// A client or transaction id was missing or not a valid integer.
    MalformedRow,
    /// The transaction type was not one of the five known types.
    UnknownType,
    /// A deposit or withdrawal had a missing or unrepresentable amount.
    AmountShape,
    /// The account is frozen after a chargeback and accepts nothing further.
    AccountLocked,
    /// The withdrawal exceeded the available funds.
    InsufficientFunds,
    /// The transaction id has already been used by an earlier deposit.
    DuplicateTx,
    /// No deposit exists with the referenced transaction id.
    UnknownTx,
    /// The referenced deposit belongs to a different client.
    ClientMismatch,
    /// The referenced deposit is already disputed, or already charged back.
    TxNotDisputable,
    /// The referenced deposit is not currently under dispute.
    TxNotDisputed,
    /// Applying the transaction would have overflowed a balance.
    Overflow,
}

/// How many reasons there are.
pub const REASONS: usize = 11;

impl RejectReason {
    /// The place of a reason in the order of declaration.
    pub open spec fn rank_spec(self) -> int {
        match self {
            RejectReason::MalformedRow => 0,
            RejectReason::UnknownType => 1,
            RejectReason::AmountShape => 2,
            RejectReason::AccountLocked => 3,
            RejectReason::InsufficientFunds => 4,
            RejectReason::DuplicateTx => 5,
            RejectReason::UnknownTx => 6,
            RejectReason::ClientMismatch => 7,
            RejectReason::TxNotDisputable => 8,
            RejectReason::TxNotDisputed => 9,
            RejectReason::Overflow => 10,
        }
    }

    /// The reasons in the order of declaration.
    pub open spec fn declared() -> Seq<RejectReason> {
        seq![
            RejectReason::MalformedRow,
            RejectReason::UnknownType,
            RejectReason::AmountShape,
            RejectReason::AccountLocked,
            RejectReason::InsufficientFunds,
            RejectReason::DuplicateTx,
            RejectReason::UnknownTx,
            RejectReason::ClientMismatch,
            RejectReason::TxNotDisputable,
            RejectReason::TxNotDisputed,
            RejectReason::Overflow,
        ]
    }

    /// The words that the end-of-run summary uses for a reason.
    pub open spec fn words(self) -> Seq<char> {
        match self {
            RejectReason::MalformedRow => "malformed row"@,
            RejectReason::UnknownType => "unknown transaction type"@,
            RejectReason::AmountShape => "missing or invalid amount"@,
            RejectReason::AccountLocked => "account locked"@,
            RejectReason::InsufficientFunds => "insufficient funds"@,
            RejectReason::DuplicateTx => "duplicate transaction id"@,
            RejectReason::UnknownTx => "unknown transaction id"@,
            RejectReason::ClientMismatch => "transaction belongs to another client"@,
            RejectReason::TxNotDisputable => "transaction is not disputable"@,
            RejectReason::TxNotDisputed => "transaction is not under dispute"@,
            RejectReason::Overflow => "balance would overflow"@,
        }
    }

    /// The place of this reason in the order of declaration.
    #[must_use]
    pub fn rank(self) -> (rank: usize)
        ensures
            rank == self.rank_spec(),
            rank < REASONS,
    {
        match self {
            RejectReason::MalformedRow => 0,
            RejectReason::UnknownType => 1,
            RejectReason::AmountShape => 2,
            RejectReason::AccountLocked => 3,
            RejectReason::InsufficientFunds => 4,
            RejectReason::DuplicateTx => 5,
            RejectReason::UnknownTx => 6,
            RejectReason::ClientMismatch => 7,
            RejectReason::TxNotDisputable => 8,
            RejectReason::TxNotDisputed => 9,
            RejectReason::Overflow => 10,
        }
    }

    /// The reason at a place in the order of declaration.
    #[must_use]
    pub fn at(rank: usize) -> (reason: Self)
        requires
            rank < REASONS,
        ensures
            reason == RejectReason::declared()[rank as int],
            reason.rank_spec() == rank,
    {
        match rank {
            0 => RejectReason::MalformedRow,
            1 => RejectReason::UnknownType,
            2 => RejectReason::AmountShape,
            3 => RejectReason::AccountLocked,
            4 => RejectReason::InsufficientFunds,
            5 => RejectReason::DuplicateTx,
            6 => RejectReason::UnknownTx,
            7 => RejectReason::ClientMismatch,
            8 => RejectReason::TxNotDisputable,
            9 => RejectReason::TxNotDisputed,
            _ => RejectReason::Overflow,
        }
    }

    /// The words that the end-of-run summary uses for this reason.
    #[must_use]
    pub fn to_string(&self) -> (shown: String)
        ensures
            shown@ == self.words(),
    {
        let words = match self {
            RejectReason::MalformedRow => "malformed row",
            RejectReason::UnknownType => "unknown transaction type",
            RejectReason::AmountShape => "missing or invalid amount",
            RejectReason::AccountLocked => "account locked",
            RejectReason::InsufficientFunds => "insufficient funds",
            RejectReason::DuplicateTx => "duplicate transaction id",
            RejectReason::UnknownTx => "unknown transaction id",
            RejectReason::ClientMismatch => "transaction belongs to another client",
            RejectReason::TxNotDisputable => "transaction is not disputable",
            RejectReason::TxNotDisputed => "transaction is not under dispute",
            RejectReason::Overflow => "balance would overflow",
        };
        words.to_owned()
    }
}

impl PartialOrd for RejectReason {
    fn partial_cmp(&self, other: &Self) -> (order: Option<Ordering>) {
        let left: usize = self.rank();
        let right: usize = other.rank();
        if left < right {
            Some(Ordering::Less)
        } else if left == right {
            Some(Ordering::Equal)
        } else {
            Some(Ordering::Greater)
        }
    }
}

impl PartialOrdSpecImpl for RejectReason {
    open spec fn obeys_partial_cmp_spec() -> bool {
        true
    }

    open spec fn partial_cmp_spec(&self, other: &Self) -> Option<Ordering> {
        money::order_of(self.rank_spec(), other.rank_spec())
    }
}

/// Each reason stands in the order of declaration at its own place, and reasons
/// compare as their places do.
pub proof fn reasons_have_places_of_their_own(a: RejectReason, b: RejectReason)
    ensures
        0 <= a.rank_spec() < REASONS,
        RejectReason::declared().len() == REASONS,
        RejectReason::declared()[a.rank_spec()] == a,
        a.rank_spec() == b.rank_spec() <==> a == b,
        vstd::std_specs::cmp::PartialOrdSpec::partial_cmp_spec(&a, &b) == Some(Ordering::Less)
            <==> a.rank_spec() < b.rank_spec(),
        vstd::std_specs::cmp::PartialOrdSpec::partial_cmp_spec(&a, &b) == Some(Ordering::Equal)
            <==> a == b,
        vstd::std_specs::cmp::PartialOrdSpec::partial_cmp_spec(&a, &b) == Some(Ordering::Greater)
            <==> a.rank_spec() > b.rank_spec(),
{
}

} // verus!
