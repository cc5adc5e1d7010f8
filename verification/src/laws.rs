//! What holds of every ledger, whatever the transactions.

use vstd::prelude::*;

use crate::engine::Account;
use crate::engine::DisputeState;
use crate::ledger::Ledger;
use crate::model::ClientId;
use crate::model::Kind;
use crate::model::RejectReason;
use crate::model::Transaction;
use crate::model::TxId;
use crate::money::Money;

verus! {

/// How many transaction ids there are.
pub open spec fn all_ids() -> nat {
    0x1_0000_0000
}

impl Ledger {
    /// What the deposit `tx` adds to the held funds of `client`: its amount
    /// while it is the client's and under dispute, otherwise nothing.
    pub open spec fn disputed_amount(self, client: ClientId, tx: TxId) -> int {
        if self.deposits.contains_key(tx) && self.deposits[tx].client == client
            && self.deposits[tx].state == DisputeState::Disputed {
            self.deposits[tx].amount@
        } else {
            0
        }
    }

    /// The sum of a client's open disputes among the first `n` ids.
    pub open spec fn disputed_among(self, client: ClientId, n: nat) -> int
        decreases n,
    {
        if n == 0 {
            0
        } else {
            self.disputed_among(client, (n - 1) as nat) + self.disputed_amount(
                client,
                (n - 1) as TxId,
            )
        }
    }

    /// The sum of a client's open disputes.
    pub open spec fn disputed(self, client: ClientId) -> int {
        self.disputed_among(client, all_ids())
    }

    /// Whether the deposit `tx` was charged back from `client`.
    pub open spec fn charged_back(self, client: ClientId, tx: TxId) -> bool {
        &&& self.deposits.contains_key(tx)
        &&& self.deposits[tx].client == client
        &&& self.deposits[tx].state == DisputeState::ChargedBack
    }

    /// Whether `tx` is a deposit of `client`.
    pub open spec fn owns(self, client: ClientId, tx: TxId) -> bool {
        self.deposits.contains_key(tx) && self.deposits[tx].client == client
    }

    /// Whether accounts and deposits agree: held funds are the sum of the open
    /// disputes, an account is frozen exactly if a deposit was charged back
    /// from it, and every deposit has an account.
    pub open spec fn sound(self) -> bool {
        &&& forall|client: ClientId|
            (#[trigger] self.account(client)).held@ == self.disputed(client)
        &&& forall|client: ClientId|
            (#[trigger] self.account(client)).locked <==> exists|tx: TxId|
                self.charged_back(client, tx)
        &&& forall|tx: TxId| #[trigger]
            self.deposits.contains_key(tx) ==> self.accounts.contains_key(self.deposits[tx].client)
    }
}

/// Sums over ledgers that agree on each deposit of a client are the same.
proof fn same_disputes_same_sum(a: Ledger, b: Ledger, client: ClientId, n: nat)
    requires
        n <= all_ids(),
        forall|tx: TxId| #[trigger]
            a.disputed_amount(client, tx) == b.disputed_amount(client, tx),
    ensures
        a.disputed_among(client, n) == b.disputed_among(client, n),
    decreases n,
{
    if n > 0 {
        same_disputes_same_sum(a, b, client, (n - 1) as nat);
        assert(a.disputed_amount(client, (n - 1) as TxId) == b.disputed_amount(
            client,
            (n - 1) as TxId,
        ));
    }
}

/// Changing one deposit changes the sum by what that deposit's part changes.
proof fn one_dispute_moves_the_sum(a: Ledger, b: Ledger, client: ClientId, tx: TxId, n: nat)
    requires
        n <= all_ids(),
        forall|other: TxId|
            other != tx ==> #[trigger] a.disputed_amount(client, other) == b.disputed_amount(
                client,
                other,
            ),
    ensures
        b.disputed_among(client, n) == a.disputed_among(client, n) + if tx < n {
            b.disputed_amount(client, tx) - a.disputed_amount(client, tx)
        } else {
            0
        },
    decreases n,
{
    if n > 0 {
        one_dispute_moves_the_sum(a, b, client, tx, (n - 1) as nat);
        let last = (n - 1) as TxId;
        if last != tx {
            assert(a.disputed_amount(client, last) == b.disputed_amount(client, last));
        }
    }
}

/// Whatever a transaction is, it keeps a sound ledger sound.
pub proof fn a_transaction_keeps_the_ledger_sound(ledger: Ledger, t: Transaction)
    requires
        ledger.sound(),
    ensures
        ledger.next(t).sound(),
{
    let next = ledger.next(t);
    assert forall|client: ClientId|
        (#[trigger] next.account(client)).held@ == next.disputed(client) by {
        assert(ledger.account(client).held@ == ledger.disputed(client));
        if ledger.refusal(t) is None {
            one_dispute_moves_the_sum(ledger, next, client, t.tx, all_ids());
        } else {
            same_disputes_same_sum(ledger, next, client, all_ids());
        }
    }
    assert forall|client: ClientId|
        (#[trigger] next.account(client)).locked <==> exists|tx: TxId|
            next.charged_back(client, tx) by {
        assert(ledger.account(client).locked <==> exists|tx: TxId|
            ledger.charged_back(client, tx));
        if ledger.account(client).locked {
            let tx = choose|tx: TxId| ledger.charged_back(client, tx);
            assert(next.charged_back(client, tx));
        }
        if next.account(client).locked && !ledger.account(client).locked {
            assert(next.charged_back(client, t.tx));
        }
        if exists|tx: TxId| next.charged_back(client, tx) {
            let tx = choose|tx: TxId| next.charged_back(client, tx);
            if !ledger.charged_back(client, tx) {
                assert(tx == t.tx);
            }
        }
    }
}

/// Every ledger that transactions make of the empty one is sound.
pub proof fn every_ledger_is_sound(ts: Seq<Transaction>)
    ensures
        Ledger::empty().after(ts).sound(),
    decreases ts.len(),
{
    if ts.len() == 0 {
        let ledger = Ledger::empty();
        assert forall|client: ClientId|
            (#[trigger] ledger.account(client)).held@ == ledger.disputed(client) by {
            nothing_is_disputed_at_first(client, all_ids());
        }
    } else {
        every_ledger_is_sound(ts.drop_last());
        a_transaction_keeps_the_ledger_sound(Ledger::empty().after(ts.drop_last()), ts.last());
    }
}

proof fn nothing_is_disputed_at_first(client: ClientId, n: nat)
    ensures
        Ledger::empty().disputed_among(client, n) == 0,
    decreases n,
{
    if n > 0 {
        nothing_is_disputed_at_first(client, (n - 1) as nat);
    }
}

/// A deposit of `client` under the id `tx` is among the transactions.
pub open spec fn deposited(ts: Seq<Transaction>, client: ClientId, tx: TxId) -> bool {
    exists|i: int|
        0 <= i < ts.len() && (#[trigger] ts[i]).kind is Deposit && ts[i].client == client
            && ts[i].tx == tx
}

/// Whether no deposit among the transactions is of a negative amount.
pub open spec fn deposits_are_not_negative(ts: Seq<Transaction>) -> bool {
    forall|i: int|
        0 <= i < ts.len() ==> ((#[trigger] ts[i]).kind matches Kind::Deposit(amount) ==> amount@
            >= 0)
}

/// Every record stems from a deposit among the transactions. So withdrawals
/// are never on record.
pub proof fn only_deposits_are_recorded(ts: Seq<Transaction>, tx: TxId)
    requires
        Ledger::empty().after(ts).deposits.contains_key(tx),
    ensures
        deposited(ts, Ledger::empty().after(ts).deposits[tx].client, tx),
    decreases ts.len(),
{
    if ts.len() > 0 {
        let before = Ledger::empty().after(ts.drop_last());
        let t = ts.last();
        if before.deposits.contains_key(tx) {
            only_deposits_are_recorded(ts.drop_last(), tx);
            let client = before.deposits[tx].client;
            let i = choose|i: int|
                0 <= i < ts.drop_last().len() && (#[trigger] ts.drop_last()[i]).kind is Deposit
                    && ts.drop_last()[i].client == client && ts.drop_last()[i].tx == tx;
            assert(ts[i] == ts.drop_last()[i]);
        } else {
            assert(ts[ts.len() - 1] == t);
        }
    }
}

/// A dispute, resolve or chargeback of an id that no deposit has used is
/// ignored, whether or not a withdrawal has used it.
pub proof fn only_deposits_are_disputable(ts: Seq<Transaction>, t: Transaction)
    requires
        t.kind is Dispute || t.kind is Resolve || t.kind is Chargeback,
        forall|client: ClientId| !deposited(ts, client, t.tx),
    ensures
        Ledger::empty().after(ts).refusal(t) == (if Ledger::empty().after(ts).account(
            t.client,
        ).locked {
            Some(RejectReason::AccountLocked)
        } else {
            Some(RejectReason::UnknownTx)
        }),
{
    let ledger = Ledger::empty().after(ts);
    if ledger.deposits.contains_key(t.tx) {
        only_deposits_are_recorded(ts, t.tx);
    }
}

/// If no deposit is negative, no recorded amount is.
proof fn recorded_amounts_are_not_negative(ts: Seq<Transaction>, tx: TxId)
    requires
        deposits_are_not_negative(ts),
        Ledger::empty().after(ts).deposits.contains_key(tx),
    ensures
        Ledger::empty().after(ts).deposits[tx].amount@ >= 0,
    decreases ts.len(),
{
    if ts.len() > 0 {
        let before = Ledger::empty().after(ts.drop_last());
        assert(deposits_are_not_negative(ts.drop_last())) by {
            assert forall|i: int| 0 <= i < ts.drop_last().len() implies ((
            #[trigger] ts.drop_last()[i]).kind matches Kind::Deposit(amount) ==> amount@ >= 0) by {
                assert(ts.drop_last()[i] == ts[i]);
            }
        }
        assert(ts[ts.len() - 1] == ts.last());
        if before.deposits.contains_key(tx) {
            recorded_amounts_are_not_negative(ts.drop_last(), tx);
        }
    }
}

/// Sums of amounts that are not negative are not negative.
proof fn disputes_are_not_negative(ts: Seq<Transaction>, client: ClientId, n: nat)
    requires
        deposits_are_not_negative(ts),
    ensures
        Ledger::empty().after(ts).disputed_among(client, n) >= 0,
    decreases n,
{
    if n > 0 {
        disputes_are_not_negative(ts, client, (n - 1) as nat);
        let tx = (n - 1) as TxId;
        if Ledger::empty().after(ts).deposits.contains_key(tx) {
            recorded_amounts_are_not_negative(ts, tx);
        }
    }
}

/// Held funds are the sum of the open disputes, so they never go below zero
/// however the transactions interleave.
pub proof fn held_funds_are_never_negative(ts: Seq<Transaction>, client: ClientId)
    requires
        deposits_are_not_negative(ts),
    ensures
        Ledger::empty().after(ts).account(client).held@ == Ledger::empty().after(ts).disputed(
            client,
        ),
        Ledger::empty().after(ts).account(client).held@ >= 0,
{
    every_ledger_is_sound(ts);
    disputes_are_not_negative(ts, client, all_ids());
}

/// A transaction that is ignored changes no account and no deposit. All it may
/// do is create the record of the client it names.
pub proof fn a_rejected_transaction_moves_no_money(ledger: Ledger, t: Transaction)
    requires
        ledger.refusal(t) is Some,
    ensures
        ledger.next(t).deposits == ledger.deposits,
        forall|client: ClientId| #[trigger]
            ledger.next(t).account(client) == ledger.account(client),
        ledger.next(t).accounts.dom() == ledger.accounts.dom().insert(t.client),
{
    assert(ledger.next(t).accounts.dom() =~= ledger.accounts.dom().insert(t.client));
}

/// Every transaction leaves a record of the client it names, and of no other
/// client that had none.
pub proof fn a_transaction_creates_the_client_it_names(ledger: Ledger, t: Transaction)
    ensures
        ledger.next(t).accounts.dom() == ledger.accounts.dom().insert(t.client),
{
    assert(ledger.next(t).accounts.dom() =~= ledger.accounts.dom().insert(t.client));
}

/// Releasing what was just held is always possible, and restores the account
/// exactly.
pub proof fn a_release_undoes_a_hold(account: Account, amount: Money)
    requires
        account.after_hold(amount) is Ok,
    ensures
        account.after_hold(amount)->Ok_0.after_release(amount) == Ok::<Account, RejectReason>(
            account,
        ),
{
}

/// Withdrawing what was just deposited is always possible where the available
/// funds were not negative, and restores the account exactly.
pub proof fn a_withdrawal_undoes_a_deposit(account: Account, amount: Money)
    requires
        account.available@ >= 0,
        account.after_deposit(amount) is Ok,
    ensures
        account.after_deposit(amount)->Ok_0.after_withdrawal(amount) == Ok::<Account, RejectReason>(
            account,
        ),
{
}

/// Disputing a deposit and then resolving the dispute is always possible, and
/// restores every account and every deposit. In a sound ledger, where each
/// deposit has an account, it restores the ledger exactly.
pub proof fn a_dispute_that_resolves_is_a_round_trip(ledger: Ledger, t: Transaction)
    requires
        t.kind == Kind::Dispute,
        ledger.refusal(t) is None,
    ensures
        ledger.next(t).refusal(Transaction { kind: Kind::Resolve, ..t }) is None,
        ledger.next(t).next(Transaction { kind: Kind::Resolve, ..t }) == ledger.opened(t.client),
        ledger.sound() ==> ledger.next(t).next(Transaction { kind: Kind::Resolve, ..t }) == ledger,
{
    let back = ledger.next(t).next(Transaction { kind: Kind::Resolve, ..t });
    assert(back.accounts =~= ledger.opened(t.client).accounts);
    assert(back.deposits =~= ledger.deposits);
    if ledger.sound() {
        assert(ledger.opened(t.client).accounts =~= ledger.accounts);
    }
}

/// A transaction touches nothing of a client it does not name: neither the
/// account nor any deposit, and it makes no deposit of theirs.
pub proof fn other_clients_are_untouched(ledger: Ledger, t: Transaction, client: ClientId)
    requires
        client != t.client,
    ensures
        ledger.next(t).account(client) == ledger.account(client),
        ledger.next(t).accounts.contains_key(client) == ledger.accounts.contains_key(client),
        forall|tx: TxId| #[trigger]
            ledger.owns(client, tx) == ledger.next(t).owns(client, tx),
        forall|tx: TxId| #[trigger]
            ledger.owns(client, tx) ==> ledger.next(t).deposits[tx] == ledger.deposits[tx],
{
}

/// A frozen account accepts nothing: every transaction on it is ignored and
/// leaves the ledger as it is.
pub proof fn a_frozen_account_ignores_everything(ledger: Ledger, t: Transaction)
    requires
        ledger.account(t.client).locked,
    ensures
        ledger.refusal(t) == Some(RejectReason::AccountLocked),
        ledger.next(t) == ledger,
{
    assert(ledger.next(t).accounts =~= ledger.accounts);
}

/// Once an account is frozen it stays as it is, whatever follows.
pub proof fn a_frozen_account_never_changes(
    ledger: Ledger,
    ts: Seq<Transaction>,
    client: ClientId,
)
    requires
        ledger.account(client).locked,
    ensures
        ledger.after(ts).account(client) == ledger.account(client),
    decreases ts.len(),
{
    if ts.len() > 0 {
        a_frozen_account_never_changes(ledger, ts.drop_last(), client);
        let before = ledger.after(ts.drop_last());
        if ts.last().client == client {
            a_frozen_account_ignores_everything(before, ts.last());
        } else {
            other_clients_are_untouched(before, ts.last(), client);
        }
    }
}

/// What a transaction that is carried out adds to the total of its account: a
/// deposit its amount, a withdrawal the negative of it, a chargeback the
/// negative of the deposit's amount, a dispute and a resolve nothing.
pub open spec fn inflow(ledger: Ledger, t: Transaction) -> int {
    match t.kind {
        Kind::Deposit(amount) => amount@,
        Kind::Withdrawal(amount) => -amount@,
        Kind::Dispute => 0,
        Kind::Resolve => 0,
        Kind::Chargeback => -ledger.deposits[t.tx].amount@,
    }
}

/// A transaction that is carried out changes the total of its account by
/// exactly what it pays in or out. A dispute and a resolve leave it alone.
pub proof fn totals_change_by_what_is_paid(ledger: Ledger, t: Transaction)
    requires
        ledger.refusal(t) is None,
    ensures
        ({
            let before = ledger.account(t.client);
            let after = ledger.next(t).account(t.client);
            after.available@ + after.held@ == before.available@ + before.held@ + inflow(ledger, t)
        }),
{
}

/// A withdrawal that is carried out leaves the available funds at zero or
/// more.
pub proof fn a_withdrawal_never_overdraws(ledger: Ledger, t: Transaction)
    requires
        t.kind is Withdrawal,
        ledger.refusal(t) is None,
    ensures
        ledger.next(t).account(t.client).available@ >= 0,
{
}

/// A chargeback that is carried out freezes the account, takes the deposit's
/// amount from the held funds and leaves the rest of them held.
pub proof fn a_chargeback_freezes_and_leaves_other_disputes_held(ledger: Ledger, t: Transaction)
    requires
        t.kind == Kind::Chargeback,
        ledger.refusal(t) is None,
    ensures
        ledger.next(t).account(t.client).locked,
        ledger.next(t).account(t.client).available == ledger.account(t.client).available,
        ledger.next(t).account(t.client).held@ == ledger.account(t.client).held@
            - ledger.deposits[t.tx].amount@,
        forall|tx: TxId|
            tx != t.tx ==> #[trigger] ledger.next(t).disputed_amount(t.client, tx)
                == ledger.disputed_amount(t.client, tx),
{
}

/// A deposit on record keeps its amount and its client for good. A repeated id
/// cannot rewrite it.
pub proof fn a_recorded_deposit_is_never_rewritten(ledger: Ledger, ts: Seq<Transaction>, tx: TxId)
    requires
        ledger.deposits.contains_key(tx),
    ensures
        ledger.after(ts).deposits.contains_key(tx),
        ledger.after(ts).deposits[tx].amount == ledger.deposits[tx].amount,
        ledger.after(ts).deposits[tx].client == ledger.deposits[tx].client,
    decreases ts.len(),
{
    if ts.len() > 0 {
        a_recorded_deposit_is_never_rewritten(ledger, ts.drop_last(), tx);
    }
}

/// A deposit is charged back at most once: from then on it is neither disputed
/// nor resolved nor charged back again.
pub proof fn a_chargeback_is_for_good(
    ledger: Ledger,
    ts: Seq<Transaction>,
    client: ClientId,
    tx: TxId,
)
    requires
        ledger.charged_back(client, tx),
    ensures
        ledger.after(ts).charged_back(client, tx),
        forall|t: Transaction|
            t.tx == tx && (t.kind is Dispute || t.kind is Resolve || t.kind is Chargeback)
                ==> #[trigger] ledger.after(ts).refusal(t) is Some,
    decreases ts.len(),
{
    if ts.len() > 0 {
        a_chargeback_is_for_good(ledger, ts.drop_last(), client, tx);
    }
}

/// A transaction sets the account it names and the deposit it names, and
/// nothing else.
proof fn a_transaction_is_local(ledger: Ledger, t: Transaction)
    ensures
        ledger.next(t).accounts == ledger.accounts.insert(
            t.client,
            ledger.next(t).account(t.client),
        ),
        forall|tx: TxId|
            tx != t.tx ==> #[trigger] ledger.next(t).deposits.contains_key(tx)
                == ledger.deposits.contains_key(tx),
        forall|tx: TxId|
            tx != t.tx ==> #[trigger] ledger.next(t).deposits[tx] == ledger.deposits[tx],
{
    assert(ledger.next(t).accounts =~= ledger.accounts.insert(
        t.client,
        ledger.next(t).account(t.client),
    ));
}

/// Whether a deposit takes an id that a transaction after it will look for: it
/// is carried out under that id, and the other transaction gets as far as
/// looking the id up.
pub open spec fn interferes(ledger: Ledger, deposit: Transaction, other: Transaction) -> bool {
    &&& deposit.tx == other.tx
    &&& deposit.kind is Deposit
    &&& ledger.refusal(deposit) is None
    &&& !(other.kind is Withdrawal)
    &&& !ledger.account(other.client).locked
}

/// A transaction of another client that does not interfere changes neither
/// whether a transaction is carried out nor what it does.
proof fn another_client_makes_no_difference(ledger: Ledger, a: Transaction, b: Transaction)
    requires
        a.client != b.client,
        !interferes(ledger, a, b),
    ensures
        ledger.next(a).refusal(b) == ledger.refusal(b),
        ledger.next(a).next(b).account(b.client) == ledger.next(b).account(b.client),
{
    a_transaction_is_local(ledger, a);
}

/// Transactions of different clients can be applied in either order, unless one
/// is a deposit that takes the id the other looks for: the ledger comes out the
/// same, and each is carried out or ignored for the same reason.
pub proof fn different_clients_commute(ledger: Ledger, a: Transaction, b: Transaction)
    requires
        a.client != b.client,
        !interferes(ledger, a, b),
        !interferes(ledger, b, a),
    ensures
        ledger.next(a).next(b) == ledger.next(b).next(a),
        ledger.next(a).refusal(b) == ledger.refusal(b),
        ledger.next(b).refusal(a) == ledger.refusal(a),
{
    let after_a = ledger.next(a);
    let after_b = ledger.next(b);
    let ab = after_a.next(b);
    let ba = after_b.next(a);
    a_transaction_is_local(ledger, a);
    a_transaction_is_local(ledger, b);
    a_transaction_is_local(after_a, b);
    a_transaction_is_local(after_b, a);
    another_client_makes_no_difference(ledger, a, b);
    another_client_makes_no_difference(ledger, b, a);
    assert(ab.accounts =~= ba.accounts);
    assert forall|tx: TxId| #[trigger]
        ab.deposits.contains_key(tx) == ba.deposits.contains_key(tx) by {}
    assert(ab.deposits =~= ba.deposits);
}

/// The transactions that name `client`, in their order.
pub open spec fn own(ts: Seq<Transaction>, client: ClientId) -> Seq<Transaction>
    decreases ts.len(),
{
    if ts.len() == 0 {
        ts
    } else if ts.last().client == client {
        own(ts.drop_last(), client).push(ts.last())
    } else {
        own(ts.drop_last(), client)
    }
}

/// Whether no id is used by the deposits of two clients.
pub open spec fn deposit_ids_are_unique(ts: Seq<Transaction>) -> bool {
    forall|a: ClientId, b: ClientId, tx: TxId|
        #[trigger] deposited(ts, a, tx) && #[trigger] deposited(ts, b, tx) ==> a == b
}

/// What was deposited among the first transactions was deposited.
proof fn deposited_before_is_deposited(ts: Seq<Transaction>, client: ClientId, tx: TxId)
    requires
        ts.len() > 0,
        deposited(ts.drop_last(), client, tx),
    ensures
        deposited(ts, client, tx),
{
    let i = choose|i: int|
        0 <= i < ts.drop_last().len() && (#[trigger] ts.drop_last()[i]).kind is Deposit
            && ts.drop_last()[i].client == client && ts.drop_last()[i].tx == tx;
    assert(ts[i] == ts.drop_last()[i]);
}

/// Whether a transaction is declined because another client has used its id.
pub open spec fn is_taken(ledger: Ledger, t: Transaction) -> bool {
    ledger.refusal(t) == Some(RejectReason::DuplicateTx) && ledger.deposits[t.tx].client != t.client
}

/// Whether none of the transactions is declined because another client has used
/// its id.
pub open spec fn no_id_is_taken(ts: Seq<Transaction>) -> bool
    decreases ts.len(),
{
    ts.len() > 0 ==> no_id_is_taken(ts.drop_last()) && !is_taken(
        Ledger::empty().after(ts.drop_last()),
        ts.last(),
    )
}

/// If ids are unique across clients, no client's id is ever taken by another.
pub proof fn unique_ids_are_not_taken(ts: Seq<Transaction>)
    requires
        deposit_ids_are_unique(ts),
    ensures
        no_id_is_taken(ts),
    decreases ts.len(),
{
    if ts.len() > 0 {
        let first = ts.drop_last();
        let t = ts.last();
        assert forall|a: ClientId, b: ClientId, tx: TxId|
            #[trigger] deposited(first, a, tx) && #[trigger] deposited(first, b, tx) implies a
            == b by {
            deposited_before_is_deposited(ts, a, tx);
            deposited_before_is_deposited(ts, b, tx);
        }
        unique_ids_are_not_taken(first);
        let ledger = Ledger::empty().after(first);
        if is_taken(ledger, t) {
            only_deposits_are_recorded(first, t.tx);
            deposited_before_is_deposited(ts, ledger.deposits[t.tx].client, t.tx);
            assert(ts[ts.len() - 1] == t);
            assert(deposited(ts, t.client, t.tx));
        }
    }
}

/// Clients can be processed independently of each other: what becomes of a
/// client's account and deposits depends on that client's transactions alone,
/// as long as no deposit is declined because another client has used its id.
pub proof fn clients_are_independent(ts: Seq<Transaction>, client: ClientId)
    requires
        no_id_is_taken(ts),
    ensures
        Ledger::empty().after(ts).account(client) == Ledger::empty().after(
            own(ts, client),
        ).account(client),
        forall|tx: TxId| #[trigger]
            Ledger::empty().after(ts).owns(client, tx) == Ledger::empty().after(
                own(ts, client),
            ).owns(client, tx),
        forall|tx: TxId| #[trigger]
            Ledger::empty().after(ts).owns(client, tx) ==> Ledger::empty().after(ts).deposits[tx]
                == Ledger::empty().after(own(ts, client)).deposits[tx],
    decreases ts.len(),
{
    if ts.len() > 0 {
        let first = ts.drop_last();
        let t = ts.last();
        clients_are_independent(first, client);
        let whole = Ledger::empty().after(first);
        let part = Ledger::empty().after(own(first, client));
        if t.client == client {
            assert(own(ts, client).drop_last() =~= own(first, client));
            assert(whole.owns(client, t.tx) == part.owns(client, t.tx));
            if part.deposits.contains_key(t.tx) {
                own_records_are_own(first, client, t.tx);
            }
            assert forall|tx: TxId| #[trigger]
                whole.next(t).owns(client, tx) == part.next(t).owns(client, tx) by {
                assert(whole.owns(client, tx) == part.owns(client, tx));
            }
            assert forall|tx: TxId| #[trigger] whole.next(t).owns(client, tx) implies whole.next(
                t,
            ).deposits[tx] == part.next(t).deposits[tx] by {
                assert(whole.owns(client, tx) == part.owns(client, tx));
            }
        } else {
            other_clients_are_untouched(whole, t, client);
            assert forall|tx: TxId| #[trigger]
                whole.next(t).owns(client, tx) == part.owns(client, tx) by {
                assert(whole.owns(client, tx) == part.owns(client, tx));
            }
            assert forall|tx: TxId| #[trigger] whole.next(t).owns(client, tx) implies whole.next(
                t,
            ).deposits[tx] == part.deposits[tx] by {
                assert(whole.owns(client, tx));
            }
        }
    }
}

/// A ledger made by one client's transactions holds only that client's
/// deposits.
proof fn own_records_are_own(ts: Seq<Transaction>, client: ClientId, tx: TxId)
    requires
        Ledger::empty().after(own(ts, client)).deposits.contains_key(tx),
    ensures
        Ledger::empty().after(own(ts, client)).owns(client, tx),
    decreases ts.len(),
{
    if ts.len() > 0 {
        let before = Ledger::empty().after(own(ts.drop_last(), client));
        if before.deposits.contains_key(tx) {
            own_records_are_own(ts.drop_last(), client, tx);
        }
        if ts.last().client == client {
            assert(own(ts, client).drop_last() =~= own(ts.drop_last(), client));
        }
    }
}

/// How many deposits are among the transactions.
pub open spec fn number_of_deposits(ts: Seq<Transaction>) -> nat
    decreases ts.len(),
{
    if ts.len() == 0 {
        0
    } else {
        number_of_deposits(ts.drop_last()) + if ts.last().kind is Deposit {
            1nat
        } else {
            0nat
        }
    }
}

/// The ledger holds one account per client, at most 65,536 of them, and no
/// more records than there were deposits.
pub proof fn the_ledger_is_bounded(ts: Seq<Transaction>)
    ensures
        Ledger::empty().after(ts).accounts.dom().finite(),
        Ledger::empty().after(ts).accounts.dom().len() <= 65_536,
        Ledger::empty().after(ts).deposits.dom().finite(),
        Ledger::empty().after(ts).deposits.dom().len() <= number_of_deposits(ts),
    decreases ts.len(),
{
    let ledger = Ledger::empty().after(ts);
    if ts.len() > 0 {
        the_ledger_is_bounded(ts.drop_last());
        let before = Ledger::empty().after(ts.drop_last());
        let t = ts.last();
        a_transaction_creates_the_client_it_names(before, t);
        if before.refusal(t) is None && t.kind is Deposit {
            assert(ledger.deposits.dom() =~= before.deposits.dom().insert(t.tx));
        } else {
            assert(ledger.deposits.dom() =~= before.deposits.dom());
        }
    }
    clients_are_few(ledger.accounts.dom());
}

/// A set of client ids has at most 65,536 members.
proof fn clients_are_few(clients: Set<ClientId>)
    requires
        clients.finite(),
    ensures
        clients.len() <= 65_536,
{
    let numbers = clients.map(|client: ClientId| client as int);
    assert(vstd::relations::injective(|client: ClientId| client as int));
    vstd::set_lib::lemma_map_size(clients, numbers, |client: ClientId| client as int);
    vstd::set_lib::lemma_int_range(0, 65_536);
    assert(numbers.subset_of(vstd::set_lib::set_int_range(0, 65_536)));
    vstd::set_lib::lemma_len_subset(numbers, vstd::set_lib::set_int_range(0, 65_536));
}

/// The account of a client is the one on record. A client without one has no
/// funds, owes none and is not frozen.
pub proof fn an_account_is_the_one_on_record(ledger: Ledger, client: ClientId)
    ensures
        ledger.accounts.contains_key(client) ==> ledger.account(client) == ledger.accounts[client],
        !ledger.accounts.contains_key(client) ==> {
            &&& ledger.account(client).available.0 == 0
            &&& ledger.account(client).held.0 == 0
            &&& !ledger.account(client).locked
        },
{
}

/// A transaction is ignored as made on a frozen account exactly if the account
/// is frozen.
pub proof fn only_a_frozen_account_is_locked(ledger: Ledger, t: Transaction)
    ensures
        ledger.refusal(t) == Some(RejectReason::AccountLocked) <==> ledger.account(t.client).locked,
{
}

/// On an account that is not frozen, a deposit needs an id that no deposit has
/// used, and room for the sum. Nothing else can keep it from being carried out.
pub proof fn a_deposit_needs_only_a_fresh_id_and_room(
    ledger: Ledger,
    client: ClientId,
    tx: TxId,
    amount: Money,
)
    requires
        !ledger.account(client).locked,
    ensures
        ({
            let refusal = ledger.refusal(Transaction { client, tx, kind: Kind::Deposit(amount) });
            let used = ledger.deposits.contains_key(tx);
            let sum = ledger.account(client).available.0 + amount.0;
            &&& refusal is None <==> !used && i64::MIN <= sum <= i64::MAX
            &&& refusal == Some(RejectReason::DuplicateTx) <==> used
            &&& refusal == Some(RejectReason::Overflow) <==> !used && !(i64::MIN <= sum
                <= i64::MAX)
        }),
{
}

/// On an account that is not frozen, a withdrawal needs available funds of at
/// least its amount, whatever is held and whatever its id. One of an amount
/// that is not negative is carried out exactly then.
pub proof fn a_withdrawal_needs_only_available_funds(
    ledger: Ledger,
    client: ClientId,
    tx: TxId,
    amount: Money,
)
    requires
        !ledger.account(client).locked,
    ensures
        ({
            let refusal = ledger.refusal(
                Transaction { client, tx, kind: Kind::Withdrawal(amount) },
            );
            let available = ledger.account(client).available.0;
            &&& amount.0 >= 0 ==> (refusal is None <==> amount.0 <= available)
            &&& refusal is None <==> amount.0 <= available && available - amount.0 <= i64::MAX
            &&& refusal == Some(RejectReason::InsufficientFunds) <==> available < amount.0
            &&& refusal == Some(RejectReason::Overflow) <==> amount.0 <= available && available
                - amount.0 > i64::MAX
        }),
{
}

/// A deposit that exists, is the client's and is not under dispute is all that
/// a dispute needs, as long as the balances have room: whatever they are, and
/// whatever else was deposited or disputed.
pub proof fn a_dispute_needs_only_an_undisputed_deposit(
    ledger: Ledger,
    client: ClientId,
    tx: TxId,
)
    requires
        !ledger.account(client).locked,
    ensures
        ({
            let refusal = ledger.refusal(Transaction { client, tx, kind: Kind::Dispute });
            let known = ledger.deposits.contains_key(tx);
            let own = known && ledger.deposits[tx].client == client;
            let open = own && ledger.deposits[tx].state is Undisputed;
            let available = ledger.account(client).available.0 - ledger.deposits[tx].amount.0;
            let held = ledger.account(client).held.0 + ledger.deposits[tx].amount.0;
            let room = i64::MIN <= available <= i64::MAX && i64::MIN <= held <= i64::MAX;
            &&& refusal is None <==> open && room
            &&& refusal == Some(RejectReason::UnknownTx) <==> !known
            &&& refusal == Some(RejectReason::ClientMismatch) <==> known && !own
            &&& refusal == Some(RejectReason::TxNotDisputable) <==> own && !open
            &&& refusal == Some(RejectReason::Overflow) <==> open && !room
        }),
{
}

/// An open dispute of the client's is all that a resolve needs, as long as the
/// balances have room.
pub proof fn a_resolve_needs_only_an_open_dispute(ledger: Ledger, client: ClientId, tx: TxId)
    requires
        !ledger.account(client).locked,
    ensures
        ({
            let refusal = ledger.refusal(Transaction { client, tx, kind: Kind::Resolve });
            let known = ledger.deposits.contains_key(tx);
            let own = known && ledger.deposits[tx].client == client;
            let open = own && ledger.deposits[tx].state is Disputed;
            let available = ledger.account(client).available.0 + ledger.deposits[tx].amount.0;
            let held = ledger.account(client).held.0 - ledger.deposits[tx].amount.0;
            let room = i64::MIN <= available <= i64::MAX && i64::MIN <= held <= i64::MAX;
            &&& refusal is None <==> open && room
            &&& refusal == Some(RejectReason::UnknownTx) <==> !known
            &&& refusal == Some(RejectReason::ClientMismatch) <==> known && !own
            &&& refusal == Some(RejectReason::TxNotDisputed) <==> own && !open
            &&& refusal == Some(RejectReason::Overflow) <==> open && !room
        }),
{
}

/// An open dispute of the client's is all that a chargeback needs, as long as
/// the held funds have room: the available funds do not matter.
pub proof fn a_chargeback_needs_only_an_open_dispute(ledger: Ledger, client: ClientId, tx: TxId)
    requires
        !ledger.account(client).locked,
    ensures
        ({
            let refusal = ledger.refusal(Transaction { client, tx, kind: Kind::Chargeback });
            let known = ledger.deposits.contains_key(tx);
            let own = known && ledger.deposits[tx].client == client;
            let open = own && ledger.deposits[tx].state is Disputed;
            let held = ledger.account(client).held.0 - ledger.deposits[tx].amount.0;
            let room = i64::MIN <= held <= i64::MAX;
            &&& refusal is None <==> open && room
            &&& refusal == Some(RejectReason::UnknownTx) <==> !known
            &&& refusal == Some(RejectReason::ClientMismatch) <==> known && !own
            &&& refusal == Some(RejectReason::TxNotDisputed) <==> own && !open
            &&& refusal == Some(RejectReason::Overflow) <==> open && !room
        }),
{
}

/// A deposit that is carried out adds its amount to the available funds and is
/// recorded undisputed under its id, as its client's and with its amount. The
/// held funds stay, and so does all that it does not name.
pub proof fn a_deposit_credits_and_is_recorded(
    ledger: Ledger,
    client: ClientId,
    tx: TxId,
    amount: Money,
)
    requires
        ledger.refusal(Transaction { client, tx, kind: Kind::Deposit(amount) }) is None,
    ensures
        ({
            let before = ledger.account(client);
            let next = ledger.next(Transaction { client, tx, kind: Kind::Deposit(amount) });
            &&& next.accounts[client].available.0 == before.available.0 + amount.0
            &&& next.accounts[client].held.0 == before.held.0
            &&& !next.accounts[client].locked
            &&& next.deposits.contains_key(tx)
            &&& next.deposits[tx].amount.0 == amount.0
            &&& next.deposits[tx].client == client
            &&& next.deposits[tx].state is Undisputed
            &&& next.accounts.contains_key(client)
            &&& next.accounts.remove(client) == ledger.accounts.remove(client)
            &&& next.deposits.remove(tx) == ledger.deposits.remove(tx)
        }),
{
    let next = ledger.next(Transaction { client, tx, kind: Kind::Deposit(amount) });
    assert(next.accounts.remove(client) =~= ledger.accounts.remove(client));
    assert(next.deposits.remove(tx) =~= ledger.deposits.remove(tx));
}

/// A withdrawal that is carried out takes its amount from the available funds.
/// It is not recorded, and all that it does not name stays.
pub proof fn a_withdrawal_debits_and_is_not_recorded(
    ledger: Ledger,
    client: ClientId,
    tx: TxId,
    amount: Money,
)
    requires
        ledger.refusal(Transaction { client, tx, kind: Kind::Withdrawal(amount) }) is None,
    ensures
        ({
            let before = ledger.account(client);
            let next = ledger.next(Transaction { client, tx, kind: Kind::Withdrawal(amount) });
            &&& next.accounts[client].available.0 == before.available.0 - amount.0
            &&& next.accounts[client].held.0 == before.held.0
            &&& !next.accounts[client].locked
            &&& next.accounts.contains_key(client)
            &&& next.accounts.remove(client) == ledger.accounts.remove(client)
            &&& next.deposits == ledger.deposits
        }),
{
    let next = ledger.next(Transaction { client, tx, kind: Kind::Withdrawal(amount) });
    assert(next.accounts.remove(client) =~= ledger.accounts.remove(client));
}

/// A dispute that is carried out moves the deposit's amount from available to
/// held and opens the dispute. All that it does not name stays.
pub proof fn a_dispute_moves_the_amount_to_held(ledger: Ledger, client: ClientId, tx: TxId)
    requires
        ledger.refusal(Transaction { client, tx, kind: Kind::Dispute }) is None,
    ensures
        ({
            let before = ledger.account(client);
            let record = ledger.deposits[tx];
            let next = ledger.next(Transaction { client, tx, kind: Kind::Dispute });
            &&& next.accounts[client].available.0 == before.available.0 - record.amount.0
            &&& next.accounts[client].held.0 == before.held.0 + record.amount.0
            &&& !next.accounts[client].locked
            &&& next.deposits.contains_key(tx)
            &&& next.deposits[tx].amount.0 == record.amount.0
            &&& next.deposits[tx].client == client
            &&& next.deposits[tx].state is Disputed
            &&& next.accounts.contains_key(client)
            &&& next.accounts.remove(client) == ledger.accounts.remove(client)
            &&& next.deposits.remove(tx) == ledger.deposits.remove(tx)
        }),
{
    let next = ledger.next(Transaction { client, tx, kind: Kind::Dispute });
    assert(next.accounts.remove(client) =~= ledger.accounts.remove(client));
    assert(next.deposits.remove(tx) =~= ledger.deposits.remove(tx));
}

/// A resolve that is carried out moves the deposit's amount from held back to
/// available and ends the dispute. All that it does not name stays.
pub proof fn a_resolve_moves_the_amount_back(ledger: Ledger, client: ClientId, tx: TxId)
    requires
        ledger.refusal(Transaction { client, tx, kind: Kind::Resolve }) is None,
    ensures
        ({
            let before = ledger.account(client);
            let record = ledger.deposits[tx];
            let next = ledger.next(Transaction { client, tx, kind: Kind::Resolve });
            &&& next.accounts[client].available.0 == before.available.0 + record.amount.0
            &&& next.accounts[client].held.0 == before.held.0 - record.amount.0
            &&& !next.accounts[client].locked
            &&& next.deposits.contains_key(tx)
            &&& next.deposits[tx].amount.0 == record.amount.0
            &&& next.deposits[tx].client == client
            &&& next.deposits[tx].state is Undisputed
            &&& next.accounts.contains_key(client)
            &&& next.accounts.remove(client) == ledger.accounts.remove(client)
            &&& next.deposits.remove(tx) == ledger.deposits.remove(tx)
        }),
{
    let next = ledger.next(Transaction { client, tx, kind: Kind::Resolve });
    assert(next.accounts.remove(client) =~= ledger.accounts.remove(client));
    assert(next.deposits.remove(tx) =~= ledger.deposits.remove(tx));
}

/// A chargeback that is carried out removes the deposit's amount from the held
/// funds, leaves the available funds alone, and freezes the account. All that
/// it does not name stays.
pub proof fn a_chargeback_removes_the_amount_and_freezes(
    ledger: Ledger,
    client: ClientId,
    tx: TxId,
)
    requires
        ledger.refusal(Transaction { client, tx, kind: Kind::Chargeback }) is None,
    ensures
        ({
            let before = ledger.account(client);
            let record = ledger.deposits[tx];
            let next = ledger.next(Transaction { client, tx, kind: Kind::Chargeback });
            &&& next.accounts[client].available.0 == before.available.0
            &&& next.accounts[client].held.0 == before.held.0 - record.amount.0
            &&& next.accounts[client].locked
            &&& next.deposits.contains_key(tx)
            &&& next.deposits[tx].amount.0 == record.amount.0
            &&& next.deposits[tx].client == client
            &&& next.deposits[tx].state is ChargedBack
            &&& next.accounts.contains_key(client)
            &&& next.accounts.remove(client) == ledger.accounts.remove(client)
            &&& next.deposits.remove(tx) == ledger.deposits.remove(tx)
        }),
{
    let next = ledger.next(Transaction { client, tx, kind: Kind::Chargeback });
    assert(next.accounts.remove(client) =~= ledger.accounts.remove(client));
    assert(next.deposits.remove(tx) =~= ledger.deposits.remove(tx));
}

/// A transaction that is ignored leaves every account on record as it was, and
/// gives a client that had none an empty one.
pub proof fn an_ignored_transaction_only_opens_the_account(ledger: Ledger, t: Transaction)
    requires
        ledger.refusal(t) is Some,
    ensures
        ledger.next(t).deposits == ledger.deposits,
        ledger.next(t).accounts.contains_key(t.client),
        ledger.next(t).accounts.remove(t.client) == ledger.accounts.remove(t.client),
        ledger.accounts.contains_key(t.client) ==> ledger.next(t) == ledger,
        !ledger.accounts.contains_key(t.client) ==> {
            &&& ledger.next(t).accounts[t.client].available.0 == 0
            &&& ledger.next(t).accounts[t.client].held.0 == 0
            &&& !ledger.next(t).accounts[t.client].locked
        },
{
    let next = ledger.next(t);
    assert(next.accounts.remove(t.client) =~= ledger.accounts.remove(t.client));
    if ledger.accounts.contains_key(t.client) {
        assert(next.accounts =~= ledger.accounts);
    }
}

/// A deposit that is carried out can be disputed and then charged back right
/// away, as long as the held funds have room for it. All that is left of it is
/// that the account is frozen.
pub proof fn a_deposit_can_be_disputed_and_charged_back(
    ledger: Ledger,
    client: ClientId,
    tx: TxId,
    amount: Money,
)
    requires
        ledger.refusal(Transaction { client, tx, kind: Kind::Deposit(amount) }) is None,
        i64::MIN <= ledger.account(client).held.0 + amount.0 <= i64::MAX,
    ensures
        ({
            let paid = ledger.next(Transaction { client, tx, kind: Kind::Deposit(amount) });
            let disputed = paid.next(Transaction { client, tx, kind: Kind::Dispute });
            let reversed = disputed.next(Transaction { client, tx, kind: Kind::Chargeback });
            &&& paid.refusal(Transaction { client, tx, kind: Kind::Dispute }) is None
            &&& disputed.refusal(Transaction { client, tx, kind: Kind::Chargeback }) is None
            &&& reversed.account(client) == (Account { locked: true, ..ledger.account(client) })
        }),
{
}

/// What is under dispute is held: where no deposit is negative, the held funds
/// cover every open dispute.
proof fn an_open_dispute_is_covered(ts: Seq<Transaction>, client: ClientId, tx: TxId, n: nat)
    requires
        deposits_are_not_negative(ts),
        n <= all_ids(),
    ensures
        tx < n ==> Ledger::empty().after(ts).disputed_among(client, n)
            >= Ledger::empty().after(ts).disputed_amount(client, tx),
    decreases n,
{
    if n > 0 {
        let ledger = Ledger::empty().after(ts);
        an_open_dispute_is_covered(ts, client, tx, (n - 1) as nat);
        disputes_are_not_negative(ts, client, (n - 1) as nat);
        let last = (n - 1) as TxId;
        if ledger.deposits.contains_key(last) {
            recorded_amounts_are_not_negative(ts, last);
        }
    }
}

/// Whatever came before, an open dispute of a client that is not frozen can be
/// charged back, if no deposit was negative: the held funds cover it.
pub proof fn an_open_dispute_can_always_be_charged_back(
    ts: Seq<Transaction>,
    client: ClientId,
    tx: TxId,
)
    requires
        deposits_are_not_negative(ts),
        !Ledger::empty().after(ts).account(client).locked,
        Ledger::empty().after(ts).deposits.contains_key(tx),
        Ledger::empty().after(ts).deposits[tx].client == client,
        Ledger::empty().after(ts).deposits[tx].state is Disputed,
    ensures
        Ledger::empty().after(ts).refusal(
            Transaction { client, tx, kind: Kind::Chargeback },
        ) is None,
        Ledger::empty().after(ts).account(client).held.0 >= Ledger::empty().after(
            ts,
        ).deposits[tx].amount.0,
{
    held_funds_are_never_negative(ts, client);
    recorded_amounts_are_not_negative(ts, tx);
    an_open_dispute_is_covered(ts, client, tx, all_ids());
}

/// Transactions are applied one after the other, the first to the ledger there
/// is and each other to what the one before it left.
pub proof fn transactions_are_applied_in_order(
    ledger: Ledger,
    ts: Seq<Transaction>,
    t: Transaction,
)
    ensures
        ledger.after(Seq::empty()) == ledger,
        ledger.after(ts.push(t)) == ledger.after(ts).next(t),
{
    assert(ts.push(t).drop_last() =~= ts);
}

/// Before any transaction no client and no deposit is known.
pub proof fn nothing_is_known_at_first(client: ClientId, tx: TxId)
    ensures
        !Ledger::empty().accounts.contains_key(client),
        !Ledger::empty().deposits.contains_key(tx),
{
}

} // verus!
