//! A whole run: every row of an input, then the balances and the summary.

use vstd::prelude::*;

use crate::csv_calls;
use crate::csv_io;
use crate::csv_io::Columns;
use crate::csv_io::Error;
use crate::csv_io::TransactionReader;
use crate::engine::Account;
use crate::engine::DepositRecord;
use crate::engine::Engine;
use crate::ignored;
use crate::ignored::Ignored;
use crate::laws;
use crate::ledger::Ledger;
use crate::model::ClientId;
use crate::model::Kind;
use crate::model::RejectReason;
use crate::model::Transaction;
use crate::model::TxId;
use crate::model::REASONS;

verus! {

/// Why a row is ignored, or [`None`] if it is carried out. A row that is no
/// transaction and a transaction that is declined are ignored alike.
pub open spec fn ignored_for(
    ledger: Ledger,
    row: Result<Transaction, RejectReason>,
) -> Option<RejectReason> {
    match row {
        Ok(transaction) => ledger.refusal(transaction),
        Err(reason) => Some(reason),
    }
}

/// What a row makes of the ledger. One that is no transaction leaves it alone,
/// since not even its client id can be trusted.
pub open spec fn ledger_after(ledger: Ledger, row: Result<Transaction, RejectReason>) -> Ledger {
    match row {
        Ok(transaction) => ledger.next(transaction),
        Err(_) => ledger,
    }
}

/// What rows, one after the other, make of the empty ledger.
pub open spec fn ledger_of(rows: Seq<Result<Transaction, RejectReason>>) -> Ledger
    decreases rows.len(),
{
    if rows.len() == 0 {
        Ledger::empty()
    } else {
        ledger_after(ledger_of(rows.drop_last()), rows.last())
    }
}

/// How many of the rows are ignored for `reason`.
pub open spec fn times_ignored(
    rows: Seq<Result<Transaction, RejectReason>>,
    reason: RejectReason,
) -> nat
    decreases rows.len(),
{
    if rows.len() == 0 {
        0
    } else {
        times_ignored(rows.drop_last(), reason) + if ignored_for(
            ledger_of(rows.drop_last()),
            rows.last(),
        ) == Some(reason) {
            1nat
        } else {
            0
        }
    }
}

/// How many of the rows are ignored for each reason, in order of declaration,
/// as far as a count goes.
pub open spec fn counts_of(rows: Seq<Result<Transaction, RejectReason>>) -> Seq<nat> {
    Seq::new(
        REASONS as nat,
        |i: int| ignored::capped(times_ignored(rows, RejectReason::declared()[i])),
    )
}

/// A run so far.
#[derive(Debug)]
pub struct Run {
    /// The accounts.
    pub engine: Engine,
    /// The rows that were ignored.
    pub ignored: Ignored,
}

impl Default for Run {
    /// A run before its first row.
    fn default() -> (run: Self)
        ensures
            run.engine@ == Ledger::empty(),
            run.ignored@ == counts_of(Seq::empty()),
    {
        let run = Run { engine: Engine::new(), ignored: Ignored::default() };
        assert(run.ignored@ =~= counts_of(Seq::empty()));
        run
    }
}

impl Run {
    /// Takes one row: carries it out, or counts why it is ignored.
    ///
    /// Parsing and applying fail the same way, so they are counted the same
    /// way.
    pub fn take(&mut self, row: Result<Transaction, RejectReason>)
        ensures
            final(self).engine@ == ledger_after(old(self).engine@, row),
            final(self).ignored@ == (match ignored_for(old(self).engine@, row) {
                Some(reason) => old(self).ignored@.update(
                    reason.rank_spec(),
                    ignored::capped(old(self).ignored@[reason.rank_spec()] + 1),
                ),
                None => old(self).ignored@,
            }),
    {
        match row {
            Ok(transaction) => match self.engine.apply(transaction) {
                Ok(()) => {},
                Err(reason) => self.ignored.record(reason),
            },
            Err(reason) => self.ignored.record(reason),
        }
    }
}

/// What a run puts out.
#[derive(Debug)]
pub struct Output {
    /// The balances, as CSV.
    pub balances: Vec<u8>,
    /// What is said of the ignored rows.
    pub summary: String,
}

impl Run {
    /// Writes out the balances and the summary.
    pub fn finish(&self) -> (result: Result<Output, Error>)
        ensures
            result matches Ok(output) && output.balances@ == vstd::utf8::encode_utf8(
                csv_io::accounts_text(self.engine@.accounts),
            ) && output.summary@ == ignored::summary(self.ignored@),
    {
        let mut balances: Vec<u8> = Vec::new();
        csv_io::write_accounts(&mut balances, self.engine.accounts())?;
        assert(balances@ =~= vstd::utf8::encode_utf8(
            csv_io::accounts_text(self.engine@.accounts),
        ));
        Ok(Output { balances, summary: self.ignored.report() })
    }
}

/// Counting one more row changes only the count of its reason.
proof fn one_more_row(
    rows: Seq<Result<Transaction, RejectReason>>,
    row: Result<Transaction, RejectReason>,
)
    ensures
        ledger_of(rows.push(row)) == ledger_after(ledger_of(rows), row),
        counts_of(rows.push(row)) == (match ignored_for(ledger_of(rows), row) {
            Some(reason) => counts_of(rows).update(
                reason.rank_spec(),
                ignored::capped(counts_of(rows)[reason.rank_spec()] + 1),
            ),
            None => counts_of(rows),
        }),
{
    assert(rows.push(row).drop_last() =~= rows);
    assert forall|i: int| 0 <= i < REASONS implies (
    #[trigger] RejectReason::declared()[i]).rank_spec() == i by {}
    assert(counts_of(rows.push(row)) =~= (match ignored_for(ledger_of(rows), row) {
        Some(reason) => counts_of(rows).update(
            reason.rank_spec(),
            ignored::capped(counts_of(rows)[reason.rank_spec()] + 1),
        ),
        None => counts_of(rows),
    }));
}

/// Takes every row of an input.
///
/// Ignored rows are counted, not propagated. Only a header that cannot be used
/// stops the run.
pub fn process(source: &[u8]) -> (result: Result<Run, Error>)
    ensures
        match result {
            Ok(run) => {
                &&& csv_io::headings(source@) is Some
                &&& csv_io::missing_column(csv_io::headings(source@)->0) is None
                &&& run.engine@ == ledger_of(csv_io::rows(source@))
                &&& run.ignored@ == counts_of(csv_io::rows(source@))
            },
            Err(Error::MissingColumn(name)) => {
                &&& csv_io::headings(source@) is Some
                &&& csv_io::missing_column(csv_io::headings(source@)->0) == Some(name@)
            },
            Err(Error::Csv(_)) => csv_io::headings(source@) is None,
        },
{
    let mut reader = TransactionReader::new(source)?;
    let mut run = Run::default();
    let ghost rows = reader@;
    let ghost mut taken: Seq<Result<Transaction, RejectReason>> = Seq::empty();
    assert(taken + reader@ =~= rows);
    loop
        invariant
            csv_io::headings(source@) is Some,
            csv_io::missing_column(csv_io::headings(source@)->0) is None,
            rows == csv_io::rows(source@),
            taken + reader@ == rows,
            run.engine@ == ledger_of(taken),
            run.ignored@ == counts_of(taken),
        decreases reader@.len(),
    {
        match reader.read()? {
            Some(row) => {
                run.take(row);
                proof {
                    one_more_row(taken, row);
                    taken = taken.push(row);
                    assert(taken + reader@ =~= rows);
                }
            },
            None => {
                assert(taken =~= rows);
                return Ok(run);
            },
        }
    }
}

/// Runs an input to its end. Nothing is put out if its header cannot be used.
pub fn run(source: &[u8]) -> (result: Result<Output, Error>)
    ensures
        match result {
            Ok(output) => {
                &&& csv_io::headings(source@) is Some
                &&& csv_io::missing_column(csv_io::headings(source@)->0) is None
                &&& output.balances@ == vstd::utf8::encode_utf8(
                    csv_io::accounts_text(ledger_of(csv_io::rows(source@)).accounts),
                )
                &&& output.summary@ == ignored::summary(counts_of(csv_io::rows(source@)))
            },
            Err(Error::MissingColumn(name)) => {
                &&& csv_io::headings(source@) is Some
                &&& csv_io::missing_column(csv_io::headings(source@)->0) == Some(name@)
            },
            Err(Error::Csv(_)) => csv_io::headings(source@) is None,
        },
{
    let run = process(source)?;
    run.finish()
}

/// The transactions among the rows, in order.
pub open spec fn transactions(rows: Seq<Result<Transaction, RejectReason>>) -> Seq<Transaction>
    decreases rows.len(),
{
    if rows.len() == 0 {
        Seq::empty()
    } else {
        match rows.last() {
            Ok(transaction) => transactions(rows.drop_last()).push(transaction),
            Err(_) => transactions(rows.drop_last()),
        }
    }
}

/// Only the transactions among the rows make the ledger: a row that fails to
/// parse moves nothing and creates no client.
pub proof fn only_transactions_make_the_ledger(rows: Seq<Result<Transaction, RejectReason>>)
    ensures
        ledger_of(rows) == Ledger::empty().after(transactions(rows)),
    decreases rows.len(),
{
    if rows.len() > 0 {
        only_transactions_make_the_ledger(rows.drop_last());
        match rows.last() {
            Ok(transaction) => {
                let before = transactions(rows.drop_last());
                assert(before.push(transaction).drop_last() =~= before);
            },
            Err(_) => {},
        }
    }
}

/// However a run goes, accounts and deposits agree.
pub proof fn every_run_is_sound(rows: Seq<Result<Transaction, RejectReason>>)
    ensures
        ledger_of(rows).sound(),
{
    only_transactions_make_the_ledger(rows);
    laws::every_ledger_is_sound(transactions(rows));
}

/// Whether no row is a deposit of a negative amount.
pub open spec fn rows_are_not_negative(rows: Seq<Result<Transaction, RejectReason>>) -> bool {
    forall|i: int|
        0 <= i < rows.len() ==> (#[trigger] rows[i] matches Ok(transaction) ==> (
        transaction.kind matches Kind::Deposit(amount) ==> amount@ >= 0))
}

/// No text means a negative amount, so no record is a deposit of one.
proof fn records_are_not_negative(records: Seq<Option<Seq<Seq<char>>>>, columns: Columns)
    ensures
        rows_are_not_negative(csv_io::records_meaning(records, columns)),
    decreases records.len(),
{
    if records.len() > 0 {
        records_are_not_negative(records.drop_first(), columns);
    }
}

/// No transaction among such rows is a deposit of a negative amount.
proof fn transactions_are_not_negative(rows: Seq<Result<Transaction, RejectReason>>)
    requires
        rows_are_not_negative(rows),
    ensures
        laws::deposits_are_not_negative(transactions(rows)),
    decreases rows.len(),
{
    if rows.len() > 0 {
        let before = rows.drop_last();
        assert forall|i: int| 0 <= i < before.len() implies (
        #[trigger] before[i] matches Ok(transaction) ==> (transaction.kind matches Kind::Deposit(
            amount,
        ) ==> amount@ >= 0)) by {
            assert(before[i] == rows[i]);
        }
        transactions_are_not_negative(before);
        assert(rows[rows.len() - 1] == rows.last());
    }
}

/// Whatever an input holds, no account ends with negative held funds.
pub proof fn no_input_makes_held_funds_negative(source: Seq<u8>, client: ClientId)
    ensures
        ledger_of(csv_io::rows(source)).account(client).held@ >= 0,
{
    let rows = csv_io::rows(source);
    records_are_not_negative(
        csv_calls::later_records(csv_calls::csv_records(source)),
        csv_io::columns_of(csv_io::headings(source)->0),
    );
    transactions_are_not_negative(rows);
    only_transactions_make_the_ledger(rows);
    laws::held_funds_are_never_negative(transactions(rows), client);
}

/// How many of the rows are carried out.
pub open spec fn times_carried_out(rows: Seq<Result<Transaction, RejectReason>>) -> nat
    decreases rows.len(),
{
    if rows.len() == 0 {
        0
    } else {
        times_carried_out(rows.drop_last()) + if ignored_for(
            ledger_of(rows.drop_last()),
            rows.last(),
        ) is None {
            1nat
        } else {
            0
        }
    }
}

/// How many of the rows are ignored for one of the first `n` reasons.
pub open spec fn times_ignored_among(
    rows: Seq<Result<Transaction, RejectReason>>,
    n: nat,
) -> nat
    decreases n,
{
    if n == 0 {
        0
    } else {
        times_ignored_among(rows, (n - 1) as nat) + times_ignored(
            rows,
            RejectReason::declared()[n - 1],
        )
    }
}

/// One more row is counted under its reason and nowhere else.
proof fn one_more_is_counted_once(rows: Seq<Result<Transaction, RejectReason>>, n: nat)
    requires
        rows.len() > 0,
        n <= REASONS,
    ensures
        times_ignored_among(rows, n) == times_ignored_among(rows.drop_last(), n) + (
        match ignored_for(ledger_of(rows.drop_last()), rows.last()) {
            Some(reason) => if reason.rank_spec() < n {
                1nat
            } else {
                0
            },
            None => 0,
        }),
    decreases n,
{
    if n > 0 {
        one_more_is_counted_once(rows, (n - 1) as nat);
        assert(RejectReason::declared()[n - 1].rank_spec() == n - 1);
    }
}

/// Every row is either carried out or ignored for exactly one reason.
pub proof fn every_row_is_carried_out_or_counted(rows: Seq<Result<Transaction, RejectReason>>)
    ensures
        times_carried_out(rows) + times_ignored_among(rows, REASONS as nat) == rows.len(),
    decreases rows.len(),
{
    if rows.len() > 0 {
        every_row_is_carried_out_or_counted(rows.drop_last());
        one_more_is_counted_once(rows, REASONS as nat);
    } else {
        nothing_is_ignored_at_first(rows, REASONS as nat);
    }
}

proof fn nothing_is_ignored_at_first(rows: Seq<Result<Transaction, RejectReason>>, n: nat)
    requires
        rows.len() == 0,
    ensures
        times_ignored_among(rows, n) == 0,
    decreases n,
{
    if n > 0 {
        nothing_is_ignored_at_first(rows, (n - 1) as nat);
    }
}

/// A count is above zero exactly if a row is ignored for one of its reasons.
proof fn a_sum_shows_ignored_rows(rows: Seq<Result<Transaction, RejectReason>>, n: nat)
    requires
        n <= REASONS,
    ensures
        ignored::sum(counts_of(rows), n) == 0 <==> times_ignored_among(rows, n) == 0,
    decreases n,
{
    if n > 0 {
        a_sum_shows_ignored_rows(rows, (n - 1) as nat);
    }
}

/// The summary is empty exactly if every row was carried out: a clean run says
/// nothing, and a run that ignored something says so.
pub proof fn a_clean_run_says_nothing(rows: Seq<Result<Transaction, RejectReason>>)
    ensures
        ignored::summary(counts_of(rows)).len() == 0 <==> times_carried_out(rows) == rows.len(),
{
    every_row_is_carried_out_or_counted(rows);
    a_sum_shows_ignored_rows(rows, REASONS as nat);
    reveal_strlit("ignored ");
}

/// A row that fails to parse leaves the accounts and deposits alone and adds one
/// to the count of the very reason it failed for, and to no other.
pub proof fn a_row_that_fails_is_counted_under_its_reason(
    rows: Seq<Result<Transaction, RejectReason>>,
    reason: RejectReason,
    other: RejectReason,
)
    ensures
        ledger_of(rows.push(Err(reason))) == ledger_of(rows),
        times_ignored(rows.push(Err(reason)), reason) == times_ignored(rows, reason) + 1,
        other != reason ==> times_ignored(rows.push(Err(reason)), other) == times_ignored(
            rows,
            other,
        ),
{
    assert(rows.push(Err(reason)).drop_last() =~= rows);
}

/// A transaction among the rows is applied to what the rows before it left. If
/// it is ignored, it adds one to the count of the reason, and otherwise to
/// none.
pub proof fn a_transaction_that_is_ignored_is_counted_under_its_reason(
    rows: Seq<Result<Transaction, RejectReason>>,
    t: Transaction,
    reason: RejectReason,
)
    ensures
        ledger_of(rows.push(Ok(t))) == ledger_of(rows).next(t),
        ledger_of(rows).refusal(t) == Some(reason) ==> times_ignored(rows.push(Ok(t)), reason)
            == times_ignored(rows, reason) + 1,
        ledger_of(rows).refusal(t) != Some(reason) ==> times_ignored(rows.push(Ok(t)), reason)
            == times_ignored(rows, reason),
{
    assert(rows.push(Ok(t)).drop_last() =~= rows);
}

/// Before the first row there are no accounts, no deposits and no ignored rows.
pub proof fn a_run_starts_with_nothing(reason: RejectReason)
    ensures
        ledger_of(Seq::empty()).accounts == Map::<ClientId, Account>::empty(),
        ledger_of(Seq::empty()).deposits == Map::<TxId, DepositRecord>::empty(),
        times_ignored(Seq::empty(), reason) == 0,
{
}

/// The count of each reason is how often it occurred, as far as a count goes.
pub proof fn each_reason_has_its_count(
    rows: Seq<Result<Transaction, RejectReason>>,
    reason: RejectReason,
)
    ensures
        counts_of(rows).len() == 11,
        times_ignored(rows, reason) <= u64::MAX ==> counts_of(rows)[reason.rank_spec()]
            == times_ignored(rows, reason),
        times_ignored(rows, reason) > u64::MAX ==> counts_of(rows)[reason.rank_spec()] == u64::MAX,
{
    assert(RejectReason::declared()[reason.rank_spec()] == reason);
}

/// What becomes of a row is decided by the row and the ledger it meets: one that
/// fails to parse is ignored for its reason, and a transaction is ignored or
/// carried out as the ledger has it.
pub proof fn a_row_is_taken_for_what_it_is(ledger: Ledger, t: Transaction, reason: RejectReason)
    ensures
        ignored_for(ledger, Err(reason)) == Some(reason),
        ledger_after(ledger, Err(reason)) == ledger,
        ignored_for(ledger, Ok(t)) == ledger.refusal(t),
        ledger_after(ledger, Ok(t)) == ledger.next(t),
{
}

} // verus!
