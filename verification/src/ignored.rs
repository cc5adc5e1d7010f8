//! The end-of-run summary of the rows that were ignored.

use vstd::prelude::*;
use vstd::string::StringExecFns;

use crate::model::RejectReason;
use crate::model::REASONS;
use crate::text;

verus! {

/// `n`, or the highest count if `n` is beyond it.
pub open spec fn capped(n: nat) -> nat {
    if n > u64::MAX {
        u64::MAX as nat
    } else {
        n
    }
}

/// The sum of the first `n` counts.
pub open spec fn sum(counts: Seq<nat>, n: nat) -> nat
    decreases n,
{
    if n == 0 {
        0
    } else {
        sum(counts, (n - 1) as nat) + counts[n - 1]
    }
}

/// `s` with spaces in front of it, ten characters wide if it is shorter.
pub open spec fn aligned(s: Seq<char>) -> Seq<char> {
    let missing: nat = if s.len() < 10 {
        (10 - s.len()) as nat
    } else {
        0
    };
    Seq::new(missing, |i: int| ' ') + s
}

/// The line of a reason and how many rows were ignored for it.
pub open spec fn line(reason: RejectReason, count: nat) -> Seq<char> {
    "  "@ + aligned(text::decimal(count)) + "  "@ + reason.words() + "\n"@
}

/// The lines of those among the first `n` reasons for which rows were ignored.
pub open spec fn lines(counts: Seq<nat>, n: nat) -> Seq<char>
    decreases n,
{
    if n == 0 {
        Seq::empty()
    } else {
        let before = lines(counts, (n - 1) as nat);
        if counts[n - 1] == 0 {
            before
        } else {
            before + line(RejectReason::declared()[n - 1], counts[n - 1])
        }
    }
}

/// What is said of the ignored rows: nothing if there are none, otherwise how
/// many there are and then how many for each reason, in order of declaration.
pub open spec fn summary(counts: Seq<nat>) -> Seq<char> {
    let total = capped(sum(counts, REASONS as nat));
    if total == 0 {
        Seq::empty()
    } else {
        "ignored "@ + text::decimal(total) + " row(s):\n"@ + lines(counts, REASONS as nat)
    }
}

/// Counts ignored rows by reason, so a bad input cannot produce a line of log
/// per transaction.
#[derive(Clone, Copy, Debug, PartialEq, Eq)]
pub struct Ignored {
    counts: [u64; REASONS],
}

impl View for Ignored {
    type V = Seq<nat>;

    /// How many rows were ignored for each reason, in order of declaration.
    closed spec fn view(&self) -> Seq<nat> {
        self.counts@.map_values(|count: u64| count as nat)
    }
}

impl Default for Ignored {
    fn default() -> (ignored: Self)
        ensures
            ignored@ == Seq::new(REASONS as nat, |i: int| 0nat),
    {
        let ignored = Ignored { counts: [0; REASONS] };
        assert(ignored@ =~= Seq::new(REASONS as nat, |i: int| 0nat));
        ignored
    }
}

/// How many digits `n` has.
fn width(n: u64) -> (digits: u64)
    ensures
        digits == text::decimal(n as nat).len(),
{
    let mut digits: u64 = 1;
    let mut rest: u64 = n;
    while rest >= 10
        invariant
            digits + text::decimal(rest as nat).len() == text::decimal(n as nat).len() + 1,
            digits + rest <= 1 + n,
        decreases rest,
    {
        rest = rest / 10;
        digits += 1;
    }
    digits
}

/// Appends `n`, right-aligned in ten characters.
fn push_aligned(out: &mut String, n: u64)
    ensures
        final(out)@ == old(out)@ + aligned(text::decimal(n as nat)),
{
    proof {
        reveal_strlit(" ");
    }
    let used: u64 = width(n);
    let mut filled: u64 = used;
    while filled < 10
        invariant
            used <= filled,
            filled <= 10 || filled == used,
            out@ == old(out)@ + Seq::new((filled - used) as nat, |i: int| ' '),
            " "@ == seq![' '],
        decreases 10 - filled,
    {
        out.append(" ");
        filled += 1;
        assert(out@ =~= old(out)@ + Seq::new((filled - used) as nat, |i: int| ' '));
    }
    text::push_decimal(out, n as u128);
    assert(out@ =~= old(out)@ + aligned(text::decimal(n as nat)));
}

impl Ignored {
    /// Counts one more row that was ignored for `reason`.
    pub fn record(&mut self, reason: RejectReason)
        ensures
            final(self)@.len() == REASONS,
            final(self)@ == old(self)@.update(
                reason.rank_spec(),
                capped(old(self)@[reason.rank_spec()] + 1),
            ),
    {
        let i: usize = reason.rank();
        let count: u64 = self.counts[i];
        self.counts[i] = count.saturating_add(1);
        assert(self@ =~= old(self)@.update(
            reason.rank_spec(),
            capped(old(self)@[reason.rank_spec()] + 1),
        ));
    }

    /// How many rows were ignored, or the highest count if there are more.
    fn total(&self) -> (total: u64)
        ensures
            total == capped(sum(self@, REASONS as nat)),
    {
        let mut total: u64 = 0;
        let mut i: usize = 0;
        while i < REASONS
            invariant
                i <= REASONS,
                self@.len() == REASONS,
                total == capped(sum(self@, i as nat)),
            decreases REASONS - i,
        {
            assert(self@[i as int] == self.counts@[i as int]);
            total = total.saturating_add(self.counts[i]);
            i += 1;
        }
        total
    }

    /// Says how many rows were ignored, and for which reasons, or nothing if
    /// there were none.
    #[must_use]
    pub fn report(&self) -> (shown: String)
        ensures
            shown@ == summary(self@),
    {
        let total: u64 = self.total();
        let mut shown = String::new();
        if total == 0 {
            return shown;
        }
        shown.append("ignored ");
        text::push_decimal(&mut shown, total as u128);
        shown.append(" row(s):\n");
        let ghost head = shown@;
        let mut i: usize = 0;
        while i < REASONS
            invariant
                i <= REASONS,
                self@.len() == REASONS,
                shown@ == head + lines(self@, i as nat),
            decreases REASONS - i,
        {
            let ghost before = shown@;
            let count: u64 = self.counts[i];
            assert(self@[i as int] == count);
            if count > 0 {
                let reason = RejectReason::at(i);
                shown.append("  ");
                push_aligned(&mut shown, count);
                shown.append("  ");
                shown.append(reason.to_string().as_str());
                shown.append("\n");
                assert(shown@ =~= before + line(reason, count as nat));
            }
            i += 1;
            assert(shown@ =~= head + lines(self@, i as nat));
        }
        shown
    }
}

/// A count goes no further than `u64` does, and is exact up to there.
pub proof fn counts_stop_at_the_highest(n: nat)
    ensures
        n <= u64::MAX ==> capped(n) == n,
        n > u64::MAX ==> capped(n) == u64::MAX,
{
}

/// The summary is empty exactly if no row was ignored. Otherwise its first line
/// gives the sum of all counts, and the lines of the reasons follow it.
pub proof fn the_summary_counts_every_ignored_row(counts: Seq<nat>)
    requires
        counts.len() == REASONS,
    ensures
        ({
            let total = counts[0] + counts[1] + counts[2] + counts[3] + counts[4] + counts[5]
                + counts[6] + counts[7] + counts[8] + counts[9] + counts[10];
            let shown = if total > u64::MAX {
                u64::MAX as nat
            } else {
                total
            };
            &&& summary(counts).len() == 0 <==> total == 0
            &&& total > 0 ==> summary(counts) == "ignored "@ + text::decimal(shown)
                + " row(s):\n"@ + lines(counts, 11)
            &&& lines(counts, 0).len() == 0
        }),
{
    reveal_with_fuel(sum, 12);
    reveal_strlit("ignored ");
}

/// The reasons have their lines in the order of declaration. One for which no
/// row was ignored has none. The others have the count, with spaces in front
/// that make it ten characters wide unless it is wider, and then their words.
pub proof fn each_reason_has_its_line(counts: Seq<nat>, reason: RejectReason)
    requires
        counts.len() == REASONS,
    ensures
        ({
            let n = reason.rank_spec();
            let digits = text::decimal(counts[n]);
            let spaces = Seq::new(
                if digits.len() < 10 {
                    (10 - digits.len()) as nat
                } else {
                    0
                },
                |i: int| ' ',
            );
            &&& counts[n] == 0 ==> lines(counts, (n + 1) as nat) == lines(counts, n as nat)
            &&& counts[n] > 0 ==> lines(counts, (n + 1) as nat) == lines(counts, n as nat)
                + seq![' ', ' '] + spaces + digits + seq![' ', ' '] + reason.words() + seq!['\n']
        }),
{
    let n = reason.rank_spec();
    let digits = text::decimal(counts[n]);
    let spaces = Seq::new(
        if digits.len() < 10 {
            (10 - digits.len()) as nat
        } else {
            0
        },
        |i: int| ' ',
    );
    reveal_strlit("  ");
    reveal_strlit("\n");
    assert("  "@ =~= seq![' ', ' ']);
    assert("\n"@ =~= seq!['\n']);
    assert(RejectReason::declared()[n] == reason);
    assert(aligned(digits) =~= spaces + digits);
    assert(lines(counts, n as nat) + line(reason, counts[n]) =~= lines(counts, n as nat)
        + seq![' ', ' '] + spaces + digits + seq![' ', ' '] + reason.words() + seq!['\n']);
}

} // verus!
