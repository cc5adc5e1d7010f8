//! Exact fixed-point monetary amounts.

use std::cmp::Ordering;
use std::str::FromStr;

use vstd::prelude::*;
use vstd::slice::slice_subrange;
use vstd::std_specs::cmp::PartialOrdSpecImpl;
use vstd::string::StringExecFns;

use crate::text;

verus! {

/// Decimal places on every amount. The input allows four, the output prints
/// four.
pub const SCALE: usize = 4;

/// Internal units in one whole currency unit.
pub const UNITS_PER_WHOLE: i64 = 10_000;

/// An amount, as an exact count of ten-thousandths.
///
/// Integer rather than floating point so values round-trip exactly. Every
/// operation is checked, so debug and release behave the same.
#[derive(Clone, Copy, Debug, PartialEq, Eq, Structural, Ord)]
pub struct Money(pub i64);

/// The sum of two [`Money`] values.
///
/// Totals are derived from `available + held`, never stored, so they cannot
/// drift. The wider type makes the addition itself infallible. A result type
/// rather than a value type: it is compared and printed, never added to.
#[derive(Clone, Copy, Debug, PartialEq, Eq, Structural, Ord)]
pub struct Total(pub i128);

/// Returned when a field is not a decimal amount this engine can represent.
#[derive(Clone, Copy, Debug, PartialEq, Eq, Structural)]
pub struct ParseMoneyError;

impl View for Money {
    type V = int;

    open spec fn view(&self) -> int {
        self.0 as int
    }
}

impl View for Total {
    type V = int;

    open spec fn view(&self) -> int {
        self.0 as int
    }
}

/// Whether a count of ten-thousandths is one that [`Money`] can hold.
pub open spec fn fits(units: int) -> bool {
    i64::MIN <= units <= i64::MAX
}

/// How two counts of ten-thousandths compare.
pub open spec fn order_of(left: int, right: int) -> Option<Ordering> {
    if left < right {
        Some(Ordering::Less)
    } else if left == right {
        Some(Ordering::Equal)
    } else {
        Some(Ordering::Greater)
    }
}

impl PartialOrd for Money {
    fn partial_cmp(&self, other: &Self) -> (order: Option<Ordering>) {
        if self.0 < other.0 {
            Some(Ordering::Less)
        } else if self.0 == other.0 {
            Some(Ordering::Equal)
        } else {
            Some(Ordering::Greater)
        }
    }
}

impl PartialOrdSpecImpl for Money {
    open spec fn obeys_partial_cmp_spec() -> bool {
        true
    }

    open spec fn partial_cmp_spec(&self, other: &Self) -> Option<Ordering> {
        order_of(self@, other@)
    }
}

impl PartialOrd for Total {
    fn partial_cmp(&self, other: &Self) -> (order: Option<Ordering>) {
        if self.0 < other.0 {
            Some(Ordering::Less)
        } else if self.0 == other.0 {
            Some(Ordering::Equal)
        } else {
            Some(Ordering::Greater)
        }
    }
}

impl PartialOrdSpecImpl for Total {
    open spec fn obeys_partial_cmp_spec() -> bool {
        true
    }

    open spec fn partial_cmp_spec(&self, other: &Self) -> Option<Ordering> {
        order_of(self@, other@)
    }
}

impl Default for Money {
    /// The zero amount.
    fn default() -> (amount: Self)
        ensures
            amount@ == 0,
    {
        Money(0)
    }
}

impl Money {
    /// A zero amount.
    #[must_use]
    pub fn zero() -> (amount: Self)
        ensures
            amount@ == 0,
    {
        Money(0)
    }

    /// Builds an amount from a raw count of ten-thousandths.
    #[must_use]
    pub fn from_units(units: i64) -> (amount: Self)
        ensures
            amount@ == units,
    {
        Money(units)
    }

    /// Returns the amount as a raw count of ten-thousandths.
    #[must_use]
    pub fn units(self) -> (units: i64)
        ensures
            units == self@,
    {
        self.0
    }

    /// Adds two amounts, returning [`None`] on overflow.
    #[must_use]
    pub fn checked_add(self, rhs: Self) -> (sum: Option<Self>)
        ensures
            match sum {
                Some(amount) => amount@ == self@ + rhs@,
                None => !fits(self@ + rhs@),
            },
    {
        match self.0.checked_add(rhs.0) {
            Some(units) => Some(Money(units)),
            None => None,
        }
    }

    /// Subtracts `rhs`, returning [`None`] on overflow.
    #[must_use]
    pub fn checked_sub(self, rhs: Self) -> (difference: Option<Self>)
        ensures
            match difference {
                Some(amount) => amount@ == self@ - rhs@,
                None => !fits(self@ - rhs@),
            },
    {
        match self.0.checked_sub(rhs.0) {
            Some(units) => Some(Money(units)),
            None => None,
        }
    }

    /// Adds in a wider type, which cannot overflow.
    #[must_use]
    pub fn widening_add(self, rhs: Self) -> (total: Total)
        ensures
            total@ == self@ + rhs@,
    {
        Total(self.0 as i128 + rhs.0 as i128)
    }

    /// The amount with exactly four decimal places.
    #[must_use]
    pub fn to_string(&self) -> (shown: String)
        ensures
            shown@ == units_text(self@),
    {
        fmt_units(self.0 as i128)
    }
}

impl Total {
    /// The total with exactly four decimal places.
    #[must_use]
    pub fn to_string(&self) -> (shown: String)
        ensures
            shown@ == units_text(self@),
    {
        fmt_units(self.0)
    }
}

/// The four digits of a fraction below [`UNITS_PER_WHOLE`].
pub open spec fn fraction_text(frac: nat) -> Seq<char> {
    seq![
        text::digit(frac / 1000 % 10),
        text::digit(frac / 100 % 10),
        text::digit(frac / 10 % 10),
        text::digit(frac % 10),
    ]
}

/// A count of ten-thousandths as a decimal number: a `-` if it is negative,
/// the whole units without leading zeros, a point, and four decimal places.
pub open spec fn units_text(units: int) -> Seq<char> {
    let magnitude: nat = if units < 0 {
        (-units) as nat
    } else {
        units as nat
    };
    let sign = if units < 0 {
        seq!['-']
    } else {
        Seq::<char>::empty()
    };
    sign + text::decimal(magnitude / 10_000) + seq!['.'] + fraction_text(magnitude % 10_000)
}

/// Formats a raw unit count with exactly four decimal places.
///
/// The magnitude is unsigned, so the lowest count has one as well.
fn fmt_units(units: i128) -> (shown: String)
    ensures
        shown@ == units_text(units as int),
{
    let mut shown = String::new();
    let magnitude: u128 = if units < 0 {
        proof {
            reveal_strlit("-");
        }
        shown.append("-");
        (-(units + 1)) as u128 + 1
    } else {
        units as u128
    };
    text::push_decimal(&mut shown, magnitude / 10_000);
    proof {
        reveal_strlit(".");
    }
    shown.append(".");
    let frac: u128 = magnitude % 10_000;
    text::push_digit(&mut shown, (frac / 1000 % 10) as u8);
    text::push_digit(&mut shown, (frac / 100 % 10) as u8);
    text::push_digit(&mut shown, (frac / 10 % 10) as u8);
    text::push_digit(&mut shown, (frac % 10) as u8);
    assert(shown@ =~= units_text(units as int));
    shown
}

/// Where the first point of `s` stands, or the length of `s` if it has none.
pub open spec fn point(s: Seq<char>) -> int
    decreases s.len(),
{
    if s.len() == 0 || s[0] == '.' {
        0
    } else {
        1 + point(s.drop_first())
    }
}

/// The part of an amount before its first point.
pub open spec fn whole_part(s: Seq<char>) -> Seq<char> {
    s.take(point(s))
}

/// The part of an amount after its first point.
pub open spec fn fraction_part(s: Seq<char>) -> Seq<char> {
    if point(s) < s.len() {
        s.skip(point(s) + 1)
    } else {
        Seq::empty()
    }
}

/// The first `n` decimal places of a fraction, where a missing place is a
/// zero.
pub open spec fn places(frac: Seq<char>, n: nat) -> Seq<char> {
    Seq::new(
        n,
        |i: int| if i < frac.len() { frac[i] } else { '0' },
    )
}

/// Whether `s` has the shape `digit* ('.' digit*)?` with at least one digit,
/// and nothing but zeros past the fourth decimal place.
pub open spec fn is_amount(s: Seq<char>) -> bool {
    let whole = whole_part(s);
    let frac = fraction_part(s);
    &&& text::all_digits(whole)
    &&& text::all_digits(frac)
    &&& whole.len() + frac.len() > 0
    &&& forall|i: int| 4 <= i < frac.len() ==> #[trigger] frac[i] == '0'
}

/// The count of ten-thousandths that an amount stands for.
pub open spec fn amount_units(s: Seq<char>) -> nat {
    text::value(whole_part(s)) * 10_000 + text::value(places(fraction_part(s), 4))
}

/// What a text means as an amount: exactly the value it writes, or nothing if
/// it is not an amount or is more than [`Money`] can hold. Nothing is rounded.
pub open spec fn parsed(s: Seq<char>) -> Option<int> {
    if is_amount(s) && fits(amount_units(s) as int) {
        Some(amount_units(s) as int)
    } else {
        None
    }
}

/// The first point is at `dot` if there is a point there and none before it.
proof fn point_is_at(s: Seq<char>, dot: int)
    requires
        0 <= dot <= s.len(),
        forall|i: int| 0 <= i < dot ==> s[i] != '.',
        dot < s.len() ==> s[dot] == '.',
    ensures
        point(s) == dot,
    decreases s.len(),
{
    if dot > 0 {
        let rest = s.drop_first();
        assert forall|i: int| 0 <= i < dot - 1 implies rest[i] != '.' by {
            assert(rest[i] == s[i + 1]);
        }
        point_is_at(rest, dot - 1);
    }
}

/// The first point, if there is one, is a point, and none comes before it.
proof fn point_is_the_first(s: Seq<char>)
    ensures
        0 <= point(s) <= s.len(),
        forall|i: int| 0 <= i < point(s) ==> s[i] != '.',
        point(s) < s.len() ==> s[point(s)] == '.',
    decreases s.len(),
{
    if s.len() > 0 && s[0] != '.' {
        let rest = s.drop_first();
        point_is_the_first(rest);
        assert forall|i: int| 0 <= i < point(s) implies s[i] != '.' by {
            if i > 0 {
                assert(rest[i - 1] == s[i]);
            }
        }
        assert(point(s) < s.len() ==> rest[point(rest)] == s[point(s)]);
    }
}

/// Digits and points are ASCII, so an amount is.
proof fn amounts_are_ascii(s: Seq<char>)
    requires
        is_amount(s),
    ensures
        vstd::utf8::is_ascii_chars(s),
{
    point_is_the_first(s);
    let dot = point(s);
    assert forall|i: int| 0 <= i < s.len() implies '\0' <= #[trigger] s[i] <= '\u{7f}' by {
        if i < dot {
            assert(text::is_digit(whole_part(s)[i]));
        } else if i > dot {
            assert(text::is_digit(fraction_part(s)[i - dot - 1]));
        }
    }
}

/// Reads a run of ASCII digits, treating an empty run as zero. Rejects
/// anything else, including signs and exponents.
fn digits(bytes: &[u8]) -> (number: Result<i64, ParseMoneyError>)
    ensures
        match number {
            Ok(n) => text::all_digits(text::chars(bytes@)) && n == text::value(
                text::chars(bytes@),
            ),
            Err(_) => !text::all_digits(text::chars(bytes@)) || text::value(text::chars(bytes@))
                > i64::MAX,
        },
{
    match text::read_digits(bytes, i64::MAX as u64) {
        Some(number) => Ok(number as i64),
        None => Err(ParseMoneyError),
    }
}

impl FromStr for Money {
    type Err = ParseMoneyError;

    /// Parses `digit* ('.' digit*)?`, needing at least one digit overall.
    ///
    /// The rule is that anything four decimal places can hold exactly is
    /// accepted, and anything else is refused rather than rounded. So `1.`,
    /// `.5` and `1.50000` all parse, since none of them is ambiguous or lossy,
    /// while `1.00005` does not. Signs and exponents are rejected outright.
    fn from_str(s: &str) -> (result: Result<Self, Self::Err>)
        ensures
            match result {
                Ok(amount) => parsed(s@) == Some(amount@),
                Err(_) => parsed(s@) is None,
            },
    {
        let bytes = match text::ascii_bytes(s) {
            Some(bytes) => bytes,
            None => {
                proof {
                    if is_amount(s@) {
                        amounts_are_ascii(s@);
                    }
                }
                return Err(ParseMoneyError);
            },
        };
        let mut dot: usize = 0;
        while dot < bytes.len() && bytes[dot] != 46
            invariant
                dot <= bytes.len(),
                forall|i: int| 0 <= i < dot ==> bytes@[i] != 46,
            decreases bytes.len() - dot,
        {
            dot += 1;
        }
        let whole = slice_subrange(bytes, 0, dot);
        let frac = if dot < bytes.len() {
            slice_subrange(bytes, dot + 1, bytes.len())
        } else {
            slice_subrange(bytes, dot, dot)
        };
        proof {
            assert forall|i: int| 0 <= i < dot implies s@[i] != '.' by {
                assert(s@[i] == text::chars(bytes@)[i]);
            }
            point_is_at(s@, dot as int);
            assert(text::chars(whole@) =~= whole_part(s@));
            assert(text::chars(frac@) =~= fraction_part(s@));
        }
        // A lone "." has no digits at all and is not a number.
        if whole.len() == 0 && frac.len() == 0 {
            return Err(ParseMoneyError);
        }
        // Trailing zeros carry no value, so they do not count against the four
        // places.
        let mut kept: usize = frac.len();
        while kept > 0 && frac[kept - 1] == 48
            invariant
                kept <= frac.len(),
                forall|i: int| kept <= i < frac.len() ==> frac@[i] == 48,
            decreases kept,
        {
            kept -= 1;
        }
        let ghost part = fraction_part(s@);
        proof {
            assert forall|i: int| kept <= i < part.len() implies part[i] == '0' by {
                assert(part[i] == text::chars(frac@)[i]);
            }
            if kept > 0 {
                assert(part[kept - 1] == text::chars(frac@)[kept - 1]);
                assert(frac@[kept - 1] as char == '0' ==> frac@[kept - 1] == 48);
            }
        }
        if kept > SCALE {
            return Err(ParseMoneyError);
        }
        // At most four digits, so the scaling cannot overflow.
        let significant = slice_subrange(frac, 0, kept);
        proof {
            assert(text::chars(significant@) =~= part.take(kept as int));
            assert(part.take(kept as int) =~= places(part, kept as nat));
            text::value_is_bounded(part.take(kept as int));
            reveal_with_fuel(text::power_of_ten, 5);
            if text::all_digits(part.take(kept as int)) {
                assert forall|i: int| 0 <= i < part.len() implies text::is_digit(
                    #[trigger] part[i],
                ) by {
                    if i < kept {
                        assert(text::is_digit(part.take(kept as int)[i]));
                    }
                }
            } else {
                let i = choose|i: int|
                    0 <= i < kept && !text::is_digit(#[trigger] part.take(kept as int)[i]);
                assert(!text::is_digit(part[i]));
            }
        }
        let mut frac_units: i64 = digits(significant)?;
        let mut place: usize = kept;
        while place < SCALE
            invariant
                kept <= place <= SCALE,
                kept <= part.len(),
                forall|i: int| kept <= i < part.len() ==> part[i] == '0',
                frac_units == text::value(places(part, place as nat)),
                frac_units < text::power_of_ten(place as nat),
            decreases SCALE - place,
        {
            proof {
                assert(places(part, (place + 1) as nat).drop_last() =~= places(part, place as nat));
                assert(places(part, (place + 1) as nat).last() == '0');
                reveal_with_fuel(text::power_of_ten, 5);
            }
            frac_units = frac_units * 10;
            place += 1;
        }
        let whole_units: i64 = digits(whole)?;
        match whole_units.checked_mul(UNITS_PER_WHOLE) {
            Some(units) => match units.checked_add(frac_units) {
                Some(units) => Ok(Money(units)),
                None => Err(ParseMoneyError),
            },
            None => Err(ParseMoneyError),
        }
    }
}

/// The text `whole . frac`, where the whole part holds no point, is split at
/// that point.
proof fn split_of_joined(whole: Seq<char>, frac: Seq<char>)
    requires
        !whole.contains('.'),
    ensures
        whole_part(whole + seq!['.'] + frac) == whole,
        fraction_part(whole + seq!['.'] + frac) == frac,
{
    let s = whole + seq!['.'] + frac;
    assert forall|i: int| 0 <= i < whole.len() implies s[i] != '.' by {
        assert(s[i] == whole[i]);
        assert(whole.contains(whole[i]));
    }
    assert(s[whole.len() as int] == '.');
    point_is_at(s, whole.len() as int);
    assert(s.take(whole.len() as int) =~= whole);
    assert(s.skip(whole.len() as int + 1) =~= frac);
}

/// A run of digits holds no point.
proof fn digits_hold_no_point(s: Seq<char>)
    requires
        text::all_digits(s),
    ensures
        !s.contains('.'),
{
    if s.contains('.') {
        let i = choose|i: int| 0 <= i < s.len() && s[i] == '.';
        assert(text::is_digit(s[i]));
    }
}

/// What is printed of a count that is not negative is an amount of exactly
/// that count.
proof fn printed_counts_read_back(units: int)
    requires
        0 <= units,
    ensures
        is_amount(units_text(units)),
        amount_units(units_text(units)) == units,
{
    let s = units_text(units);
    let whole = text::decimal(units as nat / 10_000);
    let n = units as nat % 10_000;
    let frac = fraction_text(n);
    assert(s =~= whole + seq!['.'] + frac);
    text::decimal_reads_back(units as nat / 10_000);
    digits_hold_no_point(whole);
    split_of_joined(whole, frac);
    assert(places(frac, 4) =~= frac);
    assert(text::value(frac) == n) by {
        let a = frac.drop_last();
        let b = a.drop_last();
        let c = b.drop_last();
        let d = c.drop_last();
        assert(d.len() == 0);
        assert(c.last() == text::digit(n / 1000 % 10));
        assert(text::value(d) == 0);
        assert(text::value(c) == n / 1000 % 10);
        assert(text::value(b) == text::value(c) * 10 + n / 100 % 10);
        assert(text::value(a) == text::value(b) * 10 + n / 10 % 10);
    }
}

/// Printing an amount and parsing what was printed gives the amount back, for
/// every amount that is not negative.
pub proof fn printing_then_parsing_is_the_identity(units: int)
    requires
        0 <= units <= i64::MAX,
    ensures
        parsed(units_text(units)) == Some(units),
{
    printed_counts_read_back(units);
}

/// No two amounts or totals print the same. So the sign is never lost, not even
/// between zero and one whole unit.
pub proof fn different_amounts_print_differently(a: int, b: int)
    requires
        a != b,
    ensures
        units_text(a) != units_text(b),
{
    if units_text(a) == units_text(b) {
        let s = units_text(a);
        if a < 0 {
            assert(s[0] == '-');
            assert(s.drop_first() =~= units_text(-a));
            printed_counts_read_back(-a);
        } else {
            printed_counts_read_back(a);
        }
        if b < 0 {
            assert(units_text(b)[0] == '-');
            assert(units_text(b).drop_first() =~= units_text(-b));
            printed_counts_read_back(-b);
        } else {
            printed_counts_read_back(b);
        }
        if (a < 0) != (b < 0) {
            let magnitude = if a < 0 {
                b
            } else {
                a
            };
            text::decimal_reads_back(magnitude as nat / 10_000);
            assert(s[0] == text::decimal(magnitude as nat / 10_000)[0]);
            assert(text::is_digit(s[0]));
        }
    }
}

/// Whatever parses also survives being printed and parsed again.
pub proof fn what_parses_prints_and_parses_back(s: Seq<char>)
    ensures
        parsed(s) matches Some(units) ==> parsed(units_text(units)) == Some(units),
{
    if let Some(units) = parsed(s) {
        printing_then_parsing_is_the_identity(units);
    }
}

/// Signs, exponents and anything else that is neither a digit nor a point are
/// refused.
pub proof fn only_digits_and_a_point_parse(s: Seq<char>, i: int)
    requires
        0 <= i < s.len(),
        !text::is_digit(s[i]),
        s[i] != '.',
    ensures
        parsed(s) is None,
{
    point_is_the_first(s);
    let dot = point(s);
    if is_amount(s) {
        if i < dot {
            assert(text::is_digit(whole_part(s)[i]));
        } else {
            assert(text::is_digit(fraction_part(s)[i - dot - 1]));
        }
    }
}

/// A negative amount prints with a sign, which the parser refuses, so nothing
/// that was printed parses to another amount.
pub proof fn a_negative_amount_does_not_parse(units: int)
    requires
        units < 0,
    ensures
        parsed(units_text(units)) is None,
{
    let s = units_text(units);
    assert(s[0] == '-');
    only_digits_and_a_point_parse(s, 0);
}

/// Leading zeros on the whole part and trailing zeros on the fraction do not
/// change what an amount parses to.
pub proof fn padding_with_zeros_does_not_change_the_value(
    left: Seq<char>,
    whole: Seq<char>,
    frac: Seq<char>,
    right: Seq<char>,
)
    requires
        forall|i: int| 0 <= i < left.len() ==> #[trigger] left[i] == '0',
        forall|i: int| 0 <= i < right.len() ==> #[trigger] right[i] == '0',
        !whole.contains('.'),
        whole.len() + frac.len() > 0,
    ensures
        parsed(left + whole + seq!['.'] + frac + right) == parsed(whole + seq!['.'] + frac),
{
    let padded_whole = left + whole;
    let padded_frac = frac + right;
    assert(left + whole + seq!['.'] + frac + right =~= padded_whole + seq!['.'] + padded_frac);
    if padded_whole.contains('.') {
        let i = choose|i: int| 0 <= i < padded_whole.len() && padded_whole[i] == '.';
        assert(i >= left.len());
        assert(whole[i - left.len()] == '.');
        assert(whole.contains('.'));
    }
    split_of_joined(padded_whole, padded_frac);
    split_of_joined(whole, frac);
    text::value_of_joined(left, whole);
    text::value_of_zeros(left);
    assert(text::value(padded_whole) == text::value(whole));
    assert(places(padded_frac, 4) =~= places(frac, 4));
    assert(text::all_digits(padded_whole) == text::all_digits(whole)) by {
        if text::all_digits(padded_whole) {
            assert forall|i: int| 0 <= i < whole.len() implies text::is_digit(
                #[trigger] whole[i],
            ) by {
                assert(text::is_digit(padded_whole[i + left.len()]));
            }
        }
        if text::all_digits(whole) {
            assert forall|i: int| 0 <= i < padded_whole.len() implies text::is_digit(
                #[trigger] padded_whole[i],
            ) by {
                if i < left.len() {
                    assert(left[i] == '0');
                } else {
                    assert(text::is_digit(whole[i - left.len()]));
                }
            }
        }
    }
    assert(text::all_digits(padded_frac) == text::all_digits(frac)) by {
        if text::all_digits(padded_frac) {
            assert forall|i: int| 0 <= i < frac.len() implies text::is_digit(#[trigger] frac[i]) by {
                assert(text::is_digit(padded_frac[i]));
            }
        }
        if text::all_digits(frac) {
            assert forall|i: int| 0 <= i < padded_frac.len() implies text::is_digit(
                #[trigger] padded_frac[i],
            ) by {
                if i < frac.len() {
                    assert(text::is_digit(frac[i]));
                } else {
                    assert(right[i - frac.len()] == '0');
                }
            }
        }
    }
    let zeros_follow = forall|i: int| 4 <= i < frac.len() ==> #[trigger] frac[i] == '0';
    let padded_zeros_follow = forall|i: int|
        4 <= i < padded_frac.len() ==> #[trigger] padded_frac[i] == '0';
    assert(zeros_follow == padded_zeros_follow) by {
        if padded_zeros_follow {
            assert forall|i: int| 4 <= i < frac.len() implies #[trigger] frac[i] == '0' by {
                assert(padded_frac[i] == '0');
            }
        }
        if zeros_follow {
            assert forall|i: int| 4 <= i < padded_frac.len() implies #[trigger] padded_frac[i]
                == '0' by {
                if i < frac.len() {
                    assert(frac[i] == '0');
                } else {
                    assert(right[i - frac.len()] == '0');
                }
            }
        }
    }
}

/// A point behind a whole number does not change its value.
pub proof fn a_trailing_point_does_not_change_the_value(whole: Seq<char>)
    requires
        !whole.contains('.'),
        whole.len() > 0,
    ensures
        parsed(whole + seq!['.']) == parsed(whole),
{
    assert(whole + seq!['.'] =~= whole + seq!['.'] + Seq::<char>::empty());
    split_of_joined(whole, Seq::empty());
    assert forall|i: int| 0 <= i < whole.len() implies whole[i] != '.' by {
        assert(whole.contains(whole[i]));
    }
    point_is_at(whole, whole.len() as int);
    assert(whole_part(whole) =~= whole);
}

/// Leading zeros do not change a whole number either.
pub proof fn leading_zeros_do_not_change_a_whole_number(left: Seq<char>, whole: Seq<char>)
    requires
        forall|i: int| 0 <= i < left.len() ==> #[trigger] left[i] == '0',
        !whole.contains('.'),
        whole.len() > 0,
    ensures
        parsed(left + whole) == parsed(whole),
{
    let padded = left + whole;
    if padded.contains('.') {
        let i = choose|i: int| 0 <= i < padded.len() && padded[i] == '.';
        assert(i >= left.len());
        assert(whole[i - left.len()] == '.');
        assert(whole.contains('.'));
    }
    padding_with_zeros_does_not_change_the_value(left, whole, Seq::empty(), Seq::empty());
    assert(left + whole + seq!['.'] + Seq::<char>::empty() + Seq::<char>::empty() =~= padded
        + seq!['.']);
    assert(whole + seq!['.'] + Seq::<char>::empty() =~= whole + seq!['.']);
    a_trailing_point_does_not_change_the_value(padded);
    a_trailing_point_does_not_change_the_value(whole);
}

/// Nothing is rounded: the units of a parsed amount are exactly the number
/// that its digits write, shifted by the number of decimal places.
pub proof fn parsing_is_exact(s: Seq<char>)
    ensures
        parsed(s) matches Some(units) ==> units * text::power_of_ten(fraction_part(s).len())
            == text::value(whole_part(s) + fraction_part(s)) * UNITS_PER_WHOLE,
{
    if let Some(units) = parsed(s) {
        let whole = whole_part(s);
        let frac = fraction_part(s);
        let n = frac.len();
        let w = text::value(whole);
        let f = text::value(frac);
        let p = text::value(places(frac, 4));
        let scale = text::power_of_ten(n);
        text::value_of_joined(whole, frac);
        reveal_with_fuel(text::power_of_ten, 5);
        assert(text::power_of_ten(4) == 10_000);
        assert(p * scale == f * 10_000) by {
            if n <= 4 {
                let zeros = Seq::new((4 - n) as nat, |i: int| '0');
                assert(places(frac, 4) =~= frac + zeros);
                text::value_of_joined(frac, zeros);
                text::value_of_zeros(zeros);
                text::powers_multiply((4 - n) as nat, n);
                let q = text::power_of_ten((4 - n) as nat);
                assert((f * q) * scale == f * (q * scale)) by (nonlinear_arith);
            } else {
                let head = frac.take(4);
                let tail = frac.skip(4);
                assert(places(frac, 4) =~= head);
                assert(frac =~= head + tail);
                assert forall|i: int| 0 <= i < tail.len() implies #[trigger] tail[i] == '0' by {
                    assert(frac[i + 4] == '0');
                }
                text::value_of_joined(head, tail);
                text::value_of_zeros(tail);
                text::powers_multiply(4, (n - 4) as nat);
                let q = text::power_of_ten((n - 4) as nat);
                assert(p * (10_000 * q) == (p * q) * 10_000) by (nonlinear_arith);
            }
        }
        assert((w * 10_000 + p) * scale == (w * scale) * 10_000 + p * scale) by (nonlinear_arith);
    }
}

/// Digits that are worth nothing are zeros.
proof fn worthless_digits_are_zeros(s: Seq<char>)
    requires
        text::all_digits(s),
        text::value(s) == 0,
    ensures
        forall|i: int| 0 <= i < s.len() ==> #[trigger] s[i] == '0',
    decreases s.len(),
{
    if s.len() > 0 {
        let rest = s.drop_last();
        assert forall|i: int| 0 <= i < rest.len() implies text::is_digit(#[trigger] rest[i]) by {
            assert(text::is_digit(s[i]));
        }
        assert(text::is_digit(s[s.len() - 1]));
        worthless_digits_are_zeros(rest);
        assert forall|i: int| 0 <= i < s.len() implies #[trigger] s[i] == '0' by {
            if i < rest.len() {
                assert(rest[i] == '0');
            }
        }
    }
}

/// The digits past the fourth place are zeros if what the digits write is a
/// whole number of ten-thousandths, and the first four write the rest of it.
proof fn whole_counts_have_four_places(whole: Seq<char>, frac: Seq<char>, units: int)
    requires
        text::all_digits(whole),
        text::all_digits(frac),
        text::value(whole + frac) * 10_000 == units * text::power_of_ten(frac.len()),
    ensures
        forall|i: int| 4 <= i < frac.len() ==> #[trigger] frac[i] == '0',
        text::value(whole) * 10_000 + text::value(places(frac, 4)) == units,
{
    let n = frac.len();
    let w = text::value(whole);
    let f = text::value(frac);
    let scale = text::power_of_ten(n);
    text::value_of_joined(whole, frac);
    reveal_with_fuel(text::power_of_ten, 5);
    assert(text::power_of_ten(4) == 10_000);
    if n <= 4 {
        let zeros = Seq::new((4 - n) as nat, |i: int| '0');
        let q = text::power_of_ten((4 - n) as nat);
        assert(places(frac, 4) =~= frac + zeros);
        text::value_of_joined(frac, zeros);
        text::value_of_zeros(zeros);
        text::powers_multiply((4 - n) as nat, n);
        assert(q * scale == 10_000);
        assert(scale > 0) by (nonlinear_arith)
            requires
                q * scale == 10_000,
        ;
        assert((w * scale + f) * (q * scale) == (w * (q * scale) + f * q) * scale)
            by (nonlinear_arith);
        assert(units == w * 10_000 + f * q) by (nonlinear_arith)
            requires
                (w * 10_000 + f * q) * scale == units * scale,
                scale > 0,
        ;
    } else {
        let head = frac.take(4);
        let tail = frac.skip(4);
        let k = (n - 4) as nat;
        let q = text::power_of_ten(k);
        let h = text::value(head);
        let t = text::value(tail);
        assert(frac =~= head + tail);
        assert forall|i: int| 0 <= i < tail.len() implies text::is_digit(#[trigger] tail[i]) by {
            assert(text::is_digit(frac[i + 4]));
        }
        text::value_of_joined(head, tail);
        text::value_is_bounded(tail);
        text::powers_multiply(4, k);
        assert(scale == 10_000 * q);
        assert(f == h * q + t);
        assert(t < q);
        assert(w * scale + f == (w * 10_000 + h) * q + t) by (nonlinear_arith)
            requires
                scale == 10_000 * q,
                f == h * q + t,
        ;
        assert(w * scale + f == units * q) by (nonlinear_arith)
            requires
                (w * scale + f) * 10_000 == units * scale,
                scale == 10_000 * q,
        ;
        let rest = units - (w * 10_000 + h);
        assert(rest * q == t) by (nonlinear_arith)
            requires
                units * q == (w * 10_000 + h) * q + t,
                rest == units - (w * 10_000 + h),
        ;
        assert(rest == 0) by (nonlinear_arith)
            requires
                rest * q == t,
                0 <= t < q,
        ;
        worthless_digits_are_zeros(tail);
        assert forall|i: int| 4 <= i < frac.len() implies #[trigger] frac[i] == '0' by {
            assert(tail[i - 4] == '0');
        }
        assert(places(frac, 4) =~= head);
    }
}

/// Digits with a point in them parse as the number that they write, whenever
/// that is a whole number of ten-thousandths that an amount can hold: in
/// whatever way it is written, with however many zeros, and with or without
/// digits on either side of the point.
pub proof fn what_writes_an_amount_parses(whole: Seq<char>, frac: Seq<char>, units: int)
    requires
        text::all_digits(whole),
        text::all_digits(frac),
        whole.len() + frac.len() > 0,
        text::value(whole + frac) * 10_000 == units * text::power_of_ten(frac.len()),
        0 <= units <= i64::MAX,
    ensures
        parsed(whole + seq!['.'] + frac) == Some(units),
        frac.len() == 0 ==> parsed(whole) == Some(units),
{
    digits_hold_no_point(whole);
    split_of_joined(whole, frac);
    whole_counts_have_four_places(whole, frac, units);
    if frac.len() == 0 {
        assert(whole + seq!['.'] + frac =~= whole + seq!['.']);
        a_trailing_point_does_not_change_the_value(whole);
    }
}

/// Whatever parses is digits, at least one, with at most one point in or around
/// them, and they write exactly the amount, which is not negative.
pub proof fn what_parses_writes_the_amount(s: Seq<char>)
    ensures
        parsed(s) matches Some(units) ==> {
            &&& 0 <= units <= i64::MAX
            &&& exists|whole: Seq<char>, frac: Seq<char>| #[trigger]
                text::all_digits(whole) && #[trigger] text::all_digits(frac) && whole.len()
                    + frac.len() > 0 && (s == whole + seq!['.'] + frac || frac.len() == 0 && s
                    == whole) && text::value(whole + frac) * 10_000 == units * text::power_of_ten(
                    frac.len(),
                )
        },
{
    if let Some(units) = parsed(s) {
        let whole = whole_part(s);
        let frac = fraction_part(s);
        point_is_the_first(s);
        parsing_is_exact(s);
        assert(text::all_digits(whole) && text::all_digits(frac));
        if point(s) < s.len() {
            assert(s =~= whole + seq!['.'] + frac);
        } else {
            assert(s =~= whole);
        }
    }
}

/// An amount or a total is printed with a `-` exactly if it is negative, then
/// digits without leading zeros, a point and four digits more. The digits write
/// its count of ten-thousandths. There is only one such text.
pub proof fn amounts_are_printed_with_four_places(units: int)
    ensures
        ({
            let s = units_text(units);
            let body = if units < 0 {
                s.skip(1)
            } else {
                s
            };
            let dot = body.len() - 5;
            let whole = body.take(dot);
            let frac = body.skip(dot + 1);
            &&& s[0] == '-' <==> units < 0
            &&& dot > 0
            &&& body[dot] == '.'
            &&& text::all_digits(whole)
            &&& text::all_digits(frac)
            &&& whole[0] == '0' ==> whole.len() == 1
            &&& text::value(whole + frac) == if units < 0 {
                -units
            } else {
                units
            }
        }),
{
    let magnitude = if units < 0 {
        -units
    } else {
        units
    };
    let s = units_text(units);
    let body = units_text(magnitude);
    let digits = text::decimal(magnitude as nat / 10_000);
    let four = fraction_text(magnitude as nat % 10_000);
    let dot = body.len() - 5;
    assert(body =~= digits + seq!['.'] + four);
    assert(body.take(dot) =~= digits);
    assert(body.skip(dot + 1) =~= four);
    text::a_number_is_written_without_leading_zeros(magnitude as nat / 10_000);
    printed_counts_read_back(magnitude);
    assert(text::is_digit(digits[0]));
    assert(body[0] == digits[0]);
    if units < 0 {
        assert(s.skip(1) =~= body);
        assert(s[0] == '-');
    }
    digits_hold_no_point(digits);
    split_of_joined(digits, four);
    assert(places(four, 4) =~= four);
    assert forall|i: int| 0 <= i < 4 implies text::is_digit(#[trigger] four[i]) by {}
    text::value_of_joined(digits, four);
    reveal_with_fuel(text::power_of_ten, 5);
}

/// An amount is the number of ten-thousandths that it was made of, and so is a
/// total.
pub proof fn an_amount_is_its_units(amount: Money, total: Total)
    ensures
        amount@ == amount.0,
        total@ == total.0,
{
}

/// What fits is what an amount can be.
pub proof fn what_fits_is_what_an_amount_can_be(units: int)
    ensures
        fits(units) <==> exists|amount: Money| #[trigger] amount.0 == units,
{
    if fits(units) {
        assert(Money(units as i64).0 == units);
    }
}

/// Amounts and totals compare as their counts of ten-thousandths do.
pub proof fn amounts_compare_by_their_units(a: Money, b: Money, c: Total, d: Total)
    ensures
        vstd::std_specs::cmp::PartialOrdSpec::partial_cmp_spec(&a, &b) == Some(Ordering::Less) <==> a.0 < b.0,
        vstd::std_specs::cmp::PartialOrdSpec::partial_cmp_spec(&a, &b) == Some(Ordering::Equal) <==> a.0 == b.0,
        vstd::std_specs::cmp::PartialOrdSpec::partial_cmp_spec(&a, &b) == Some(Ordering::Greater) <==> a.0 > b.0,
        vstd::std_specs::cmp::PartialOrdSpec::partial_cmp_spec(&c, &d) == Some(Ordering::Less) <==> c.0 < d.0,
        vstd::std_specs::cmp::PartialOrdSpec::partial_cmp_spec(&c, &d) == Some(Ordering::Equal) <==> c.0 == d.0,
        vstd::std_specs::cmp::PartialOrdSpec::partial_cmp_spec(&c, &d) == Some(Ordering::Greater) <==> c.0 > d.0,
{
}

} // verus!
