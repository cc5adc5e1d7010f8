//! Amounts: what parses, what is printed, and checked arithmetic.

use payments_engine::money::Money;
use payments_engine::money::ParseMoneyError;

fn parse(s: &str) -> Result<i64, ParseMoneyError> {
    s.parse::<Money>().map(Money::units)
}

#[test]
fn parses_accepted_shapes() {
    assert_eq!(parse("0"), Ok(0));
    assert_eq!(parse("1"), Ok(10_000));
    assert_eq!(parse("1.0"), Ok(10_000));
    assert_eq!(parse("1.5"), Ok(15_000));
    assert_eq!(parse("1.5000"), Ok(15_000));
    assert_eq!(parse("0.0001"), Ok(1));
    assert_eq!(parse("10.0001"), Ok(100_001));
    assert_eq!(parse("000001.05"), Ok(10_500));
    assert_eq!(parse("0.0010"), Ok(10));
    // Unambiguous and lossless, so accepted on the same rule.
    assert_eq!(parse("1."), Ok(10_000));
    assert_eq!(parse(".5"), Ok(5_000));
    assert_eq!(parse("."), Err(ParseMoneyError));
    // Zero stays zero however it is written.
    assert_eq!(parse(".0"), Ok(0));
    assert_eq!(parse(".0000"), Ok(0));
    assert_eq!(parse("0."), Ok(0));
}

#[test]
fn accepts_trailing_zeros_past_four_places() {
    // Value-preserving, and a float formatter upstream may produce them.
    assert_eq!(parse("1.50000"), Ok(15_000));
    assert_eq!(parse("1.000000000000"), Ok(10_000));
    assert_eq!(parse("0.00010000"), Ok(1));
}

#[test]
fn rejects_everything_else() {
    for input in [
        "",
        " ",
        ".",
        "-1",
        "-0.0000",
        "+1",
        "1e5",
        "1.00005",
        "abc",
        "1 000",
        "1.2.3",
        "922337203685478",
    ] {
        assert!(parse(input).is_err(), "{input:?} should not parse");
    }
}

#[test]
fn displays_with_four_decimal_places() {
    assert_eq!(Money::zero().to_string(), "0.0000");
    assert_eq!(Money::from_units(15_000).to_string(), "1.5000");
    assert_eq!(Money::from_units(1).to_string(), "0.0001");
    assert_eq!(Money::from_units(-15_000).to_string(), "-1.5000");
}

#[test]
fn keeps_the_sign_of_small_negative_values() {
    // The whole part is 0 here, so the sign has to be recovered by hand.
    assert_eq!(Money::from_units(-500).to_string(), "-0.0500");
    assert_eq!(Money::from_units(-1).to_string(), "-0.0001");
}

#[test]
fn displays_the_extremes_without_panicking() {
    assert_eq!(
        Money::from_units(i64::MIN).to_string(),
        "-922337203685477.5808"
    );
    assert_eq!(
        Money::from_units(i64::MAX).to_string(),
        "922337203685477.5807"
    );
}

#[test]
fn round_trips_through_display_and_parse() {
    for units in [0, 1, 15_000, 100_001, i64::MAX] {
        let printed = Money::from_units(units).to_string();
        assert_eq!(
            printed.parse::<Money>().unwrap().units(),
            units,
            "{printed}"
        );
    }
}

#[test]
fn arithmetic_is_checked() {
    let max = Money::from_units(i64::MAX);
    assert_eq!(max.checked_add(Money::from_units(1)), None);
    assert_eq!(
        Money::from_units(i64::MIN).checked_sub(Money::from_units(1)),
        None
    );
    assert_eq!(max.checked_add(Money::zero()), Some(max));
}

#[test]
fn totals_cannot_overflow() {
    let max = Money::from_units(i64::MAX);
    assert_eq!(max.widening_add(max).to_string(), "1844674407370955.1614");
}
