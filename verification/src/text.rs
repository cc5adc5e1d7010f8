//! Decimal numbers as text, the ASCII case folding that column and type names
//! are matched with, whitespace, and quoting.

use vstd::prelude::*;
use vstd::slice::slice_subrange;
use vstd::string::StringExecFns;

verus! {

/// Whether `c` is one of `0` to `9`.
pub open spec fn is_digit(c: char) -> bool {
    '0' <= c && c <= '9'
}

/// Whether every character of `s` is a digit. True of the empty text.
pub open spec fn all_digits(s: Seq<char>) -> bool {
    forall|i: int| 0 <= i < s.len() ==> is_digit(#[trigger] s[i])
}

/// What the digit `c` counts for.
pub open spec fn digit_value(c: char) -> nat {
    (c as int - '0' as int) as nat
}

/// The number that a run of digits writes in base ten. An empty run is zero.
pub open spec fn value(s: Seq<char>) -> nat
    decreases s.len(),
{
    if s.len() == 0 {
        0
    } else {
        value(s.drop_last()) * 10 + digit_value(s.last())
    }
}

/// Ten to the power of `n`.
pub open spec fn power_of_ten(n: nat) -> nat
    decreases n,
{
    if n == 0 {
        1
    } else {
        10 * power_of_ten((n - 1) as nat)
    }
}

/// A run of digits is worth less than ten to the power of its length.
pub proof fn value_is_bounded(s: Seq<char>)
    ensures
        all_digits(s) ==> value(s) < power_of_ten(s.len()),
    decreases s.len(),
{
    if s.len() > 0 && all_digits(s) {
        assert forall|i: int| 0 <= i < s.len() - 1 implies is_digit(
            #[trigger] s.drop_last()[i],
        ) by {
            assert(is_digit(s[i]));
        }
        value_is_bounded(s.drop_last());
        assert(is_digit(s[s.len() - 1]));
    }
}

/// Putting one run of digits behind another shifts the first by the length of
/// the second.
pub proof fn value_of_joined(a: Seq<char>, b: Seq<char>)
    ensures
        value(a + b) == value(a) * power_of_ten(b.len()) + value(b),
    decreases b.len(),
{
    if b.len() == 0 {
        assert(a + b =~= a);
        assert(value(a) * power_of_ten(0) == value(a)) by (nonlinear_arith)
            requires
                power_of_ten(0) == 1,
        ;
    } else {
        assert((a + b).drop_last() =~= a + b.drop_last());
        assert((a + b).last() == b.last());
        value_of_joined(a, b.drop_last());
        let p = power_of_ten((b.len() - 1) as nat);
        assert((value(a) * p) * 10 == value(a) * (10 * p)) by (nonlinear_arith);
    }
}

/// A run of zeros is worth nothing.
pub proof fn value_of_zeros(s: Seq<char>)
    requires
        forall|i: int| 0 <= i < s.len() ==> #[trigger] s[i] == '0',
    ensures
        value(s) == 0,
    decreases s.len(),
{
    if s.len() > 0 {
        assert forall|i: int| 0 <= i < s.len() - 1 implies #[trigger] s.drop_last()[i] == '0' by {
            assert(s[i] == '0');
        }
        value_of_zeros(s.drop_last());
        assert(s[s.len() - 1] == '0');
    }
}

/// Powers of ten multiply by adding their exponents.
pub proof fn powers_multiply(m: nat, n: nat)
    ensures
        power_of_ten(m + n) == power_of_ten(m) * power_of_ten(n),
    decreases m,
{
    if m > 0 {
        powers_multiply((m - 1) as nat, n);
        let p = power_of_ten((m - 1) as nat);
        let q = power_of_ten(n);
        assert(10 * (p * q) == (10 * p) * q) by (nonlinear_arith);
        assert((m - 1) as nat + n == (m + n - 1) as nat);
    } else {
        assert(power_of_ten(0) * power_of_ten(n) == power_of_ten(n)) by (nonlinear_arith)
            requires
                power_of_ten(0) == 1,
        ;
    }
}

/// The digit that writes `n`, for `n` below ten.
pub open spec fn digit(n: nat) -> char {
    ('0' as nat + n) as char
}

/// The shortest run of digits that writes `n`.
pub open spec fn decimal(n: nat) -> Seq<char>
    decreases n,
{
    if n < 10 {
        seq![digit(n)]
    } else {
        decimal(n / 10).push(digit(n % 10))
    }
}

/// Writing a number and reading it back gives the number, and what was written
/// is a non-empty run of digits.
pub proof fn decimal_reads_back(n: nat)
    ensures
        value(decimal(n)) == n,
        all_digits(decimal(n)),
        decimal(n).len() > 0,
    decreases n,
{
    reveal_with_fuel(value, 2);
    if n >= 10 {
        decimal_reads_back(n / 10);
        assert(decimal(n).drop_last() =~= decimal(n / 10));
    } else {
        assert(decimal(n).drop_last() =~= Seq::<char>::empty());
    }
}

/// The text of the single digit `d`.
fn digit_text(d: u8) -> (text: &'static str)
    requires
        d < 10,
    ensures
        text@ == seq![digit(d as nat)],
{
    proof {
        reveal_strlit("0");
        reveal_strlit("1");
        reveal_strlit("2");
        reveal_strlit("3");
        reveal_strlit("4");
        reveal_strlit("5");
        reveal_strlit("6");
        reveal_strlit("7");
        reveal_strlit("8");
        reveal_strlit("9");
    }
    match d {
        0 => "0",
        1 => "1",
        2 => "2",
        3 => "3",
        4 => "4",
        5 => "5",
        6 => "6",
        7 => "7",
        8 => "8",
        _ => "9",
    }
}

/// Appends the single digit `d`.
pub fn push_digit(out: &mut String, d: u8)
    requires
        d < 10,
    ensures
        final(out)@ == old(out)@.push(digit(d as nat)),
{
    out.append(digit_text(d));
    assert(out@ =~= old(out)@.push(digit(d as nat)));
}

/// Appends `n` in base ten, without leading zeros.
pub fn push_decimal(out: &mut String, n: u128)
    ensures
        final(out)@ == old(out)@ + decimal(n as nat),
    decreases n,
{
    if n >= 10 {
        push_decimal(out, n / 10);
    }
    push_digit(out, (n % 10) as u8);
    assert(out@ =~= old(out)@ + decimal(n as nat));
}

/// The characters that ASCII bytes stand for.
pub open spec fn chars(bytes: Seq<u8>) -> Seq<char> {
    Seq::new(bytes.len(), |i: int| bytes[i] as char)
}

/// The bytes of an ASCII text, one per character, or [`None`] for any other
/// text.
pub fn ascii_bytes(s: &str) -> (bytes: Option<&[u8]>)
    ensures
        match bytes {
            Some(b) => chars(b@) == s@ && s.is_ascii(),
            None => !s.is_ascii(),
        },
{
    if s.is_ascii() {
        let bytes = s.as_bytes();
        proof {
            vstd::string::is_ascii_spec_bytes(s);
            assert(chars(bytes@) =~= s@);
        }
        Some(bytes)
    } else {
        None
    }
}

/// A run of digits is worth at least as much as any run it begins with.
proof fn prefix_value_is_no_more(s: Seq<char>, n: int)
    requires
        0 <= n <= s.len(),
    ensures
        value(s.take(n)) <= value(s),
    decreases s.len(),
{
    if n < s.len() {
        prefix_value_is_no_more(s.drop_last(), n);
        assert(s.drop_last().take(n) =~= s.take(n));
    } else {
        assert(s.take(n) =~= s);
    }
}

/// Reads a run of ASCII digits, treating an empty run as zero. Gives [`None`]
/// for anything else, and for a number over `limit`.
pub fn read_digits(bytes: &[u8], limit: u64) -> (number: Option<u64>)
    ensures
        number == (if all_digits(chars(bytes@)) && value(chars(bytes@)) <= limit {
            Some(value(chars(bytes@)) as u64)
        } else {
            None
        }),
{
    let ghost s = chars(bytes@);
    let mut number: u64 = 0;
    let mut i: usize = 0;
    assert(s.take(0) =~= Seq::<char>::empty());
    while i < bytes.len()
        invariant
            0 <= i <= bytes.len(),
            s == chars(bytes@),
            number <= limit,
            number == value(s.take(i as int)),
            all_digits(s.take(i as int)),
        decreases bytes.len() - i,
    {
        let b = bytes[i];
        if b < 48 || b > 57 {
            assert(!is_digit(s[i as int]));
            return None;
        }
        proof {
            assert(s.take(i + 1).drop_last() =~= s.take(i as int));
            assert(s.take(i + 1).last() == s[i as int]);
            prefix_value_is_no_more(s, i + 1);
        }
        let next: u128 = number as u128 * 10 + (b - 48) as u128;
        if next > limit as u128 {
            return None;
        }
        number = next as u64;
        i += 1;
    }
    assert(s.take(i as int) =~= s);
    Some(number)
}

/// A number as `u16` and `u32` fields write it: an optional `+`, then at least
/// one digit, nothing else, and no more than `limit`.
pub open spec fn unsigned(s: Seq<char>, limit: nat) -> Option<nat> {
    let digits = if s.len() > 0 && s[0] == '+' {
        s.skip(1)
    } else {
        s
    };
    if digits.len() > 0 && all_digits(digits) && value(digits) <= limit {
        Some(value(digits))
    } else {
        None
    }
}

/// Reads a number in the shape that [`unsigned`] describes.
pub fn read_unsigned(s: &str, limit: u64) -> (number: Option<u64>)
    ensures
        match number {
            Some(n) => unsigned(s@, limit as nat) == Some(n as nat),
            None => unsigned(s@, limit as nat) is None,
        },
{
    let bytes = match ascii_bytes(s) {
        Some(bytes) => bytes,
        None => {
            proof {
                if unsigned(s@, limit as nat) is Some {
                    numbers_are_ascii(s@, limit as nat);
                }
            }
            return None;
        },
    };
    let start: usize = if bytes.len() > 0 && bytes[0] == 43 {
        1
    } else {
        0
    };
    proof {
        if bytes@.len() > 0 {
            assert(s@[0] == chars(bytes@)[0]);
        }
        assert(s@.skip(0) =~= s@);
        assert(chars(bytes@.subrange(start as int, bytes@.len() as int)) =~= s@.skip(start as int));
    }
    if start == bytes.len() {
        return None;
    }
    read_digits(slice_subrange(bytes, start, bytes.len()), limit)
}

/// Digits and the sign are ASCII, so a number is.
proof fn numbers_are_ascii(s: Seq<char>, limit: nat)
    requires
        unsigned(s, limit) is Some,
    ensures
        vstd::utf8::is_ascii_chars(s),
{
    assert forall|i: int| 0 <= i < s.len() implies '\0' <= #[trigger] s[i] <= '\u{7f}' by {
        if s[0] == '+' {
            if i > 0 {
                assert(is_digit(s.skip(1)[i - 1]));
            }
        } else {
            assert(is_digit(s[i]));
        }
    }
}

/// The ASCII lower case of `c`. Other characters stay as they are.
pub open spec fn lower(c: char) -> char {
    if 'A' <= c && c <= 'Z' {
        (c as int + 32) as char
    } else {
        c
    }
}

/// Whether two texts differ at most in the case of ASCII letters.
pub open spec fn same_but_for_case(a: Seq<char>, b: Seq<char>) -> bool {
    &&& a.len() == b.len()
    &&& forall|i: int| 0 <= i < a.len() ==> lower(#[trigger] a[i]) == lower(b[i])
}

/// The ASCII lower case of the byte `b`.
fn lower_byte(b: u8) -> (l: u8)
    requires
        b < 128,
    ensures
        l as char == lower(b as char),
        l < 128,
{
    if 65 <= b && b <= 90 {
        b + 32
    } else {
        b
    }
}

/// Whether `s` is the ASCII text `name`, whatever the case of its letters.
pub fn eq_ignore_ascii_case(s: &str, name: &str) -> (same: bool)
    requires
        name.is_ascii(),
    ensures
        same == same_but_for_case(s@, name@),
{
    let a = match ascii_bytes(s) {
        Some(bytes) => bytes,
        None => {
            proof {
                let i = choose|i: int|
                    0 <= i < s@.len() && !('\0' <= #[trigger] s@[i] <= '\u{7f}');
                if i < name@.len() {
                    assert('\0' <= name@[i] <= '\u{7f}');
                    assert(lower(s@[i]) != lower(name@[i]));
                }
            }
            return false;
        },
    };
    let b = match ascii_bytes(name) {
        Some(bytes) => bytes,
        None => {
            return false;
        },
    };
    proof {
        assert(a@.len() == s@.len());
        assert(b@.len() == name@.len());
    }
    if a.len() != b.len() {
        return false;
    }
    let mut i: usize = 0;
    while i < a.len()
        invariant
            i <= a.len(),
            a.len() == b.len(),
            chars(a@) == s@,
            chars(b@) == name@,
            s.is_ascii(),
            name.is_ascii(),
            forall|j: int| 0 <= j < i ==> lower(#[trigger] s@[j]) == lower(name@[j]),
        decreases a.len() - i,
    {
        proof {
            assert(s@[i as int] == a@[i as int] as char);
            assert(name@[i as int] == b@[i as int] as char);
        }
        if lower_byte(a[i]) != lower_byte(b[i]) {
            assert(lower(s@[i as int]) != lower(name@[i as int]));
            return false;
        }
        i += 1;
    }
    true
}

/// Whether `c` has the Unicode property `White_Space`.
pub open spec fn is_whitespace(c: char) -> bool {
    ||| '\u{9}' <= c <= '\u{d}'
    ||| c == ' '
    ||| c == '\u{85}'
    ||| c == '\u{a0}'
    ||| c == '\u{1680}'
    ||| '\u{2000}' <= c <= '\u{200a}'
    ||| c == '\u{2028}'
    ||| c == '\u{2029}'
    ||| c == '\u{202f}'
    ||| c == '\u{205f}'
    ||| c == '\u{3000}'
}

/// `s` without the whitespace it begins with.
pub open spec fn trim_start(s: Seq<char>) -> Seq<char>
    decreases s.len(),
{
    if s.len() > 0 && is_whitespace(s[0]) {
        trim_start(s.drop_first())
    } else {
        s
    }
}

/// `s` without the whitespace it ends with.
pub open spec fn trim_end(s: Seq<char>) -> Seq<char>
    decreases s.len(),
{
    if s.len() > 0 && is_whitespace(s.last()) {
        trim_end(s.drop_last())
    } else {
        s
    }
}

/// `s` without the whitespace around it.
pub open spec fn trim(s: Seq<char>) -> Seq<char> {
    trim_end(trim_start(s))
}

/// Whether `s` is nothing but whitespace.
pub open spec fn all_whitespace(s: Seq<char>) -> bool {
    forall|i: int| 0 <= i < s.len() ==> is_whitespace(#[trigger] s[i])
}

/// Whitespace put in front of a text does not outlast trimming its start.
proof fn trim_start_drops(pad: Seq<char>, s: Seq<char>)
    requires
        all_whitespace(pad),
    ensures
        trim_start(pad + s) == trim_start(s),
    decreases pad.len(),
{
    if pad.len() == 0 {
        assert(pad + s =~= s);
    } else {
        assert((pad + s)[0] == pad[0]);
        assert((pad + s).drop_first() =~= pad.drop_first() + s);
        trim_start_drops(pad.drop_first(), s);
    }
}

/// Whitespace put behind a text does not outlast trimming its end.
proof fn trim_end_drops(s: Seq<char>, pad: Seq<char>)
    requires
        all_whitespace(pad),
    ensures
        trim_end(s + pad) == trim_end(s),
    decreases pad.len(),
{
    if pad.len() == 0 {
        assert(s + pad =~= s);
    } else {
        assert((s + pad).last() == pad.last());
        assert((s + pad).drop_last() =~= s + pad.drop_last());
        trim_end_drops(s, pad.drop_last());
    }
}

/// Whitespace put behind a text does not outlast trimming it.
proof fn trim_drops_end(s: Seq<char>, pad: Seq<char>)
    requires
        all_whitespace(pad),
    ensures
        trim(s + pad) == trim(s),
    decreases s.len(),
{
    if s.len() == 0 {
        trim_start_drops(pad, s);
        assert(s + pad =~= pad + s);
    } else {
        assert((s + pad)[0] == s[0]);
        if is_whitespace(s[0]) {
            assert((s + pad).drop_first() =~= s.drop_first() + pad);
            trim_drops_end(s.drop_first(), pad);
        } else {
            trim_end_drops(s, pad);
        }
    }
}

/// Whitespace put around a text does not outlast trimming it.
pub proof fn trim_drops_padding(left: Seq<char>, s: Seq<char>, right: Seq<char>)
    requires
        all_whitespace(left),
        all_whitespace(right),
    ensures
        trim(left + s + right) == trim(s),
{
    assert(left + s + right =~= left + (s + right));
    trim_start_drops(left, s + right);
    trim_drops_end(s, right);
}

/// How `std` shows a text in a programmer-facing way: in quotes, with what
/// cannot be shown as it is escaped.
pub uninterp spec fn debug_text(s: Seq<char>) -> Seq<char>;

/// Whether `s` is nothing but ASCII letters and digits.
pub open spec fn is_word(s: Seq<char>) -> bool {
    forall|i: int|
        0 <= i < s.len() ==> 'a' <= #[trigger] s[i] <= 'z' || 'A' <= s[i] <= 'Z' || is_digit(s[i])
}

/// `s` in quotes.
pub open spec fn in_quotes(s: Seq<char>) -> Seq<char> {
    seq!['"'] + s + seq!['"']
}

/// `<str as std::fmt::Debug>::fmt`, as a string.
///
/// Relied on: the result depends on the text alone, and letters and digits are
/// not escaped.
#[verifier::external_body]
pub(crate) fn quoted(s: &str) -> (shown: String)
    ensures
        shown@ == debug_text(s@),
        is_word(s@) ==> shown@ == in_quotes(s@),
{
    format!("{s:?}")
}

/// A run of digits is made of the characters from `0` to `9`, each of which
/// counts for its distance from `0`. With [`value_of_joined`] this fixes the
/// number that a run of digits writes.
pub proof fn a_digit_counts_for_itself(c: char)
    ensures
        is_digit(c) <==> '0' <= c <= '9',
        all_digits(seq![c]) <==> '0' <= c <= '9',
        '0' <= c <= '9' ==> value(seq![c]) == c as int - '0' as int,
        value(Seq::empty()) == 0,
{
    assert(seq![c].drop_last() =~= Seq::<char>::empty());
    if '0' <= c <= '9' {
        assert forall|i: int| 0 <= i < seq![c].len() implies is_digit(#[trigger] seq![c][i]) by {}
    } else {
        assert(!is_digit(seq![c][0]));
    }
    assert(value(seq![c]) == value(seq![c].drop_last()) * 10 + digit_value(seq![c].last()));
}

/// One run of digits behind another is a run of digits, and no other text is
/// that can be taken apart in this way.
pub proof fn digits_join_to_digits(a: Seq<char>, b: Seq<char>)
    ensures
        all_digits(Seq::empty()),
        all_digits(a + b) <==> all_digits(a) && all_digits(b),
{
    if all_digits(a + b) {
        assert forall|i: int| 0 <= i < a.len() implies is_digit(#[trigger] a[i]) by {
            assert(is_digit((a + b)[i]));
        }
        assert forall|i: int| 0 <= i < b.len() implies is_digit(#[trigger] b[i]) by {
            assert(is_digit((a + b)[a.len() + i]));
        }
    }
}

/// Shifting by a place is multiplying by ten.
pub proof fn places_are_powers_of_ten(n: nat)
    ensures
        power_of_ten(n) == vstd::arithmetic::power::pow(10, n),
    decreases n,
{
    reveal(vstd::arithmetic::power::pow);
    if n > 0 {
        places_are_powers_of_ten((n - 1) as nat);
    }
}

/// A number is written in digits that read back as the number, without leading
/// zeros. There is only one such text.
pub proof fn a_number_is_written_without_leading_zeros(n: nat)
    ensures
        all_digits(decimal(n)),
        value(decimal(n)) == n,
        decimal(n).len() > 0,
        decimal(n)[0] == '0' ==> decimal(n).len() == 1,
    decreases n,
{
    decimal_reads_back(n);
    if n >= 10 {
        a_number_is_written_without_leading_zeros(n / 10);
        assert(decimal(n)[0] == decimal(n / 10)[0]);
        if decimal(n)[0] == '0' {
            assert(decimal(n / 10).len() == 1);
            assert(decimal(n / 10) =~= seq!['0']);
            a_digit_counts_for_itself('0');
            decimal_reads_back(n / 10);
        }
    }
}

/// Digits, with or without a `+` in front, are read as the number that they
/// write if it is within the limit, leading zeros or not.
pub proof fn digits_are_read_as_their_number(digits: Seq<char>, limit: nat)
    requires
        all_digits(digits),
        digits.len() > 0,
    ensures
        value(digits) <= limit ==> unsigned(digits, limit) == Some(value(digits)),
        value(digits) <= limit ==> unsigned(seq!['+'] + digits, limit) == Some(value(digits)),
        value(digits) > limit ==> unsigned(digits, limit) is None,
        value(digits) > limit ==> unsigned(seq!['+'] + digits, limit) is None,
{
    assert(is_digit(digits[0]));
    assert((seq!['+'] + digits).skip(1) =~= digits);
}

/// Whatever is read as a number is nothing but digits, with or without a `+` in
/// front, that write exactly this number, which is within the limit.
pub proof fn what_is_read_as_a_number_writes_it(s: Seq<char>, limit: nat)
    ensures
        unsigned(s, limit) matches Some(n) ==> {
            let digits = if s[0] == '+' {
                s.skip(1)
            } else {
                s
            };
            &&& digits.len() > 0
            &&& all_digits(digits)
            &&& value(digits) == n
            &&& n <= limit
        },
{
}

/// A number that is written in base ten is read back as itself, if it is within
/// the limit.
pub proof fn a_written_number_is_read_back(n: nat, limit: nat)
    requires
        n <= limit,
    ensures
        unsigned(decimal(n), limit) == Some(n),
{
    decimal_reads_back(n);
    digits_are_read_as_their_number(decimal(n), limit);
}

/// Two texts differ at most in case exactly if they have the same characters,
/// except that one may have a capital ASCII letter where the other has the
/// small one.
pub proof fn only_the_case_of_letters_may_differ(a: Seq<char>, b: Seq<char>)
    ensures
        same_but_for_case(a, b) <==> a.len() == b.len() && forall|i: int|
            0 <= i < a.len() ==> {
                ||| #[trigger] a[i] == b[i]
                ||| 'A' <= a[i] <= 'Z' && b[i] as int == a[i] as int + 32
                ||| 'A' <= b[i] <= 'Z' && a[i] as int == b[i] as int + 32
            },
{
    if a.len() == b.len() && forall|i: int|
        0 <= i < a.len() ==> {
            ||| #[trigger] a[i] == b[i]
            ||| 'A' <= a[i] <= 'Z' && b[i] as int == a[i] as int + 32
            ||| 'A' <= b[i] <= 'Z' && a[i] as int == b[i] as int + 32
        } {
        assert forall|i: int| 0 <= i < a.len() implies lower(#[trigger] a[i]) == lower(b[i]) by {}
    }
    if same_but_for_case(a, b) {
        assert forall|i: int| 0 <= i < a.len() implies {
            ||| #[trigger] a[i] == b[i]
            ||| 'A' <= a[i] <= 'Z' && b[i] as int == a[i] as int + 32
            ||| 'A' <= b[i] <= 'Z' && a[i] as int == b[i] as int + 32
        } by {
            assert(lower(a[i]) == lower(b[i]));
        }
    }
}

/// What trimming a start leaves is the text behind whitespace, and does not
/// start with any.
proof fn what_trimming_a_start_leaves(s: Seq<char>)
    ensures
        trim_start(s).len() <= s.len(),
        trim_start(s) == s.skip(s.len() - trim_start(s).len()),
        all_whitespace(s.take(s.len() - trim_start(s).len())),
        trim_start(s).len() > 0 ==> !is_whitespace(trim_start(s)[0]),
    decreases s.len(),
{
    if s.len() > 0 && is_whitespace(s[0]) {
        let rest = s.drop_first();
        what_trimming_a_start_leaves(rest);
        let cut = s.len() - trim_start(s).len();
        assert(s.skip(cut) =~= rest.skip(cut - 1));
        assert forall|i: int| 0 <= i < cut implies is_whitespace(#[trigger] s.take(cut)[i]) by {
            if i > 0 {
                assert(s.take(cut)[i] == rest.take(cut - 1)[i - 1]);
            }
        }
    } else {
        assert(s.skip(0) =~= s);
    }
}

/// What trimming an end leaves is the text before whitespace, and does not end
/// with any.
proof fn what_trimming_an_end_leaves(s: Seq<char>)
    ensures
        trim_end(s).len() <= s.len(),
        trim_end(s) == s.take(trim_end(s).len() as int),
        all_whitespace(s.skip(trim_end(s).len() as int)),
        trim_end(s).len() > 0 ==> !is_whitespace(trim_end(s).last()),
    decreases s.len(),
{
    if s.len() > 0 && is_whitespace(s.last()) {
        let rest = s.drop_last();
        what_trimming_an_end_leaves(rest);
        let kept = trim_end(s).len() as int;
        assert(s.take(kept) =~= rest.take(kept));
        assert forall|i: int| 0 <= i < s.len() - kept implies is_whitespace(
            #[trigger] s.skip(kept)[i],
        ) by {
            if i < s.len() - kept - 1 {
                assert(s.skip(kept)[i] == rest.skip(kept)[i]);
            }
        }
    } else {
        assert(s.take(s.len() as int) =~= s);
    }
}

/// Trimming takes whitespace from both sides, all of it, and nothing else.
pub proof fn trimming_takes_only_whitespace(s: Seq<char>)
    ensures
        exists|left: Seq<char>, right: Seq<char>| #[trigger]
            all_whitespace(left) && #[trigger] all_whitespace(right) && s == left + trim(s) + right,
        trim(s).len() > 0 ==> !is_whitespace(trim(s)[0]) && !is_whitespace(trim(s).last()),
{
    let started = trim_start(s);
    what_trimming_a_start_leaves(s);
    what_trimming_an_end_leaves(started);
    let left = s.take(s.len() - started.len());
    let right = started.skip(trim(s).len() as int);
    assert(s =~= left + trim(s) + right);
    assert(all_whitespace(left) && all_whitespace(right));
}

} // verus!
