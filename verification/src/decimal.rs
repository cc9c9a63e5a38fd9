//! Decimal strings of the wire as fixed-point integers.
//!
//! A price or a quantity is held as a whole number of units of `10^-8`, so
//! that equal decimals are equal keys and nothing is rounded.

use vstd::prelude::*;
use vstd::string::StringSliceAdditionalSpecFns;

verus! {

/// The number of decimal places that a fixed-point unit stands for.
pub const SCALE_DIGITS: usize = 8;

/// The number one in fixed-point units.
pub const ONE: u64 = 100_000_000;

/// The ASCII code of the decimal point.
pub const POINT: u8 = 46;

/// The ASCII code of the digit zero.
pub const DIGIT_ZERO: u8 = 48;

/// The ASCII code of the digit nine.
pub const DIGIT_NINE: u8 = 57;

/// The byte is an ASCII digit.
pub open spec fn is_digit(byte: u8) -> bool {
    DIGIT_ZERO <= byte <= DIGIT_NINE
}

/// The number that an ASCII digit stands for; zero for any other byte.
pub open spec fn digit_value(byte: u8) -> nat {
    if is_digit(byte) {
        (byte - DIGIT_ZERO) as nat
    } else {
        0
    }
}

/// Every byte is an ASCII digit.
pub open spec fn all_digits(text: Seq<u8>) -> bool {
    forall|i: int| 0 <= i < text.len() ==> is_digit(#[trigger] text[i])
}

/// The number that a run of digits spells in base ten.
pub open spec fn digits_value(digits: Seq<u8>) -> nat
    decreases digits.len(),
{
    if digits.len() == 0 {
        0
    } else {
        digits_value(digits.drop_last()) * 10 + digit_value(digits.last())
    }
}

/// Ten to the power `exponent`.
pub open spec fn pow10(exponent: nat) -> nat
    decreases exponent,
{
    if exponent == 0 {
        1
    } else {
        10 * pow10((exponent - 1) as nat)
    }
}

/// The index of the first decimal point in `text`, or its length if there is none.
pub open spec fn point_position(text: Seq<u8>) -> int
    decreases text.len(),
{
    if text.len() == 0 {
        0
    } else if text[0] == POINT {
        0
    } else {
        1 + point_position(text.drop_first())
    }
}

/// The digits before the decimal point.
pub open spec fn whole_part(text: Seq<u8>) -> Seq<u8> {
    text.subrange(0, point_position(text))
}

/// The digits after the decimal point; empty if there is no point.
pub open spec fn fraction_part(text: Seq<u8>) -> Seq<u8> {
    if point_position(text) < text.len() {
        text.subrange(point_position(text) + 1, text.len() as int)
    } else {
        Seq::empty()
    }
}

/// `text` is one or more digits, optionally followed by a point and one to
/// eight more digits.
pub open spec fn is_decimal(text: Seq<u8>) -> bool {
    &&& whole_part(text).len() >= 1
    &&& all_digits(whole_part(text))
    &&& all_digits(fraction_part(text))
    &&& fraction_part(text).len() <= SCALE_DIGITS
    &&& point_position(text) < text.len() ==> fraction_part(text).len() >= 1
}

/// The value of a decimal in units of `10^-8`.
pub open spec fn scaled_value(text: Seq<u8>) -> nat {
    digits_value(whole_part(text) + fraction_part(text)) * pow10(
        (SCALE_DIGITS - fraction_part(text).len()) as nat,
    )
}

/// The fixed-point value of `text`, if it is a decimal whose value fits.
pub open spec fn decimal_units(text: Seq<u8>) -> Option<u64> {
    if is_decimal(text) && scaled_value(text) <= u64::MAX {
        Some(scaled_value(text) as u64)
    } else {
        None
    }
}

/// Up to its first point, a text holds no point.
pub proof fn lemma_point_position(text: Seq<u8>)
    ensures
        0 <= point_position(text) <= text.len(),
        forall|i: int| 0 <= i < point_position(text) ==> text[i] != POINT,
        point_position(text) < text.len() ==> text[point_position(text)] == POINT,
    decreases text.len(),
{
    if text.len() > 0 && text[0] != POINT {
        let rest = text.drop_first();
        lemma_point_position(rest);
        assert forall|i: int| 0 <= i < point_position(text) implies text[i] != POINT by {
            if i > 0 {
                assert(rest[i - 1] == text[i]);
            }
        }
        assert(point_position(text) < text.len() ==> rest[point_position(rest)]
            == text[point_position(text)]);
    }
}

/// The first index that holds a point, or the length, is the point position.
proof fn lemma_point_position_is(text: Seq<u8>, at: int)
    requires
        0 <= at <= text.len(),
        forall|i: int| 0 <= i < at ==> text[i] != POINT,
        at < text.len() ==> text[at] == POINT,
    ensures
        point_position(text) == at,
{
    lemma_point_position(text);
    let found = point_position(text);
    if found < at {
        assert(text[found] != POINT);
    }
}

/// Appending a byte to a run of digits shifts its value by one place.
proof fn lemma_digits_value_push(digits: Seq<u8>, byte: u8)
    ensures
        digits_value(digits.push(byte)) == digits_value(digits) * 10 + digit_value(byte),
{
    assert(digits.push(byte).drop_last() =~= digits);
}

/// A run of digits is worth at least as much as any run it starts with.
proof fn lemma_digits_value_prefix(digits: Seq<u8>, upto: int)
    requires
        0 <= upto <= digits.len(),
    ensures
        digits_value(digits.take(upto)) <= digits_value(digits),
    decreases digits.len(),
{
    if upto == digits.len() {
        assert(digits.take(upto) =~= digits);
    } else {
        lemma_digits_value_prefix(digits.drop_last(), upto);
        assert(digits.drop_last().take(upto) =~= digits.take(upto));
    }
}

/// A power of ten is at least one.
proof fn lemma_pow10_positive(exponent: nat)
    ensures
        pow10(exponent) >= 1,
    decreases exponent,
{
    if exponent > 0 {
        lemma_pow10_positive((exponent - 1) as nat);
    }
}

/// If a run that the digits of `text` start with is already worth more than
/// fits, `text` has no fixed-point value.
proof fn lemma_too_large(text: Seq<u8>, upto: int)
    requires
        0 <= upto <= (whole_part(text) + fraction_part(text)).len(),
        digits_value((whole_part(text) + fraction_part(text)).take(upto)) > u64::MAX,
    ensures
        decimal_units(text) is None,
{
    let digits = whole_part(text) + fraction_part(text);
    let exponent = (SCALE_DIGITS - fraction_part(text).len()) as nat;
    lemma_digits_value_prefix(digits, upto);
    lemma_pow10_positive(exponent);
    assert(digits_value(digits) * pow10(exponent) >= digits_value(digits)) by (nonlinear_arith)
        requires
            pow10(exponent) >= 1,
    ;
}

/// Ten to the power `exponent`, for the exponents that the scale needs.
fn power_of_ten(exponent: usize) -> (power: u64)
    requires
        exponent <= SCALE_DIGITS,
    ensures
        power == pow10(exponent as nat),
{
    let mut power: u64 = 1;
    let mut done: usize = 0;
    proof {
        reveal_with_fuel(pow10, 9);
        lemma_pow10_positive(8);
    }
    while done < exponent
        invariant
            done <= exponent <= SCALE_DIGITS,
            power == pow10(done as nat),
            power <= pow10(8) == 100_000_000,
        decreases exponent - done,
    {
        proof {
            lemma_pow10_step(done as nat, 8);
            lemma_pow10_step(done as nat, (done + 1) as nat);
        }
        power = power * 10;
        done += 1;
    }
    power
}

/// Powers of ten grow with the exponent.
proof fn lemma_pow10_step(lower: nat, upper: nat)
    requires
        lower < upper,
    ensures
        10 * pow10(lower) <= pow10(upper),
    decreases upper,
{
    if lower + 1 < upper {
        lemma_pow10_step(lower, (upper - 1) as nat);
    }
}

/// The number that `value` becomes when the digit `byte` is written behind
/// it, if that fits.
fn append_digit(value: u64, byte: u8) -> (longer: Option<u64>)
    requires
        is_digit(byte),
    ensures
        match longer {
            Some(number) => number == value * 10 + digit_value(byte),
            None => value * 10 + digit_value(byte) > u64::MAX,
        },
{
    match value.checked_mul(10) {
        Some(shifted) => shifted.checked_add((byte - DIGIT_ZERO) as u64),
        None => None,
    }
}

/// Reads a decimal from `bytes` as a whole number of units of `10^-8`.
///
/// The text must be one or more ASCII digits, optionally followed by a point
/// and one to eight more digits, and its value must fit: anything else has no
/// fixed-point value.
pub fn parse_decimal_bytes(bytes: &[u8]) -> (units: Option<u64>)
    ensures
        units == decimal_units(bytes@),
{
    let ghost text = bytes@;
    let n = bytes.len();
    let mut value: u64 = 0;
    let mut at: usize = 0;
    proof {
        lemma_point_position(text);
        assert(text.take(0) =~= Seq::<u8>::empty());
    }
    while at < n && bytes[at] != POINT
        invariant
            n == text.len(),
            text == bytes@,
            at <= n,
            at <= point_position(text),
            forall|i: int| 0 <= i < at ==> is_digit(#[trigger] text[i]),
            value == digits_value(text.take(at as int)),
        decreases n - at,
    {
        let byte = bytes[at];
        proof {
            lemma_point_position(text);
            lemma_digits_value_push(text.take(at as int), byte);
            assert(text.take(at as int).push(byte) =~= text.take(at + 1));
            assert(at < point_position(text));
            assert(whole_part(text)[at as int] == byte);
            assert((whole_part(text) + fraction_part(text)).take(at + 1) =~= text.take(at + 1));
        }
        if byte < DIGIT_ZERO || byte > DIGIT_NINE {
            return None;
        }
        value = match append_digit(value, byte) {
            Some(longer) => longer,
            None => {
                proof {
                    lemma_too_large(text, at + 1);
                }
                return None;
            },
        };
        at += 1;
    }
    proof {
        lemma_point_position_is(text, at as int);
        assert(whole_part(text) =~= text.take(at as int));
    }
    if at == 0 {
        return None;
    }
    let whole = at;
    let mut places: usize = 0;
    if at < n {
        at += 1;
        if n - at == 0 || n - at > SCALE_DIGITS {
            return None;
        }
        proof {
            assert(fraction_part(text).take(0) =~= Seq::<u8>::empty());
            assert(whole_part(text) + Seq::<u8>::empty() =~= whole_part(text));
        }
        while at < n
            invariant
                n == text.len(),
                text == bytes@,
                whole == point_position(text),
                whole < n,
                at == whole + 1 + places,
                at <= n,
                n - (whole + 1) <= SCALE_DIGITS,
                forall|i: int| 0 <= i < places ==> is_digit(#[trigger] fraction_part(text)[i]),
                value == digits_value(whole_part(text) + fraction_part(text).take(places as int)),
            decreases n - at,
        {
            let byte = bytes[at];
            proof {
                let sofar = whole_part(text) + fraction_part(text).take(places as int);
                lemma_digits_value_push(sofar, byte);
                assert(fraction_part(text)[places as int] == byte);
                assert(sofar.push(byte) =~= whole_part(text) + fraction_part(text).take(
                    places + 1,
                ));
                assert((whole_part(text) + fraction_part(text)).take(whole + places + 1)
                    =~= sofar.push(byte));
            }
            if byte < DIGIT_ZERO || byte > DIGIT_NINE {
                return None;
            }
            value = match append_digit(value, byte) {
                Some(longer) => longer,
                None => {
                    proof {
                        lemma_too_large(text, whole + places + 1);
                    }
                    return None;
                },
            };
            at += 1;
            places += 1;
        }
        proof {
            assert(fraction_part(text).take(places as int) =~= fraction_part(text));
        }
    } else {
        proof {
            assert(whole_part(text) + fraction_part(text) =~= whole_part(text));
        }
    }
    let scale = power_of_ten(SCALE_DIGITS - places);
    value.checked_mul(scale)
}

/// The `width` lowest base-ten digits of `value` as ASCII, the highest first.
pub open spec fn digits_of(value: nat, width: nat) -> Seq<u8>
    decreases width,
{
    if width == 0 {
        Seq::empty()
    } else {
        digits_of(value / 10, (width - 1) as nat).push((DIGIT_ZERO + value % 10) as u8)
    }
}

/// The number of base-ten digits that `value` takes.
pub open spec fn digit_count(value: nat) -> nat
    decreases value,
{
    if value < 10 {
        1
    } else {
        1 + digit_count(value / 10)
    }
}

/// A fraction of `places` digits without its trailing zeros: the digits that
/// are left, as a number, and how many places they take.
pub open spec fn trim_fraction(fraction: nat, places: nat) -> (nat, nat)
    decreases places,
{
    if places == 0 || fraction % 10 != 0 {
        (fraction, places)
    } else {
        trim_fraction(fraction / 10, (places - 1) as nat)
    }
}

/// The shortest decimal that spells `units`: the whole part without leading
/// zeros, and the fraction, if it is not zero, without trailing zeros.
pub open spec fn decimal_text(units: u64) -> Seq<u8> {
    let whole = (units / ONE) as nat;
    let fraction = (units % ONE) as nat;
    let head = digits_of(whole, digit_count(whole));
    if fraction == 0 {
        head
    } else {
        head + seq![POINT] + digits_of(
            trim_fraction(fraction, SCALE_DIGITS as nat).0,
            trim_fraction(fraction, SCALE_DIGITS as nat).1,
        )
    }
}

/// `digits_of` gives as many bytes as asked for, all of them digits.
pub proof fn lemma_digits_of_shape(value: nat, width: nat)
    ensures
        digits_of(value, width).len() == width,
        all_digits(digits_of(value, width)),
    decreases width,
{
    if width > 0 {
        lemma_digits_of_shape(value / 10, (width - 1) as nat);
    }
}

/// The digits of a number that fits into them spell that number.
pub proof fn lemma_digits_of_value(value: nat, width: nat)
    requires
        value < pow10(width),
    ensures
        digits_value(digits_of(value, width)) == value,
    decreases width,
{
    if width > 0 {
        let shorter = digits_of(value / 10, (width - 1) as nat);
        lemma_digits_of_value(value / 10, (width - 1) as nat);
        lemma_digits_value_push(shorter, (DIGIT_ZERO + value % 10) as u8);
    }
}

/// A number fits into as many digits as it takes.
pub proof fn lemma_digit_count(value: nat)
    ensures
        digit_count(value) >= 1,
        value < pow10(digit_count(value)),
    decreases value,
{
    if value >= 10 {
        lemma_digit_count(value / 10);
    } else {
        reveal_with_fuel(pow10, 2);
    }
}

/// The value of two runs of digits joined: the first shifted by the length
/// of the second, plus the second.
pub proof fn lemma_digits_value_joined(first: Seq<u8>, second: Seq<u8>)
    ensures
        digits_value(first + second) == digits_value(first) * pow10(second.len()) + digits_value(
            second,
        ),
    decreases second.len(),
{
    if second.len() == 0 {
        assert(first + second =~= first);
        assert(pow10(0) == 1);
        assert(digits_value(first) * 1 == digits_value(first));
    } else {
        let shorter = second.drop_last();
        lemma_digits_value_joined(first, shorter);
        assert((first + second).drop_last() =~= first + shorter);
        assert((first + second).last() == second.last());
        let high = digits_value(first);
        let scale = pow10(shorter.len());
        let low = digits_value(shorter);
        let digit = digit_value(second.last());
        assert(digits_value(first + second) == (high * scale + low) * 10 + digit);
        assert(pow10(second.len()) == 10 * scale);
        assert(digits_value(second) == low * 10 + digit);
        assert((high * scale + low) * 10 + digit == high * (10 * scale) + (low * 10 + digit))
            by (nonlinear_arith);
        assert(high * pow10(second.len()) == high * (10 * scale));
    }
}

/// What trimming leaves of a fraction that is not zero: at least one place,
/// digits that fit into the places left, and the fraction itself once the
/// trimmed zeros are put back.
pub proof fn lemma_trim_fraction(fraction: nat, places: nat)
    requires
        0 < fraction < pow10(places),
    ensures
        1 <= trim_fraction(fraction, places).1 <= places,
        trim_fraction(fraction, places).0 < pow10(trim_fraction(fraction, places).1),
        trim_fraction(fraction, places).0 * pow10(
            (places - trim_fraction(fraction, places).1) as nat,
        ) == fraction,
    decreases places,
{
    if places > 0 && fraction % 10 == 0 {
        let (rest, kept) = trim_fraction(fraction / 10, (places - 1) as nat);
        lemma_trim_fraction(fraction / 10, (places - 1) as nat);
        let scale = pow10((places - 1 - kept) as nat);
        assert(pow10((places - kept) as nat) == 10 * scale);
        assert(rest * (10 * scale) == (rest * scale) * 10) by (nonlinear_arith);
    } else {
        assert(pow10(0) == 1);
        assert(fraction * 1 == fraction);
    }
}

/// The decimal that spells a value reads back as that value.
pub proof fn lemma_decimal_text_reads_back(units: u64)
    ensures
        decimal_units(decimal_text(units)) == Some(units),
{
    let whole = (units / ONE) as nat;
    let fraction = (units % ONE) as nat;
    let head = digits_of(whole, digit_count(whole));
    let text = decimal_text(units);
    reveal_with_fuel(pow10, 9);
    assert(pow10(8) == ONE);
    assert(units == whole * ONE + fraction);
    lemma_digit_count(whole);
    lemma_digits_of_shape(whole, digit_count(whole));
    lemma_digits_of_value(whole, digit_count(whole));
    if fraction == 0 {
        assert(text == head);
        lemma_point_position_is(text, text.len() as int);
        assert(whole_part(text) =~= head);
        assert(fraction_part(text) =~= Seq::<u8>::empty());
        assert(whole_part(text) + fraction_part(text) =~= head);
        assert(is_decimal(text));
        assert(scaled_value(text) == whole * pow10(8));
    } else {
        let (rest, kept) = trim_fraction(fraction, SCALE_DIGITS as nat);
        let tail = digits_of(rest, kept);
        lemma_trim_fraction(fraction, SCALE_DIGITS as nat);
        lemma_digits_of_shape(rest, kept);
        lemma_digits_of_value(rest, kept);
        assert(text == head + seq![POINT] + tail);
        assert(text[head.len() as int] == POINT);
        assert forall|i: int| 0 <= i < head.len() implies text[i] != POINT by {
            assert(text[i] == head[i]);
        }
        lemma_point_position_is(text, head.len() as int);
        assert(whole_part(text) =~= head);
        assert(fraction_part(text) =~= tail);
        assert(is_decimal(text));
        lemma_digits_value_joined(head, tail);
        let scale = pow10((SCALE_DIGITS - kept) as nat);
        lemma_pow10_sum(kept, (SCALE_DIGITS - kept) as nat);
        assert(pow10(kept) * scale == ONE);
        assert(digits_value(head + tail) == whole * pow10(kept) + rest);
        assert((whole * pow10(kept) + rest) * scale == whole * (pow10(kept) * scale) + rest * scale)
            by (nonlinear_arith);
        assert(scaled_value(text) == whole * ONE + fraction);
    }
}

/// Powers of ten multiply by adding their exponents.
pub proof fn lemma_pow10_sum(left: nat, right: nat)
    ensures
        pow10(left) * pow10(right) == pow10(left + right),
    decreases left,
{
    if left > 0 {
        let lower = pow10((left - 1) as nat);
        lemma_pow10_sum((left - 1) as nat, right);
        assert(pow10(left) == 10 * lower);
        assert(pow10(left + right) == 10 * pow10((left - 1 + right) as nat));
        assert((10 * lower) * pow10(right) == 10 * (lower * pow10(right))) by (nonlinear_arith);
    } else {
        assert(pow10(0) == 1);
        assert(1 * pow10(right) == pow10(right));
    }
}

/// Appends the `width` lowest base-ten digits of `value`, the highest first.
fn push_digits(text: &mut Vec<u8>, value: u64, width: usize)
    ensures
        final(text)@ == old(text)@ + digits_of(value as nat, width as nat),
    decreases width,
{
    if width > 0 {
        push_digits(text, value / 10, width - 1);
        text.push(DIGIT_ZERO + (value % 10) as u8);
        assert(text@ =~= old(text)@ + digits_of(value as nat, width as nat));
    } else {
        assert(text@ =~= old(text)@ + digits_of(value as nat, width as nat));
    }
}

/// Counts the base-ten digits that `value` takes.
fn count_digits(value: u64) -> (count: usize)
    ensures
        count == digit_count(value as nat),
        1 <= count <= 20,
    decreases value,
{
    if value < 10 {
        1
    } else {
        let shorter = count_digits(value / 10);
        proof {
            lemma_digit_count_bound(value as nat);
        }
        shorter + 1
    }
}

/// A number below `2^64` takes at most twenty digits.
proof fn lemma_digit_count_bound(value: nat)
    requires
        value <= u64::MAX,
    ensures
        digit_count(value) <= 20,
{
    reveal_with_fuel(digit_count, 21);
}

/// Writes `units` as the shortest decimal that spells it, in ASCII: the
/// whole part without leading zeros, and the fraction, if it is not zero,
/// without trailing zeros. Reading the text back gives `units`.
pub fn format_decimal(units: u64) -> (text: Vec<u8>)
    ensures
        text@ == decimal_text(units),
        decimal_units(text@) == Some(units),
{
    proof {
        lemma_decimal_text_reads_back(units);
    }
    let whole = units / ONE;
    let fraction = units % ONE;
    let mut text: Vec<u8> = Vec::new();
    push_digits(&mut text, whole, count_digits(whole));
    assert(text@ =~= digits_of(whole as nat, digit_count(whole as nat)));
    if fraction != 0 {
        let mut rest: u64 = fraction;
        let mut places: usize = SCALE_DIGITS;
        while rest % 10 == 0 && places > 0
            invariant
                places <= SCALE_DIGITS,
                trim_fraction(rest as nat, places as nat) == trim_fraction(
                    fraction as nat,
                    SCALE_DIGITS as nat,
                ),
            decreases places,
        {
            rest = rest / 10;
            places -= 1;
        }
        text.push(POINT);
        push_digits(&mut text, rest, places);
    }
    text
}

/// Reads a decimal from `text` as a whole number of units of `10^-8`.
pub fn parse_decimal(text: &str) -> (units: Option<u64>)
    ensures
        units == decimal_units(text.spec_bytes()),
{
    parse_decimal_bytes(text.as_bytes())
}

} // verus!
