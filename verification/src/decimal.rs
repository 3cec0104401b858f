//! Decimal numerals: their exact values and the ranges they fall in.

use vstd::arithmetic::power::{lemma_pow_adds, lemma_pow_positive, pow};
use vstd::prelude::*;

verus! {

/// The smallest magnitude that rounds beyond the largest finite IEEE 754 single: 2^128 - 2^103.
pub const FLOAT32_LIMIT: &'static str = "340282356779733661637539395458142568448";

/// The smallest magnitude that rounds beyond the largest finite IEEE 754 double: 2^1024 - 2^970.
pub const FLOAT64_LIMIT: &'static str = "179769313486231580793728971405303415079934132710037826936173778980444968292764750946649017977587207096330286416692887910946555547851940402630657488671505820681908902000708383676273854845817711531764475730270069855571366959622842914819860834936475292719074168444365510704342711559699508093042880177904174497792";

/// An exponent beyond this decides by its sign whether a nonzero number is below a limit.
const EXPONENT_BOUND: i128 = 1_000_000_000_000_000_000_000_000_000_000;

pub open spec fn is_digit(byte: u8) -> bool {
    48 <= byte <= 57
}

/// Where the run of digits that starts at `at` ends.
pub open spec fn digits_end(bytes: Seq<u8>, at: int) -> int
    decreases bytes.len() - at,
{
    if 0 <= at < bytes.len() && is_digit(bytes[at]) {
        digits_end(bytes, at + 1)
    } else {
        at
    }
}

/// The digits that bytes spell.
pub open spec fn byte_digits(bytes: Seq<u8>) -> Seq<nat> {
    Seq::new(bytes.len(), |i: int| (bytes[i] - 48) as nat)
}

/// The number that digits denote.
pub open spec fn digits_value(digits: Seq<nat>) -> nat
    decreases digits.len(),
{
    if digits.len() == 0 {
        0
    } else {
        digits_value(digits.drop_last()) * 10 + digits.last()
    }
}

pub open spec fn decimal_digits(digits: Seq<nat>) -> bool {
    forall|i: int| 0 <= i < digits.len() ==> #[trigger] digits[i] <= 9
}

pub open spec fn ten_to(exponent: nat) -> nat {
    pow(10, exponent) as nat
}

/// The digit of a character, zero for one that is no digit.
pub open spec fn char_digit(c: char) -> nat {
    match c {
        '1' => 1,
        '2' => 2,
        '3' => 3,
        '4' => 4,
        '5' => 5,
        '6' => 6,
        '7' => 7,
        '8' => 8,
        '9' => 9,
        _ => 0,
    }
}

/// The digits that characters spell.
pub open spec fn char_digits(text: Seq<char>) -> Seq<nat> {
    Seq::new(text.len(), |i: int| char_digit(text[i]))
}

/// The integer that a numeral of an optional minus sign and digits denotes.
pub open spec fn integer_of(bytes: Seq<u8>) -> Option<int> {
    let start: int = if bytes.len() > 0 && bytes[0] == 45 {
        1
    } else {
        0
    };
    let end = digits_end(bytes, start);
    if end == start || end != bytes.len() {
        None
    } else {
        let magnitude = digits_value(byte_digits(bytes.subrange(start, end)));
        if start == 1 {
            Some(-(magnitude as int))
        } else {
            Some(magnitude as int)
        }
    }
}

/// A decimal number: its digits, and the power of ten that they are multiplied by.
#[verifier::ext_equal]
pub struct DecimalView {
    pub digits: Seq<nat>,
    pub scale: int,
}

impl DecimalView {
    /// Whether the number without its sign is below `limit`.
    pub open spec fn below(self, limit: nat) -> bool {
        if self.scale >= 0 {
            digits_value(self.digits) * ten_to(self.scale as nat) < limit
        } else {
            digits_value(self.digits) < limit * ten_to((-self.scale) as nat)
        }
    }
}

/// The exponent that starts at `at` and reaches to the end.
pub open spec fn exponent_of(bytes: Seq<u8>, at: int) -> Option<int> {
    if at == bytes.len() {
        Some(0)
    } else if bytes[at] != 101 && bytes[at] != 69 {
        None
    } else {
        let signed = at + 1 < bytes.len() && (bytes[at + 1] == 43 || bytes[at + 1] == 45);
        let start = if signed {
            at + 2
        } else {
            at + 1
        };
        let end = digits_end(bytes, start);
        if end == start || end != bytes.len() {
            None
        } else {
            let magnitude = digits_value(byte_digits(bytes.subrange(start, end)));
            if signed && bytes[at + 1] == 45 {
                Some(-(magnitude as int))
            } else {
                Some(magnitude as int)
            }
        }
    }
}

/// Where the whole part of a numeral starts: behind its sign.
pub open spec fn whole_start(bytes: Seq<u8>) -> int {
    if bytes.len() > 0 && bytes[0] == 45 {
        1
    } else {
        0
    }
}

/// Where the fraction of a numeral ends, if the numeral is well formed up to there.
pub open spec fn fraction_end(bytes: Seq<u8>, whole_end: int) -> Option<int> {
    if whole_end < bytes.len() && bytes[whole_end] == 46 {
        let end = digits_end(bytes, whole_end + 1);
        if end == whole_end + 1 {
            None
        } else {
            Some(end)
        }
    } else {
        Some(whole_end)
    }
}

/// The digits of the fraction between the end of the whole part and its own end.
pub open spec fn fraction_digits(bytes: Seq<u8>, whole_end: int, end: int) -> Seq<nat> {
    if end == whole_end {
        Seq::empty()
    } else {
        byte_digits(bytes.subrange(whole_end + 1, end))
    }
}

/// The number, without its sign, that a decimal numeral denotes.
pub open spec fn decimal_of(bytes: Seq<u8>) -> Option<DecimalView> {
    let start = whole_start(bytes);
    let whole_end = digits_end(bytes, start);
    if whole_end == start {
        None
    } else {
        match fraction_end(bytes, whole_end) {
            None => None,
            Some(end) => match exponent_of(bytes, end) {
                None => None,
                Some(exponent) => {
                    let fraction = fraction_digits(bytes, whole_end, end);
                    Some(
                        DecimalView {
                            digits: byte_digits(bytes.subrange(start, whole_end)) + fraction,
                            scale: exponent - fraction.len(),
                        },
                    )
                },
            },
        }
    }
}

/// Whether a numeral denotes a number whose magnitude is below the limit that `limit` spells.
pub open spec fn decimal_below(bytes: Seq<u8>, limit: Seq<char>) -> bool {
    decimal_of(bytes) matches Some(number) && number.below(digits_value(char_digits(limit)))
}

proof fn lemma_digits_end(bytes: Seq<u8>, at: int)
    requires
        0 <= at <= bytes.len(),
    ensures
        at <= digits_end(bytes, at) <= bytes.len(),
        forall|i: int| at <= i < digits_end(bytes, at) ==> is_digit(#[trigger] bytes[i]),
        digits_end(bytes, at) < bytes.len() ==> !is_digit(bytes[digits_end(bytes, at)]),
    decreases bytes.len() - at,
{
    if at < bytes.len() && is_digit(bytes[at]) {
        lemma_digits_end(bytes, at + 1);
    }
}

proof fn lemma_ten_to(exponent: nat)
    ensures
        ten_to(exponent) > 0,
        ten_to(0) == 1,
        ten_to(exponent + 1) == 10 * ten_to(exponent),
{
    lemma_pow_positive(10, exponent);
    vstd::arithmetic::power::lemma_pow0(10);
    vstd::arithmetic::power::lemma_pow1(10);
    lemma_pow_adds(10, 1, exponent);
    assert(1 + exponent == exponent + 1);
}

proof fn lemma_ten_to_adds(left: nat, right: nat)
    ensures
        ten_to(left) * ten_to(right) == ten_to(left + right),
{
    lemma_pow_adds(10, left, right);
    lemma_pow_positive(10, left);
    lemma_pow_positive(10, right);
    lemma_pow_positive(10, left + right);
}

proof fn lemma_ten_to_monotonic(low: nat, high: nat)
    requires
        low <= high,
    ensures
        ten_to(low) <= ten_to(high),
    decreases high,
{
    if low < high {
        lemma_ten_to_monotonic(low, (high - 1) as nat);
        lemma_ten_to((high - 1) as nat);
    }
}

/// The value of a number lies between those of its leading digits, shifted, and their successor.
proof fn lemma_leading_digits(digits: Seq<nat>, count: int)
    requires
        decimal_digits(digits),
        0 <= count <= digits.len(),
    ensures
        digits_value(digits.subrange(0, count)) * ten_to((digits.len() - count) as nat)
            <= digits_value(digits) < (digits_value(digits.subrange(0, count)) + 1) * ten_to(
            (digits.len() - count) as nat,
        ),
    decreases digits.len() - count,
{
    lemma_ten_to(0);
    if count == digits.len() {
        assert(digits.subrange(0, count) =~= digits);
        let v = digits_value(digits);
        assert(v * 1 == v && (v + 1) * 1 == v + 1);
    } else {
        let shorter = digits.drop_last();
        lemma_leading_digits(shorter, count);
        assert(shorter.subrange(0, count) =~= digits.subrange(0, count));
        let lead = digits_value(digits.subrange(0, count));
        let rest = ten_to((digits.len() - count - 1) as nat);
        lemma_ten_to((digits.len() - count - 1) as nat);
        let v = digits_value(shorter);
        let last = digits.last();
        assert(ten_to((digits.len() - count) as nat) == 10 * rest);
        assert(lead * (10 * rest) <= v * 10 + last) by (nonlinear_arith)
            requires
                lead * rest <= v,
                last >= 0,
        ;
        assert(v * 10 + last < (lead + 1) * (10 * rest)) by (nonlinear_arith)
            requires
                v + 1 <= (lead + 1) * rest,
                last <= 9,
        ;
    }
}

/// Leading zeros do not change a value.
proof fn lemma_leading_zeros(digits: Seq<nat>, zeros: int)
    requires
        0 <= zeros <= digits.len(),
        forall|i: int| 0 <= i < zeros ==> #[trigger] digits[i] == 0,
    ensures
        digits_value(digits) == digits_value(digits.subrange(zeros, digits.len() as int)),
    decreases digits.len(),
{
    if zeros == digits.len() {
        if digits.len() > 0 {
            lemma_leading_zeros(digits.drop_last(), zeros - 1);
            assert(digits.drop_last().subrange(zeros - 1, digits.len() - 1) =~= Seq::empty());
        }
        assert(digits.subrange(zeros, digits.len() as int) =~= Seq::empty());
    } else {
        lemma_leading_zeros(digits.drop_last(), zeros);
        let tail = digits.subrange(zeros, digits.len() as int);
        assert(tail.drop_last() =~= digits.drop_last().subrange(zeros, digits.len() - 1));
    }
}

/// A trailing run of zeros multiplies a value by a power of ten.
proof fn lemma_padded(digits: Seq<nat>, zeros: nat)
    ensures
        digits_value(digits + Seq::new(zeros, |i: int| 0nat)) == digits_value(digits) * ten_to(
            zeros,
        ),
    decreases zeros,
{
    let padded = digits + Seq::new(zeros, |i: int| 0nat);
    lemma_ten_to(0);
    if zeros == 0 {
        assert(padded =~= digits);
        assert(digits_value(digits) * 1 == digits_value(digits));
    } else {
        let fewer = (zeros - 1) as nat;
        lemma_padded(digits, fewer);
        lemma_ten_to(fewer);
        assert(padded.drop_last() =~= digits + Seq::new(fewer, |i: int| 0nat));
        let v = digits_value(digits);
        let t = ten_to(fewer);
        assert((v * t) * 10 == v * (10 * t)) by (nonlinear_arith);
    }
}

/// Numbers of equally many digits are ordered by the first digit in which they differ.
proof fn lemma_first_difference(left: Seq<nat>, right: Seq<nat>, at: int)
    requires
        decimal_digits(left),
        decimal_digits(right),
        left.len() == right.len(),
        0 <= at < left.len(),
        left.subrange(0, at) == right.subrange(0, at),
        left[at] < right[at],
    ensures
        digits_value(left) < digits_value(right),
{
    lemma_leading_digits(left, at + 1);
    lemma_leading_digits(right, at + 1);
    let l = left.subrange(0, at + 1);
    let r = right.subrange(0, at + 1);
    assert(l.drop_last() =~= left.subrange(0, at));
    assert(r.drop_last() =~= right.subrange(0, at));
    let rest = ten_to((left.len() - at - 1) as nat);
    let a = digits_value(l);
    let b = digits_value(r);
    assert((a + 1) * rest <= b * rest) by (nonlinear_arith)
        requires
            a + 1 <= b,
    ;
}

/// A number whose first digit is not zero has the magnitude that its number of digits gives it.
proof fn lemma_magnitude(digits: Seq<nat>)
    requires
        decimal_digits(digits),
        digits.len() > 0,
    ensures
        digits_value(digits) < ten_to(digits.len()),
        digits[0] > 0 ==> ten_to((digits.len() - 1) as nat) <= digits_value(digits),
{
    lemma_leading_digits(digits, 0);
    assert(digits.subrange(0, 0) =~= Seq::empty());
    assert(digits_value(Seq::<nat>::empty()) == 0);
    let t = ten_to(digits.len());
    assert((digits_value(digits.subrange(0, 0)) + 1) * t == t) by (nonlinear_arith)
        requires
            digits_value(digits.subrange(0, 0)) == 0,
    ;
    lemma_leading_digits(digits, 1);
    let first = digits.subrange(0, 1);
    assert(first.drop_last() =~= Seq::empty());
    assert(digits_value(first) == digits[0]);
    if digits[0] > 0 {
        let rest = ten_to((digits.len() - 1) as nat);
        let d = digits[0];
        assert(rest <= d * rest) by (nonlinear_arith)
            requires
                d > 0,
        ;
    }
}

/// Where the run of digits that starts at `at` ends.
pub(crate) fn scan_digits(bytes: &[u8], at: usize) -> (end: usize)
    requires
        at <= bytes@.len(),
    ensures
        end == digits_end(bytes@, at as int),
        at <= end <= bytes@.len(),
        forall|i: int| at <= i < end ==> is_digit(#[trigger] bytes@[i]),
{
    let mut end: usize = at;
    while end < bytes.len() && bytes[end] >= 48 && bytes[end] <= 57
        invariant
            at <= end <= bytes@.len(),
            digits_end(bytes@, at as int) == digits_end(bytes@, end as int),
            forall|i: int| at <= i < end ==> is_digit(#[trigger] bytes@[i]),
        decreases bytes@.len() - end,
    {
        end = end + 1;
    }
    end
}

/// The value of a run of digits, or `None` if it exceeds `maximum`.
fn bounded_value(bytes: &[u8], start: usize, end: usize, maximum: u128) -> (r: Option<u128>)
    requires
        start <= end <= bytes@.len(),
        forall|i: int| start <= i < end ==> is_digit(#[trigger] bytes@[i]),
        maximum <= 1_000_000_000_000_000_000_000_000_000_000,
    ensures
        ({
            let value = digits_value(byte_digits(bytes@.subrange(start as int, end as int)));
            match r {
                Some(v) => v == value && value <= maximum,
                None => value > maximum,
            }
        }),
{
    let ghost digits = byte_digits(bytes@.subrange(start as int, end as int));
    assert(decimal_digits(digits)) by {
        assert forall|i: int| 0 <= i < digits.len() implies #[trigger] digits[i] <= 9 by {
            assert(is_digit(bytes@[start + i]));
        }
    }
    let mut value: u128 = 0;
    let mut at: usize = start;
    assert(digits.subrange(0, 0) =~= Seq::empty());
    while at < end
        invariant
            start <= at <= end <= bytes@.len(),
            forall|i: int| start <= i < end ==> is_digit(#[trigger] bytes@[i]),
            maximum <= 1_000_000_000_000_000_000_000_000_000_000,
            digits == byte_digits(bytes@.subrange(start as int, end as int)),
            decimal_digits(digits),
            value == digits_value(digits.subrange(0, at - start)),
            value <= maximum,
        decreases end - at,
    {
        let ghost count = at - start;
        assert(is_digit(bytes@[at as int]));
        value = value * 10 + (bytes[at] - 48) as u128;
        proof {
            let longer = digits.subrange(0, count + 1);
            assert(longer.drop_last() =~= digits.subrange(0, count));
            assert(longer.last() == (bytes@[at as int] - 48) as nat);
        }
        at = at + 1;
        if value > maximum {
            proof {
                lemma_leading_digits(digits, count + 1);
                lemma_ten_to((digits.len() - count - 1) as nat);
                let v = value as nat;
                let t = ten_to((digits.len() - count - 1) as nat);
                assert(v <= v * t) by (nonlinear_arith)
                    requires
                        t >= 1,
                ;
            }
            return None;
        }
    }
    assert(digits.subrange(0, end - start) =~= digits);
    Some(value)
}

/// The integer that a numeral denotes, if a signed 64-bit integer can hold it.
pub fn parse_i64(bytes: &[u8]) -> (r: Option<i64>)
    ensures
        match integer_of(bytes@) {
            Some(value) if i64::MIN <= value <= i64::MAX => r == Some(value as i64),
            _ => r is None,
        },
{
    let negative: bool = bytes.len() > 0 && bytes[0] == 45;
    let start: usize = if negative {
        1
    } else {
        0
    };
    let end: usize = scan_digits(bytes, start);
    if end == start || end != bytes.len() {
        return None;
    }
    match bounded_value(bytes, start, end, 9_223_372_036_854_775_808) {
        None => None,
        Some(magnitude) => if negative {
            if magnitude == 9_223_372_036_854_775_808 {
                Some(i64::MIN)
            } else {
                Some(-(magnitude as i64))
            }
        } else if magnitude <= 9_223_372_036_854_775_807 {
            Some(magnitude as i64)
        } else {
            None
        },
    }
}

/// The integer that a numeral denotes, if an unsigned 64-bit integer can hold it.
pub fn parse_u64(bytes: &[u8]) -> (r: Option<u64>)
    ensures
        match integer_of(bytes@) {
            Some(value) if 0 <= value <= u64::MAX => r == Some(value as u64),
            _ => r is None,
        },
{
    let negative: bool = bytes.len() > 0 && bytes[0] == 45;
    let start: usize = if negative {
        1
    } else {
        0
    };
    let end: usize = scan_digits(bytes, start);
    if end == start || end != bytes.len() {
        return None;
    }
    match bounded_value(bytes, start, end, 18_446_744_073_709_551_615) {
        None => None,
        Some(magnitude) => if negative && magnitude > 0 {
            None
        } else {
            Some(magnitude as u64)
        },
    }
}

/// The place in an array that a token denotes: digits without a leading zero.
pub open spec fn array_index_of(bytes: Seq<u8>) -> Option<nat> {
    if bytes.len() == 0 || digits_end(bytes, 0) != bytes.len() || (bytes.len() > 1 && bytes[0]
        == 48) {
        None
    } else {
        Some(digits_value(byte_digits(bytes)))
    }
}

/// The place in an array of fewer than `length` items that a token denotes.
pub fn parse_array_index(bytes: &[u8], length: usize) -> (r: Option<usize>)
    ensures
        match array_index_of(bytes@) {
            Some(place) if place < length => r == Some(place as usize),
            _ => r is None,
        },
{
    if bytes.len() == 0 {
        return None;
    }
    let end: usize = scan_digits(bytes, 0);
    if end != bytes.len() || (bytes.len() > 1 && bytes[0] == 48) {
        return None;
    }
    assert(bytes@.subrange(0, end as int) =~= bytes@);
    match bounded_value(bytes, 0, end, 18_446_744_073_709_551_615) {
        Some(value) => if value < length as u128 {
            Some(value as usize)
        } else {
            None
        },
        None => None,
    }
}

fn digit_of_char(c: char) -> (r: u8)
    ensures
        r == char_digit(c),
        r <= 9,
{
    match c {
        '1' => 1,
        '2' => 2,
        '3' => 3,
        '4' => 4,
        '5' => 5,
        '6' => 6,
        '7' => 7,
        '8' => 8,
        '9' => 9,
        _ => 0,
    }
}

/// Whether the first `width` of `digits`, padded with zeros if they are fewer, are below `limit`.
fn leading_below(digits: &Vec<u8>, from: usize, limit: &str, width: usize) -> (r: bool)
    requires
        from <= digits@.len(),
        forall|i: int| 0 <= i < digits@.len() ==> #[trigger] digits@[i] <= 9,
        width == limit@.len(),
    ensures
        r == (digits_value(
            Seq::new(
                width as nat,
                |i: int|
                    if from + i < digits@.len() {
                        digits@[from + i] as nat
                    } else {
                        0nat
                    },
            ),
        ) < digits_value(char_digits(limit@))),
{
    let ghost left = Seq::new(
        width as nat,
        |i: int|
            if from + i < digits@.len() {
                digits@[from + i] as nat
            } else {
                0nat
            },
    );
    let ghost right = char_digits(limit@);
    let mut at: usize = 0;
    while at < width
        invariant
            from <= digits@.len(),
            forall|i: int| 0 <= i < digits@.len() ==> #[trigger] digits@[i] <= 9,
            width == limit@.len(),
            at <= width,
            left.len() == width,
            forall|i: int|
                0 <= i < width ==> #[trigger] left[i] == if from + i < digits@.len() {
                    digits@[from + i] as nat
                } else {
                    0nat
                },
            right == char_digits(limit@),
            left.subrange(0, at as int) == right.subrange(0, at as int),
            left == Seq::new(
                width as nat,
                |i: int|
                    if from + i < digits@.len() {
                        digits@[from + i] as nat
                    } else {
                        0nat
                    },
            ),
        decreases width - at,
    {
        let ours: u8 = if at < digits.len() - from {
            digits[from + at]
        } else {
            0
        };
        let theirs: u8 = digit_of_char(limit.get_char(at));
        proof {
            assert(decimal_digits(left));
            assert(decimal_digits(right));
            assert(left[at as int] == ours);
            assert(right[at as int] == theirs);
        }
        if ours < theirs {
            proof {
                lemma_first_difference(left, right, at as int);
            }
            return true;
        }
        if ours > theirs {
            proof {
                lemma_first_difference(right, left, at as int);
            }
            return false;
        }
        proof {
            assert(left.subrange(0, at + 1) =~= left.subrange(0, at as int).push(left[at as int]));
            assert(right.subrange(0, at + 1) =~= right.subrange(0, at as int).push(
                right[at as int],
            ));
        }
        at = at + 1;
    }
    assert(left.subrange(0, width as int) =~= left);
    assert(right.subrange(0, width as int) =~= right);
    false
}

/// How a number that starts with a nonzero digit compares with a limit of `width` digits that
/// starts with a nonzero digit too.
proof fn lemma_below_by_width(digits: Seq<nat>, scale: int, limit: Seq<nat>)
    requires
        decimal_digits(digits),
        decimal_digits(limit),
        digits.len() > 0,
        digits[0] > 0,
        limit.len() > 0,
        limit[0] > 0,
    ensures
        digits.len() + scale < limit.len() ==> (DecimalView { digits, scale }).below(
            digits_value(limit),
        ),
        digits.len() + scale > limit.len() ==> !(DecimalView { digits, scale }).below(
            digits_value(limit),
        ),
{
    lemma_magnitude(digits);
    lemma_magnitude(limit);
    let v = digits_value(digits);
    let l = digits_value(limit);
    let n = digits.len();
    let k = limit.len();
    if n + scale < k {
        if scale >= 0 {
            let t = ten_to(scale as nat);
            lemma_ten_to(scale as nat);
            lemma_ten_to_adds(n, scale as nat);
            lemma_ten_to_monotonic((n + scale) as nat, (k - 1) as nat);
            assert(v * t < ten_to(n) * t) by (nonlinear_arith)
                requires
                    v < ten_to(n),
                    t > 0,
            ;
        } else {
            let t = ten_to((-scale) as nat);
            lemma_ten_to_adds((k - 1) as nat, (-scale) as nat);
            lemma_ten_to_monotonic(n, (k - 1 - scale) as nat);
            assert(ten_to((k - 1) as nat) * t <= l * t) by (nonlinear_arith)
                requires
                    ten_to((k - 1) as nat) <= l,
            ;
        }
    }
    if n + scale > k {
        if scale >= 0 {
            let t = ten_to(scale as nat);
            lemma_ten_to_adds((n - 1) as nat, scale as nat);
            lemma_ten_to_monotonic(k, (n - 1 + scale) as nat);
            assert(ten_to((n - 1) as nat) * t <= v * t) by (nonlinear_arith)
                requires
                    ten_to((n - 1) as nat) <= v,
            ;
        } else {
            let t = ten_to((-scale) as nat);
            lemma_ten_to((-scale) as nat);
            lemma_ten_to_adds(k, (-scale) as nat);
            lemma_ten_to_monotonic((k - scale) as nat, (n - 1) as nat);
            assert(l * t < ten_to(k) * t) by (nonlinear_arith)
                requires
                    l < ten_to(k),
                    t > 0,
            ;
        }
    }
}

/// A number with as many whole digits as the limit is below it exactly if its leading digits are.
proof fn lemma_below_by_leading_digits(digits: Seq<nat>, scale: int, limit: Seq<nat>)
    requires
        decimal_digits(digits),
        digits.len() + scale == limit.len(),
    ensures
        (DecimalView { digits, scale }).below(digits_value(limit)) == (digits_value(
            Seq::new(
                limit.len(),
                |i: int|
                    if i < digits.len() {
                        digits[i]
                    } else {
                        0nat
                    },
            ),
        ) < digits_value(limit)),
{
    let leading = Seq::new(
        limit.len(),
        |i: int|
            if i < digits.len() {
                digits[i]
            } else {
                0nat
            },
    );
    if scale >= 0 {
        lemma_padded(digits, scale as nat);
        assert(leading =~= digits + Seq::new(scale as nat, |i: int| 0nat));
    } else {
        lemma_leading_digits(digits, limit.len() as int);
        assert(leading =~= digits.subrange(0, limit.len() as int));
        let t = ten_to((-scale) as nat);
        lemma_ten_to((-scale) as nat);
        let p = digits_value(leading);
        let l = digits_value(limit);
        let v = digits_value(digits);
        if p < l {
            assert(v < l * t) by (nonlinear_arith)
                requires
                    v < (p + 1) * t,
                    p + 1 <= l,
                    t > 0,
            ;
        } else {
            assert(v >= l * t) by (nonlinear_arith)
                requires
                    v >= p * t,
                    p >= l,
                    t > 0,
            ;
        }
    }
}

/// Whether a number is below a limit that starts with a nonzero digit.
fn digits_below(digits: &Vec<u8>, scale: i128, limit: &str, width: usize) -> (r: bool)
    requires
        forall|i: int| 0 <= i < digits@.len() ==> #[trigger] digits@[i] <= 9,
        width == limit@.len(),
        0 < width <= 1000,
        char_digit(limit@[0]) > 0,
        -2 * EXPONENT_BOUND <= scale <= 2 * EXPONENT_BOUND,
    ensures
        r == (DecimalView {
            digits: Seq::new(digits@.len(), |i: int| digits@[i] as nat),
            scale: scale as int,
        }).below(digits_value(char_digits(limit@))),
{
    let ghost all = Seq::new(digits@.len(), |i: int| digits@[i] as nat);
    let ghost limit_value = digits_value(char_digits(limit@));
    let count: usize = digits.len();
    let mut zeros: usize = 0;
    while zeros < count && digits[zeros] == 0
        invariant
            zeros <= count,
            count == digits@.len(),
            all == Seq::new(digits@.len(), |i: int| digits@[i] as nat),
            forall|i: int| 0 <= i < zeros ==> #[trigger] all[i] == 0,
        decreases count - zeros,
    {
        zeros = zeros + 1;
    }
    let ghost significant = all.subrange(zeros as int, all.len() as int);
    proof {
        lemma_leading_zeros(all, zeros as int);
        assert(decimal_digits(significant));
        assert(decimal_digits(char_digits(limit@)));
        lemma_magnitude(char_digits(limit@));
        lemma_ten_to((width - 1) as nat);
        assert(limit_value > 0);
    }
    if zeros == count {
        proof {
            assert(significant =~= Seq::empty());
            assert(digits_value(significant) == 0);
            if scale >= 0 {
                let t = ten_to(scale as nat);
                assert(0 * t == 0);
            } else {
                let t = ten_to((-scale) as nat);
                lemma_ten_to((-scale) as nat);
                assert(limit_value * t > 0) by (nonlinear_arith)
                    requires
                        limit_value > 0,
                        t > 0,
                ;
            }
        }
        return true;
    }
    let whole: i128 = (count - zeros) as i128 + scale;
    proof {
        assert(significant[0] == all[zeros as int]);
        lemma_below_by_width(significant, scale as int, char_digits(limit@));
        assert((DecimalView { digits: all, scale: scale as int }).below(limit_value) == (
        DecimalView { digits: significant, scale: scale as int }).below(limit_value));
    }
    if whole < width as i128 {
        return true;
    }
    if whole > width as i128 {
        return false;
    }
    proof {
        lemma_below_by_leading_digits(significant, scale as int, char_digits(limit@));
        assert(Seq::new(
            width as nat,
            |i: int|
                if i < significant.len() {
                    significant[i]
                } else {
                    0nat
                },
        ) =~= Seq::new(
            width as nat,
            |i: int|
                if zeros + i < digits@.len() {
                    digits@[zeros + i] as nat
                } else {
                    0nat
                },
        ));
    }
    leading_below(digits, zeros, limit, width)
}

/// Appends the digits between two positions.
fn push_digits(out: &mut Vec<u8>, bytes: &[u8], start: usize, end: usize)
    requires
        start <= end <= bytes@.len(),
        forall|i: int| start <= i < end ==> is_digit(#[trigger] bytes@[i]),
    ensures
        final(out)@.len() == old(out)@.len() + (end - start),
        forall|i: int| 0 <= i < old(out)@.len() ==> #[trigger] final(out)@[i] == old(out)@[i],
        forall|i: int|
            0 <= i < end - start ==> #[trigger] final(out)@[old(out)@.len() + i] == bytes@[start
                + i] - 48,
{
    let mut at: usize = start;
    let ghost kept = out@;
    while at < end
        invariant
            start <= at <= end <= bytes@.len(),
            forall|i: int| start <= i < end ==> is_digit(#[trigger] bytes@[i]),
            out@.len() == kept.len() + (at - start),
            forall|i: int| 0 <= i < kept.len() ==> #[trigger] out@[i] == kept[i],
            forall|i: int|
                0 <= i < at - start ==> #[trigger] out@[kept.len() + i] == bytes@[start + i] - 48,
        decreases end - at,
    {
        assert(is_digit(bytes@[at as int]));
        out.push(bytes[at] - 48);
        at = at + 1;
    }
}

/// An exponent within the bounds in which its exact value matters, or the direction in which it
/// leaves them.
enum Exponent {
    Value(i128),
    BeyondAbove,
    BeyondBelow,
}

/// The exponent that starts at `at`.
fn read_exponent(bytes: &[u8], at: usize) -> (r: Option<Exponent>)
    requires
        at <= bytes@.len(),
    ensures
        match exponent_of(bytes@, at as int) {
            None => r is None,
            Some(value) => match r {
                Some(Exponent::Value(v)) => v == value && -EXPONENT_BOUND <= v <= EXPONENT_BOUND,
                Some(Exponent::BeyondAbove) => value > EXPONENT_BOUND,
                Some(Exponent::BeyondBelow) => value < -EXPONENT_BOUND,
                None => false,
            },
        },
{
    let length: usize = bytes.len();
    if at == length {
        return Some(Exponent::Value(0));
    }
    if bytes[at] != 101 && bytes[at] != 69 {
        return None;
    }
    let signed: bool = at + 1 < length && (bytes[at + 1] == 43 || bytes[at + 1] == 45);
    let start: usize = if signed {
        at + 2
    } else {
        at + 1
    };
    let end: usize = scan_digits(bytes, start);
    if end == start || end != length {
        return None;
    }
    let negative: bool = signed && bytes[at + 1] == 45;
    match bounded_value(bytes, start, end, EXPONENT_BOUND as u128) {
        Some(magnitude) => if negative {
            Some(Exponent::Value(-(magnitude as i128)))
        } else {
            Some(Exponent::Value(magnitude as i128))
        },
        None => if negative {
            Some(Exponent::BeyondBelow)
        } else {
            Some(Exponent::BeyondAbove)
        },
    }
}

/// Whether all digits are zero decides how a number with an extreme exponent compares.
proof fn lemma_extreme_scale(digits: Seq<nat>, scale: int, limit: Seq<nat>, bound: int)
    requires
        decimal_digits(digits),
        decimal_digits(limit),
        limit.len() > 0,
        limit[0] > 0,
        0 <= bound,
        digits.len() + limit.len() < bound,
    ensures
        digits_value(digits) == 0 ==> (DecimalView { digits, scale }).below(digits_value(limit)),
        scale < -bound ==> (DecimalView { digits, scale }).below(digits_value(limit)),
        digits_value(digits) > 0 && scale > bound ==> !(DecimalView { digits, scale }).below(
            digits_value(limit),
        ),
{
    let v = digits_value(digits);
    let l = digits_value(limit);
    lemma_magnitude(limit);
    lemma_ten_to((limit.len() - 1) as nat);
    if scale >= 0 {
        let t = ten_to(scale as nat);
        assert(v == 0 ==> v * t == 0);
        if v > 0 && scale > bound {
            lemma_ten_to_monotonic(limit.len(), scale as nat);
            assert(v * t >= t) by (nonlinear_arith)
                requires
                    v >= 1,
            ;
        }
    } else {
        let t = ten_to((-scale) as nat);
        lemma_ten_to((-scale) as nat);
        assert(l * t >= t) by (nonlinear_arith)
            requires
                l >= 1,
        ;
        if scale < -bound {
            if digits.len() > 0 {
                lemma_magnitude(digits);
                lemma_ten_to_monotonic(digits.len(), (-scale) as nat);
            }
        }
    }
}

fn all_zero(digits: &Vec<u8>) -> (r: bool)
    requires
        forall|i: int| 0 <= i < digits@.len() ==> #[trigger] digits@[i] <= 9,
    ensures
        r == (digits_value(Seq::new(digits@.len(), |i: int| digits@[i] as nat)) == 0),
{
    let ghost all = Seq::new(digits@.len(), |i: int| digits@[i] as nat);
    let mut at: usize = 0;
    while at < digits.len()
        invariant
            at <= digits@.len(),
            forall|i: int| 0 <= i < digits@.len() ==> #[trigger] digits@[i] <= 9,
            all == Seq::new(digits@.len(), |i: int| digits@[i] as nat),
            forall|i: int| 0 <= i < at ==> #[trigger] all[i] == 0,
        decreases digits@.len() - at,
    {
        if digits[at] != 0 {
            proof {
                lemma_leading_zeros(all, at as int);
                let rest = all.subrange(at as int, all.len() as int);
                assert(decimal_digits(rest));
                assert(rest[0] == all[at as int]);
                lemma_magnitude(rest);
                lemma_ten_to((rest.len() - 1) as nat);
            }
            return false;
        }
        at = at + 1;
    }
    proof {
        lemma_leading_zeros(all, all.len() as int);
        assert(all.subrange(all.len() as int, all.len() as int) =~= Seq::empty());
    }
    true
}

/// Whether a numeral denotes a number whose magnitude is below a limit that starts with a nonzero
/// digit.
fn numeral_below(bytes: &[u8], limit: &str, width: usize) -> (r: bool)
    requires
        width == limit@.len(),
        0 < width <= 1000,
        char_digit(limit@[0]) > 0,
    ensures
        r == decimal_below(bytes@, limit@),
{
    let length: usize = bytes.len();
    let start: usize = if length > 0 && bytes[0] == 45 {
        1
    } else {
        0
    };
    let whole_end: usize = scan_digits(bytes, start);
    if whole_end == start {
        return false;
    }
    let fractional: bool = whole_end < length && bytes[whole_end] == 46;
    let end: usize = if fractional {
        scan_digits(bytes, whole_end + 1)
    } else {
        whole_end
    };
    if fractional && end == whole_end + 1 {
        return false;
    }
    let exponent: Exponent = match read_exponent(bytes, end) {
        Some(exponent) => exponent,
        None => {
            return false;
        },
    };
    let mut digits: Vec<u8> = Vec::new();
    push_digits(&mut digits, bytes, start, whole_end);
    let ghost whole = digits@;
    let mut places: usize = 0;
    if fractional {
        push_digits(&mut digits, bytes, whole_end + 1, end);
        places = end - whole_end - 1;
    }
    let ghost number = decimal_of(bytes@)->0;
    let ghost all = Seq::new(digits@.len(), |i: int| digits@[i] as nat);
    let ghost limit_digits = char_digits(limit@);
    proof {
        lemma_digits_end(bytes@, start as int);
        let w = byte_digits(bytes@.subrange(start as int, whole_end as int));
        let f = fraction_digits(bytes@, whole_end as int, end as int);
        assert(f.len() == places);
        assert(number.digits == w + f);
        assert forall|i: int| 0 <= i < all.len() implies all[i] == (w + f)[i] by {
            if i < w.len() {
                assert(whole[0 + i] == bytes@[start + i] - 48);
                assert(is_digit(bytes@[start + i]));
            } else {
                let j = i - w.len();
                assert(digits@[whole.len() + j] == bytes@[whole_end + 1 + j] - 48);
                assert(is_digit(bytes@[whole_end + 1 + j]));
            }
        }
        assert(all =~= number.digits);
        assert forall|i: int| 0 <= i < digits@.len() implies #[trigger] digits@[i] <= 9 by {
            if i < whole.len() {
                assert(whole[0 + i] == bytes@[start + i] - 48);
                assert(is_digit(bytes@[start + i]));
            } else {
                let j = i - whole.len();
                assert(digits@[whole.len() + j] == bytes@[whole_end + 1 + j] - 48);
                assert(is_digit(bytes@[whole_end + 1 + j]));
            }
        }
        assert(decimal_digits(all));
        assert(decimal_digits(limit_digits));
        lemma_extreme_scale(
            all,
            number.scale,
            limit_digits,
            EXPONENT_BOUND - 0x1_0000_0000_0000_0000,
        );
    }
    match exponent {
        Exponent::Value(value) => digits_below(&digits, value - places as i128, limit, width),
        Exponent::BeyondBelow => true,
        Exponent::BeyondAbove => all_zero(&digits),
    }
}

/// Whether a numeral denotes a number that an IEEE 754 single holds without overflow.
pub fn float32_is_finite(bytes: &[u8]) -> (r: bool)
    ensures
        r == decimal_below(bytes@, FLOAT32_LIMIT@),
{
    proof {
        reveal_strlit("340282356779733661637539395458142568448");
    }
    numeral_below(bytes, FLOAT32_LIMIT, 39)
}

/// Whether a numeral denotes a number that an IEEE 754 double holds without overflow.
pub fn float64_is_finite(bytes: &[u8]) -> (r: bool)
    ensures
        r == decimal_below(bytes@, FLOAT64_LIMIT@),
{
    proof {
        reveal_strlit("179769313486231580793728971405303415079934132710037826936173778980444968292764750946649017977587207096330286416692887910946555547851940402630657488671505820681908902000708383676273854845817711531764475730270069855571366959622842914819860834936475292719074168444365510704342711559699508093042880177904174497792");
    }
    numeral_below(bytes, FLOAT64_LIMIT, 309)
}

/// Whether bytes are decimal digits, and there is one.
pub open spec fn all_digits(bytes: Seq<u8>) -> bool {
    bytes.len() > 0 && forall|i: int| 0 <= i < bytes.len() ==> 48 <= #[trigger] bytes[i] <= 57
}

proof fn lemma_run(bytes: Seq<u8>, at: int, end: int)
    requires
        0 <= at <= end <= bytes.len(),
        forall|i: int| at <= i < end ==> is_digit(#[trigger] bytes[i]),
        end == bytes.len() || !is_digit(bytes[end]),
    ensures
        digits_end(bytes, at) == end,
    decreases end - at,
{
    if at < end {
        lemma_run(bytes, at + 1, end);
    }
}

/// A digit that follows other digits counts ten times less than they do, a minus sign negates what
/// follows it, and nothing but digits behind at most one minus sign is an integer.
pub proof fn numerals_denote_their_digits(bytes: Seq<u8>, digit: u8)
    requires
        48 <= digit <= 57,
    ensures
        integer_of(seq![digit]) == Some(digit - 48),
        all_digits(bytes) ==> integer_of(bytes) is Some,
        all_digits(bytes) ==> integer_of(bytes.push(digit)) == Some(
            10 * integer_of(bytes)->0 + (digit - 48),
        ),
        all_digits(bytes) ==> integer_of(seq![45u8] + bytes) == Some(-integer_of(bytes)->0),
        integer_of(bytes) is Some ==> all_digits(bytes) || (bytes.len() > 0 && bytes[0] == 45
            && all_digits(bytes.subrange(1, bytes.len() as int))),
        array_index_of(bytes) is Some <==> all_digits(bytes) && (bytes.len() == 1 || bytes[0]
            != 48),
        array_index_of(bytes) is Some ==> integer_of(bytes) == Some(
            array_index_of(bytes)->0 as int,
        ),
{
    let one = seq![digit];
    lemma_run(one, 0, 1);
    assert(one.subrange(0, 1) =~= one);
    assert(byte_digits(one).drop_last() =~= Seq::empty());
    assert(digits_value(byte_digits(one).drop_last()) == 0);
    lemma_digits_end(bytes, 0);
    if all_digits(bytes) {
        let length = bytes.len() as int;
        let longer = bytes.push(digit);
        let signed = seq![45u8] + bytes;
        lemma_run(bytes, 0, length);
        assert(bytes.subrange(0, length) =~= bytes);
        assert forall|i: int| 0 <= i < length + 1 implies is_digit(#[trigger] longer[i]) by {
            if i < length {
                assert(longer[i] == bytes[i]);
            }
        }
        lemma_run(longer, 0, length + 1);
        assert(longer.subrange(0, length + 1) =~= longer);
        assert(byte_digits(longer).drop_last() =~= byte_digits(bytes));
        assert forall|i: int| 1 <= i < length + 1 implies is_digit(#[trigger] signed[i]) by {
            assert(signed[i] == bytes[i - 1]);
        }
        lemma_run(signed, 1, length + 1);
        assert(signed.subrange(1, length + 1) =~= bytes);
        assert(bytes[0] != 45);
        assert(longer[0] == bytes[0]);
    }
    if integer_of(bytes) is Some {
        if bytes.len() > 0 && bytes[0] == 45 {
            lemma_digits_end(bytes, 1);
            let rest = bytes.subrange(1, bytes.len() as int);
            assert forall|i: int| 0 <= i < rest.len() implies 48 <= #[trigger] rest[i] <= 57 by {
                assert(rest[i] == bytes[i + 1]);
                assert(is_digit(bytes[i + 1]));
            }
        } else {
            assert forall|i: int| 0 <= i < bytes.len() implies 48 <= #[trigger] bytes[i] <= 57 by {
                assert(is_digit(bytes[i]));
            }
        }
    }
    if array_index_of(bytes) is Some {
        assert forall|i: int| 0 <= i < bytes.len() implies 48 <= #[trigger] bytes[i] <= 57 by {
            assert(is_digit(bytes[i]));
        }
    }
}

/// Whether a numeral has no exponent: digits, and perhaps a point with digits behind it.
pub open spec fn is_plain(numeral: Seq<u8>, whole: Seq<u8>, fraction: Seq<u8>) -> bool {
    &&& all_digits(whole)
    &&& fraction.len() == 0 || all_digits(fraction)
    &&& numeral == if fraction.len() == 0 {
        whole
    } else {
        whole + seq![46u8] + fraction
    }
}

/// A decimal numeral has the digits before and behind its point, each digit behind the point divides
/// them by ten, and an exponent multiplies them by that power of ten.
pub proof fn decimals_denote_their_digits(
    numeral: Seq<u8>,
    whole: Seq<u8>,
    fraction: Seq<u8>,
    exponent: Seq<u8>,
    mark: u8,
)
    requires
        is_plain(numeral, whole, fraction),
        all_digits(exponent),
        mark == 101 || mark == 69,
    ensures
        decimal_of(numeral) == Some(
            DecimalView {
                digits: byte_digits(whole + fraction),
                scale: -(fraction.len() as int),
            },
        ),
        decimal_of(numeral + seq![mark] + exponent) == Some(
            DecimalView {
                digits: byte_digits(whole + fraction),
                scale: integer_of(exponent)->0 - fraction.len(),
            },
        ),
        decimal_of(numeral + seq![mark, 43u8] + exponent) == Some(
            DecimalView {
                digits: byte_digits(whole + fraction),
                scale: integer_of(exponent)->0 - fraction.len(),
            },
        ),
        decimal_of(numeral + seq![mark, 45u8] + exponent) == Some(
            DecimalView {
                digits: byte_digits(whole + fraction),
                scale: -integer_of(exponent)->0 - fraction.len(),
            },
        ),
{
    numerals_denote_their_digits(exponent, 48);
    lemma_decimal(numeral, numeral, whole, fraction);
    lemma_exponent(numeral + seq![mark] + exponent, numeral.len() as int, 1, exponent);
    lemma_decimal(numeral + seq![mark] + exponent, numeral, whole, fraction);
    lemma_exponent(numeral + seq![mark, 43u8] + exponent, numeral.len() as int, 2, exponent);
    lemma_decimal(numeral + seq![mark, 43u8] + exponent, numeral, whole, fraction);
    lemma_exponent(numeral + seq![mark, 45u8] + exponent, numeral.len() as int, 2, exponent);
    lemma_decimal(numeral + seq![mark, 45u8] + exponent, numeral, whole, fraction);
}

proof fn lemma_exponent(bytes: Seq<u8>, at: int, skipped: int, exponent: Seq<u8>)
    requires
        0 <= at,
        1 <= skipped <= 2,
        bytes.len() == at + skipped + exponent.len(),
        bytes.subrange(at + skipped, bytes.len() as int) =~= exponent,
        bytes[at] == 101 || bytes[at] == 69,
        skipped == 2 ==> bytes[at + 1] == 43 || bytes[at + 1] == 45,
        all_digits(exponent),
    ensures
        exponent_of(bytes, at) == Some(
            if skipped == 2 && bytes[at + 1] == 45 {
                -integer_of(exponent)->0
            } else {
                integer_of(exponent)->0
            },
        ),
{
    let start = at + skipped;
    let end = bytes.len() as int;
    assert forall|i: int| start <= i < end implies is_digit(#[trigger] bytes[i]) by {
        assert(bytes[i] == exponent[i - start]);
    }
    lemma_run(bytes, start, end);
    lemma_run(exponent, 0, exponent.len() as int);
    assert(exponent.subrange(0, exponent.len() as int) =~= exponent);
    assert(bytes[at + skipped] == exponent[0]);
}

proof fn lemma_decimal(bytes: Seq<u8>, numeral: Seq<u8>, whole: Seq<u8>, fraction: Seq<u8>)
    requires
        is_plain(numeral, whole, fraction),
        numeral.len() <= bytes.len(),
        bytes.subrange(0, numeral.len() as int) =~= numeral,
        bytes.len() == numeral.len() || bytes[numeral.len() as int] == 101
            || bytes[numeral.len() as int] == 69,
        exponent_of(bytes, numeral.len() as int) is Some,
    ensures
        decimal_of(bytes) == Some(
            DecimalView {
                digits: byte_digits(whole + fraction),
                scale: exponent_of(bytes, numeral.len() as int)->0 - fraction.len(),
            },
        ),
{
    let middle = whole.len() as int;
    let end = numeral.len() as int;
    assert forall|i: int| 0 <= i < middle implies is_digit(#[trigger] bytes[i]) by {
        assert(bytes[i] == numeral[i]);
        assert(numeral[i] == whole[i]);
    }
    assert(bytes[0] == numeral[0] && numeral[0] == whole[0]);
    if fraction.len() > 0 {
        assert(bytes[middle] == numeral[middle] && numeral[middle] == 46);
        assert forall|i: int| middle + 1 <= i < end implies is_digit(#[trigger] bytes[i])
            && bytes[i] == fraction[i - middle - 1] by {
            assert(bytes.subrange(0, end)[i] == bytes[i]);
            assert(numeral[i] == fraction[i - middle - 1]);
        }
        lemma_run(bytes, middle + 1, end);
        assert(bytes.subrange(middle + 1, end) =~= fraction);
    }
    lemma_run(bytes, 0, middle);
    assert(bytes.subrange(0, middle) =~= whole);
    assert(byte_digits(whole) + fraction_digits(bytes, middle, end) =~= byte_digits(
        whole + fraction,
    ));
}

} // verus!
