//! Numbers of double precision, in integers.
//!
//! Spans in seconds, drifts in milliseconds and percentiles are numbers of fifty-three binary
//! digits, and each operation on them rounds its exact result to the nearest such number. A
//! [`Double`] holds one that is not negative, as its digits and the place of the last of them.

use vstd::arithmetic::power2::pow2;
use vstd::prelude::*;

use crate::time::{round_half_even, rounded_ratio};

verus! {

/// The least number with fifty-three binary digits.
pub const LEAST_DIGITS: u64 = 0x10_0000_0000_0000;

/// The number `digits * 2^place`.
pub struct Binary {
    pub digits: nat,
    pub place: int,
}

/// Zero.
pub open spec fn zero() -> Binary {
    Binary { digits: 0, place: 0 }
}

impl Binary {
    /// The number is zero or has fifty-three digits.
    pub open spec fn canonical(self) -> bool {
        self == zero() || LEAST_DIGITS <= self.digits < 2 * LEAST_DIGITS
    }

    /// The number as a machine holds it.
    pub open spec fn held(self) -> Double {
        Double { digits: self.digits as u64, place: self.place as i32 }
    }

    /// The number times `2^by`.
    pub open spec fn scaled(self, by: int) -> Binary {
        if self.digits == 0 {
            self
        } else {
            Binary { place: self.place + by, ..self }
        }
    }

    /// How many units of `2^place` the number holds.
    pub open spec fn units(self, place: int) -> nat
        recommends
            place <= self.place,
    {
        self.digits * pow2((self.place - place) as nat)
    }

    /// What the number stands for, in units so fine that every number here is a whole number of them.
    pub open spec fn fine(self) -> nat {
        self.units(-1100)
    }

    /// The lower of the places of two numbers.
    pub open spec fn lower_place(self, other: Binary) -> int {
        if self.place <= other.place {
            self.place
        } else {
            other.place
        }
    }

    /// The number is no larger than the other one. With as many digits on either side, the place
    /// decides first.
    pub open spec fn at_most(self, other: Binary) -> bool {
        self.digits == 0 || (other.digits != 0 && (self.place < other.place || (self.place
            == other.place && self.digits <= other.digits)))
    }

    /// The smaller of two numbers.
    pub open spec fn min(self, other: Binary) -> Binary {
        if self.at_most(other) {
            self
        } else {
            other
        }
    }

    /// The sum, rounded.
    pub open spec fn plus(self, other: Binary) -> Binary {
        if self.digits == 0 {
            other
        } else if other.digits == 0 {
            self
        } else {
            let place = self.lower_place(other);
            nearest(self.units(place) + other.units(place), 1).scaled(place)
        }
    }

    /// What is left of the number without the other one, rounded; nothing where that is larger.
    pub open spec fn minus(self, other: Binary) -> Binary {
        if self.at_most(other) {
            zero()
        } else if other.digits == 0 {
            self
        } else {
            let place = self.lower_place(other);
            nearest((self.units(place) - other.units(place)) as nat, 1).scaled(place)
        }
    }

    /// The product, rounded.
    pub open spec fn product(self, other: Binary) -> Binary {
        nearest(self.digits * other.digits, 1).scaled(self.place + other.place)
    }

    /// The number times an integer, rounded.
    pub open spec fn times(self, factor: nat) -> Binary {
        nearest(self.digits * factor, 1).scaled(self.place)
    }

    /// The number over an integer, rounded.
    pub open spec fn over(self, divisor: nat) -> Binary {
        nearest(self.digits, divisor).scaled(self.place)
    }

    /// The integer nearest to the number times `factor`; of two equally near ones, the even one.
    pub open spec fn rounded_times(self, factor: nat) -> nat {
        if self.place >= 0 {
            self.digits * pow2(self.place as nat) * factor
        } else {
            round_half_even(self.digits * factor, pow2((-self.place) as nat))
        }
    }

    /// The least integer that is no smaller than the number.
    pub open spec fn ceiling(self) -> nat {
        if self.place >= 0 {
            self.digits * pow2(self.place as nat)
        } else {
            let unit = pow2((-self.place) as nat);
            ((self.digits + unit - 1) / unit as int) as nat
        }
    }
}

/// The whole part of a ratio has fewer than fifty-three digits.
pub open spec fn is_short(numerator: nat, denominator: nat) -> bool {
    numerator < 0x10_0000_0000_0000 * denominator
}

/// The whole part of a ratio has more than fifty-three digits.
pub open spec fn is_long(numerator: nat, denominator: nat) -> bool {
    numerator >= 0x20_0000_0000_0000 * denominator
}

/// How far a ratio is from having fifty-three digits.
pub open spec fn digits_off(numerator: nat, denominator: nat) -> int {
    if is_short(numerator, denominator) {
        0x10_0000_0000_0000 * denominator - numerator
    } else {
        numerator - denominator
    }
}

/// The number of fifty-three digits that is nearest to `numerator / denominator`; of two equally
/// near ones, the one whose last digit is zero. The ratio is doubled or halved until its whole part
/// has fifty-three digits, and rounded there.
pub open spec fn nearest(numerator: nat, denominator: nat) -> Binary
    recommends
        denominator > 0,
    decreases is_short(numerator, denominator) as int, digits_off(numerator, denominator),
    when denominator > 0
{
    if numerator == 0 {
        zero()
    } else if is_long(numerator, denominator) {
        nearest(numerator, 2 * denominator).scaled(1)
    } else if is_short(numerator, denominator) {
        nearest(2 * numerator, denominator).scaled(-1)
    } else {
        let digits = round_half_even(numerator, denominator);
        if digits == 2 * LEAST_DIGITS {
            Binary { digits: LEAST_DIGITS as nat, place: 1 }
        } else {
            Binary { digits, place: 0 }
        }
    }
}

/// The number nearest to an integer.
pub open spec fn whole(value: nat) -> Binary {
    nearest(value, 1)
}

/// A ratio between two integers rounds to one of them or to something between.
proof fn rounding_stays_between(numerator: nat, denominator: nat, low: nat, high: nat)
    requires
        denominator > 0,
        low * denominator <= numerator < high * denominator,
    ensures
        low <= round_half_even(numerator, denominator) <= high,
{
    let quotient = numerator / denominator;
    vstd::arithmetic::div_mod::lemma_fundamental_div_mod(numerator as int, denominator as int);
    assert(low <= quotient < high) by (nonlinear_arith)
        requires
            denominator > 0,
            low * denominator <= numerator < high * denominator,
            numerator == denominator * quotient + numerator % denominator,
            0 <= numerator % denominator < denominator,
    ;
}

/// Only zero rounds to zero, and everything else to a number of fifty-three digits.
pub proof fn nearest_is_canonical(numerator: nat, denominator: nat)
    requires
        denominator > 0,
    ensures
        nearest(numerator, denominator).canonical(),
        nearest(numerator, denominator).digits == 0 <==> numerator == 0,
    decreases is_short(numerator, denominator) as int, digits_off(numerator, denominator),
{
    if numerator == 0 {
    } else if is_long(numerator, denominator) {
        nearest_is_canonical(numerator, 2 * denominator);
    } else if is_short(numerator, denominator) {
        nearest_is_canonical(2 * numerator, denominator);
    } else {
        rounding_stays_between(
            numerator,
            denominator,
            LEAST_DIGITS as nat,
            2 * LEAST_DIGITS as nat,
        );
    }
}

/// A ratio below `2^(53 + k)` rounds to no more than that.
proof fn nearest_is_bounded(numerator: nat, denominator: nat, k: nat)
    requires
        denominator > 0,
        numerator < 0x20_0000_0000_0000 * denominator * pow2(k),
    ensures
        nearest(numerator, denominator).place <= k + 1,
    decreases is_short(numerator, denominator) as int, digits_off(numerator, denominator),
{
    vstd::arithmetic::power2::lemma2_to64();
    assert(0x20_0000_0000_0000 * denominator * 1 == 0x20_0000_0000_0000 * denominator);
    if numerator == 0 {
    } else if is_long(numerator, denominator) {
        if k > 0 {
            vstd::arithmetic::power2::lemma_pow2_unfold(k);
            let rest = (k - 1) as nat;
            assert(0x20_0000_0000_0000 * denominator * (2 * pow2(rest)) == 0x20_0000_0000_0000 * (2
                * denominator) * pow2(rest)) by (nonlinear_arith);
            nearest_is_bounded(numerator, 2 * denominator, rest);
        }
    } else if is_short(numerator, denominator) {
        nearest_is_bounded(2 * numerator, denominator, 0);
    }
}

proof fn powers_are_in_order(lower: nat, higher: nat)
    requires
        lower <= higher,
    ensures
        0 < pow2(lower) <= pow2(higher),
{
    vstd::arithmetic::power2::lemma_pow2_pos(lower);
    if lower < higher {
        vstd::arithmetic::power2::lemma_pow2_strictly_increases(lower, higher);
    }
}

/// An integer below `2^(53 + k)` rounds to no more than that.
pub proof fn whole_is_bounded(value: nat, k: nat)
    requires
        value < 0x20_0000_0000_0000 * pow2(k),
    ensures
        whole(value).canonical(),
        whole(value).place <= k + 1,
{
    nearest_is_canonical(value, 1);
    nearest_is_bounded(value, 1, k);
}

/// Dividing by an integer does not make a number larger.
pub proof fn over_is_bounded(number: Binary, divisor: nat)
    requires
        number.canonical(),
        divisor > 0,
    ensures
        number.over(divisor).canonical(),
        number.over(divisor).place <= number.place + 1,
{
    vstd::arithmetic::power2::lemma2_to64();
    assert(0x20_0000_0000_0000 * divisor * 1 == 0x20_0000_0000_0000 * divisor);
    nearest_is_canonical(number.digits, divisor);
    nearest_is_bounded(number.digits, divisor, 0);
}

/// Multiplying by an integer below `2^k` makes a number at most so many times as large.
pub proof fn times_is_bounded(number: Binary, factor: nat, k: nat)
    requires
        number.canonical(),
        0 < factor <= pow2(k),
    ensures
        number.times(factor).canonical(),
        number.times(factor).place <= number.place + k + 1,
{
    powers_are_in_order(k, k);
    assert(number.digits * factor < 0x20_0000_0000_0000 * pow2(k)) by (nonlinear_arith)
        requires
            number.digits < 0x20_0000_0000_0000,
            factor <= pow2(k),
            pow2(k) > 0,
    ;
    assert(number.digits * factor == 0 <==> number.digits == 0) by (nonlinear_arith)
        requires
            factor > 0,
    ;
    nearest_is_canonical(number.digits * factor, 1);
    nearest_is_bounded(number.digits * factor, 1, k);
}

/// A sum is at most twice the larger number.
pub proof fn plus_is_bounded(number: Binary, other: Binary, k: int)
    requires
        number.canonical(),
        other.canonical(),
        number.place <= k,
        other.place <= k,
    ensures
        number.plus(other).canonical(),
        number.plus(other).place <= k + 2,
{
    if number.digits != 0 && other.digits != 0 {
        let place = number.lower_place(other);
        let above = (k - place) as nat;
        units_are_bounded(number, place, k);
        units_are_bounded(other, place, k);
        vstd::arithmetic::power2::lemma_pow2_unfold(above + 1);
        assert(pow2(above + 1) == 2 * pow2(above));
        let sum = number.units(place) + other.units(place);
        assert(sum < 0x20_0000_0000_0000 * pow2(above + 1));
        nearest_is_canonical(sum, 1);
        nearest_is_bounded(sum, 1, above + 1);
    }
}

proof fn units_are_bounded(number: Binary, place: int, k: int)
    requires
        number.canonical(),
        place <= number.place <= k,
    ensures
        number.units(place) < 0x20_0000_0000_0000 * pow2((k - place) as nat),
        number.digits > 0 ==> number.units(place) > 0,
{
    let unit = pow2((number.place - place) as nat);
    powers_are_in_order((number.place - place) as nat, (k - place) as nat);
    assert(number.digits * unit < 0x20_0000_0000_0000 * unit) by (nonlinear_arith)
        requires
            number.digits < 0x20_0000_0000_0000,
            unit > 0,
    ;
    assert(number.digits > 0 ==> number.digits * unit > 0) by (nonlinear_arith)
        requires
            unit > 0,
    ;
}

/// A number that is not too large has room, times a factor, among the integers of this machine.
pub proof fn rounded_times_fits(number: Binary, factor: nat, k: nat, j: nat)
    requires
        number.canonical(),
        0 <= number.place <= k,
        factor <= pow2(j),
        k + j <= 74,
    ensures
        number.rounded_times(factor) <= u128::MAX,
{
    let unit = pow2(number.place as nat);
    powers_are_in_order(number.place as nat, k);
    powers_are_in_order(k + j, 74);
    vstd::arithmetic::power2::lemma2_to64();
    vstd::arithmetic::power2::lemma_pow2_adds(64, 10);
    vstd::arithmetic::power2::lemma_pow2_adds(k, j);
    assert(number.digits * unit * factor <= 0x20_0000_0000_0000 * (pow2(k) * pow2(j)))
        by (nonlinear_arith)
        requires
            number.digits < 0x20_0000_0000_0000,
            0 < unit <= pow2(k),
            factor <= pow2(j),
    {
        assert(number.digits * unit <= 0x20_0000_0000_0000 * pow2(k));
        assert(number.digits * unit * factor <= 0x20_0000_0000_0000 * pow2(k) * pow2(j));
    }
}

/// A ratio of more than fifty-three digits can be halved first.
proof fn nearest_of_halves(numerator: nat, denominator: nat, k: nat)
    requires
        denominator > 0,
        numerator >= 0x10_0000_0000_0000 * (denominator * pow2(k)),
    ensures
        denominator * pow2(k) > 0,
        nearest(numerator, denominator) == nearest(numerator, denominator * pow2(k)).scaled(
            k as int,
        ),
    decreases k,
{
    vstd::arithmetic::power2::lemma2_to64();
    vstd::arithmetic::power2::lemma_pow2_pos(k);
    assert(denominator * pow2(k) > 0) by (nonlinear_arith)
        requires
            denominator > 0,
            pow2(k) > 0,
    ;
    if k == 0 {
        assert(denominator * 1 == denominator);
    } else {
        let rest = (k - 1) as nat;
        vstd::arithmetic::power2::lemma_pow2_unfold(k);
        vstd::arithmetic::power2::lemma_pow2_pos(rest);
        assert(denominator * pow2(k) == 2 * denominator * pow2(rest)) by (nonlinear_arith)
            requires
                pow2(k) == 2 * pow2(rest),
        ;
        assert(denominator * pow2(rest) >= denominator) by (nonlinear_arith)
            requires
                pow2(rest) >= 1,
        ;
        assert(2 * denominator * pow2(rest) == 2 * (denominator * pow2(rest))) by (nonlinear_arith);
        assert(is_long(numerator, denominator));
        nearest_of_halves(numerator, 2 * denominator, rest);
    }
}

/// A ratio does not change when both sides are doubled.
proof fn nearest_of_both_doubled(numerator: nat, denominator: nat)
    requires
        denominator > 0,
    ensures
        nearest(2 * numerator, 2 * denominator) == nearest(numerator, denominator),
    decreases is_short(numerator, denominator) as int, digits_off(numerator, denominator),
{
    if numerator == 0 {
    } else if is_long(numerator, denominator) {
        nearest_of_both_doubled(numerator, 2 * denominator);
    } else if is_short(numerator, denominator) {
        nearest_of_both_doubled(2 * numerator, denominator);
    } else {
        let quotient = numerator / denominator;
        let rest = numerator % denominator;
        vstd::arithmetic::div_mod::lemma_fundamental_div_mod(numerator as int, denominator as int);
        assert(2 * numerator == quotient * (2 * denominator) + 2 * rest) by (nonlinear_arith)
            requires
                numerator == denominator * quotient + rest,
        ;
        vstd::arithmetic::div_mod::lemma_fundamental_div_mod_converse(
            2 * numerator as int,
            2 * denominator as int,
            quotient as int,
            2 * rest as int,
        );
    }
}

/// Twice a ratio is rounded as the ratio is.
proof fn nearest_of_doubled(numerator: nat, denominator: nat)
    requires
        denominator > 0,
    ensures
        nearest(2 * numerator, denominator) == nearest(numerator, denominator).scaled(1),
{
    if numerator != 0 && !is_short(numerator, denominator) {
        assert(is_long(2 * numerator, denominator));
        nearest_of_both_doubled(numerator, denominator);
    }
}

/// A larger ratio is not rounded to a smaller integer.
proof fn rounding_keeps_order(numerator: nat, denominator: nat, upper: nat, lower: nat)
    requires
        denominator > 0,
        lower > 0,
        numerator * lower <= upper * denominator,
    ensures
        round_half_even(numerator, denominator) <= round_half_even(upper, lower),
{
    let quotient = numerator / denominator;
    let rest = numerator % denominator;
    let other = upper / lower;
    let left = upper % lower;
    vstd::arithmetic::div_mod::lemma_fundamental_div_mod(numerator as int, denominator as int);
    vstd::arithmetic::div_mod::lemma_fundamental_div_mod(upper as int, lower as int);
    assert(numerator * lower == quotient * (denominator * lower) + rest * lower)
        by (nonlinear_arith)
        requires
            numerator == denominator * quotient + rest,
    ;
    assert(upper * denominator == other * (denominator * lower) + left * denominator)
        by (nonlinear_arith)
        requires
            upper == lower * other + left,
    ;
    let unit = denominator * lower;
    assert(rest * lower < unit) by (nonlinear_arith)
        requires
            rest < denominator,
            lower > 0,
            unit == denominator * lower,
    ;
    assert(left * denominator < unit) by (nonlinear_arith)
        requires
            left < lower,
            denominator > 0,
            unit == denominator * lower,
    ;
    assert(rest * lower >= 0) by (nonlinear_arith);
    assert(quotient <= other) by (nonlinear_arith)
        requires
            quotient * unit <= other * unit + left * denominator,
            left * denominator < unit,
            unit > 0,
    ;
    if quotient == other {
        assert(2 * rest >= denominator ==> 2 * left >= lower) by (nonlinear_arith)
            requires
                rest * lower <= left * denominator,
                denominator > 0,
                lower > 0,
        ;
        assert(2 * rest > denominator ==> 2 * left > lower) by (nonlinear_arith)
            requires
                rest * lower <= left * denominator,
                denominator > 0,
                lower > 0,
        ;
    }
}

/// A ratio with fifty-three digits before the point rounds to a number with no more after it.
proof fn nearest_is_no_fraction(numerator: nat, denominator: nat)
    requires
        denominator > 0,
        !is_short(numerator, denominator),
    ensures
        nearest(numerator, denominator).place >= 0,
    decreases digits_off(numerator, denominator),
{
    if is_long(numerator, denominator) {
        nearest_is_no_fraction(numerator, 2 * denominator);
    }
}

/// A larger ratio does not round to a smaller number.
pub proof fn nearest_keeps_order(numerator: nat, denominator: nat, upper: nat, lower: nat)
    requires
        denominator > 0,
        lower > 0,
        numerator * lower <= upper * denominator,
    ensures
        nearest(numerator, denominator).at_most(nearest(upper, lower)),
    decreases is_short(numerator, denominator) as int, digits_off(numerator, denominator),
{
    nearest_is_canonical(numerator, denominator);
    nearest_is_canonical(upper, lower);
    if numerator == 0 {
    } else {
        assert(upper > 0) by (nonlinear_arith)
            requires
                numerator > 0,
                lower > 0,
                numerator * lower <= upper * denominator,
        ;
        if is_long(numerator, denominator) {
            assert(upper >= 0x20_0000_0000_0000 * lower) by (nonlinear_arith)
                requires
                    numerator >= 0x20_0000_0000_0000 * denominator,
                    denominator > 0,
                    numerator * lower <= upper * denominator,
            ;
            assert(numerator * (2 * lower) <= upper * (2 * denominator)) by (nonlinear_arith)
                requires
                    numerator * lower <= upper * denominator,
            ;
            nearest_keeps_order(numerator, 2 * denominator, upper, 2 * lower);
            nearest_is_canonical(numerator, 2 * denominator);
            nearest_is_canonical(upper, 2 * lower);
        } else if is_short(numerator, denominator) {
            assert((2 * numerator) * lower <= (2 * upper) * denominator) by (nonlinear_arith)
                requires
                    numerator * lower <= upper * denominator,
            ;
            nearest_keeps_order(2 * numerator, denominator, 2 * upper, lower);
            nearest_is_canonical(2 * numerator, denominator);
            nearest_of_doubled(upper, lower);
        } else {
            assert(upper >= 0x10_0000_0000_0000 * lower) by (nonlinear_arith)
                requires
                    numerator >= 0x10_0000_0000_0000 * denominator,
                    denominator > 0,
                    numerator * lower <= upper * denominator,
            ;
            if is_long(upper, lower) {
                nearest_is_no_fraction(upper, 2 * lower);
                nearest_is_canonical(upper, 2 * lower);
            } else {
                rounding_keeps_order(numerator, denominator, upper, lower);
                rounding_stays_between(
                    upper,
                    lower,
                    LEAST_DIGITS as nat,
                    2 * LEAST_DIGITS as nat,
                );
            }
        }
    }
}

/// A larger number, times and over the same integers, does not become a smaller one.
pub proof fn ratios_keep_order(number: Binary, other: Binary, factor: nat, divisor: nat)
    requires
        number.canonical(),
        other.canonical(),
        number.at_most(other),
        divisor > 0,
    ensures
        nearest(number.digits * factor, divisor).scaled(number.place).at_most(
            nearest(other.digits * factor, divisor).scaled(other.place),
        ),
{
    let mine = number.digits * factor;
    let its = other.digits * factor;
    nearest_is_canonical(mine, divisor);
    nearest_is_canonical(its, divisor);
    assert(number.digits == 0 ==> mine == 0) by (nonlinear_arith)
        requires
            mine == number.digits * factor,
    ;
    if mine != 0 {
        assert(factor > 0 && number.digits > 0) by (nonlinear_arith)
            requires
                mine == number.digits * factor,
                mine != 0,
        ;
        assert(its > 0) by (nonlinear_arith)
            requires
                its == other.digits * factor,
                factor > 0,
                other.digits > 0,
        ;
        if number.place == other.place {
            assert(mine * divisor <= its * divisor) by (nonlinear_arith)
                requires
                    mine == number.digits * factor,
                    its == other.digits * factor,
                    number.digits <= other.digits,
            ;
            nearest_keeps_order(mine, divisor, its, divisor);
        } else {
            assert(mine * divisor <= (2 * its) * divisor) by (nonlinear_arith)
                requires
                    mine == number.digits * factor,
                    its == other.digits * factor,
                    number.digits <= 2 * other.digits,
            ;
            nearest_keeps_order(mine, divisor, 2 * its, divisor);
            nearest_of_doubled(its, divisor);
        }
    }
}

/// The number lies within half a unit of its last place of a ratio.
pub open spec fn is_near(number: Binary, numerator: nat, denominator: nat) -> bool {
    if number.place >= 0 {
        let unit = pow2(number.place as nat) * denominator;
        -unit <= 2 * (number.digits * unit - numerator) <= unit
    } else {
        let scaled = numerator * pow2((-number.place) as nat);
        -denominator <= 2 * (number.digits * denominator - scaled) <= denominator
    }
}

/// Rounding never moves a ratio by more than half a unit of the last of its fifty-three digits.
pub proof fn nearest_is_near(numerator: nat, denominator: nat)
    requires
        denominator > 0,
    ensures
        is_near(nearest(numerator, denominator), numerator, denominator),
    decreases is_short(numerator, denominator) as int, digits_off(numerator, denominator),
{
    vstd::arithmetic::power2::lemma2_to64();
    nearest_is_canonical(numerator, denominator);
    let number = nearest(numerator, denominator);
    if numerator == 0 {
        assert(1 * denominator == denominator);
        assert(0 * denominator == 0) by (nonlinear_arith);
    } else if is_long(numerator, denominator) {
        let half = nearest(numerator, 2 * denominator);
        nearest_is_near(numerator, 2 * denominator);
        nearest_is_canonical(numerator, 2 * denominator);
        nearest_is_no_fraction(numerator, 2 * denominator);
        vstd::arithmetic::power2::lemma_pow2_unfold(number.place as nat);
        let unit = pow2(half.place as nat);
        assert(unit * (2 * denominator) == 2 * unit * denominator) by (nonlinear_arith);
    } else if is_short(numerator, denominator) {
        let double = nearest(2 * numerator, denominator);
        nearest_is_near(2 * numerator, denominator);
        nearest_is_canonical(2 * numerator, denominator);
        if double.place > 0 {
            vstd::arithmetic::power2::lemma_pow2_unfold(double.place as nat);
            let unit = pow2(number.place as nat);
            assert(2 * unit * denominator == 2 * (unit * denominator)) by (nonlinear_arith);
            assert(number.digits * (2 * (unit * denominator)) == 2 * (number.digits * (unit
                * denominator))) by (nonlinear_arith);
        } else {
            let unit = pow2((-double.place) as nat);
            vstd::arithmetic::power2::lemma_pow2_unfold((-number.place) as nat);
            assert(2 * numerator * unit == numerator * (2 * unit)) by (nonlinear_arith);
            if double.place == 0 {
                assert(1 * denominator == denominator);
                assert(numerator * 2 == 2 * numerator);
            }
        }
    } else {
        crate::time::rounding_stays_within_half_a_unit(numerator, denominator);
        assert(1 * denominator == denominator);
        if number.place == 1 {
            assert(LEAST_DIGITS * (2 * denominator) == 2 * LEAST_DIGITS * denominator)
                by (nonlinear_arith);
        }
    }
}

/// How many of the units that [`Binary::fine`] counts make one.
pub open spec fn one() -> nat {
    pow2(1100)
}

/// A ratio that is not below `2^(52 - k)` rounds to a number that is not smaller.
proof fn nearest_is_not_tiny(numerator: nat, denominator: nat, k: nat)
    requires
        denominator > 0,
        numerator > 0,
        numerator * pow2(k) >= 0x10_0000_0000_0000 * denominator,
    ensures
        nearest(numerator, denominator).place >= -k,
    decreases k,
{
    vstd::arithmetic::power2::lemma2_to64();
    if !is_short(numerator, denominator) {
        nearest_is_no_fraction(numerator, denominator);
    } else {
        assert(numerator * 1 == numerator);
        if k > 0 {
            vstd::arithmetic::power2::lemma_pow2_unfold(k);
            let rest = pow2((k - 1) as nat);
            assert(numerator * (2 * rest) == 2 * numerator * rest) by (nonlinear_arith);
            nearest_is_not_tiny(2 * numerator, denominator, (k - 1) as nat);
        }
    }
}

/// `value * denominator` lies within one part in `2^52` of `exact`.
pub open spec fn is_rounded(value: nat, denominator: nat, exact: nat) -> bool {
    &&& 0x10_0000_0000_0000 * (value * denominator - exact) <= exact
    &&& 0x10_0000_0000_0000 * (exact - value * denominator) <= exact
}

/// Rounding moves nothing by more than one part in `2^52`, whatever the units.
proof fn nearest_is_rounded(numerator: nat, denominator: nat, places: nat)
    requires
        denominator > 0,
        nearest(numerator, denominator).place + places >= 0,
    ensures
        is_rounded(
            nearest(numerator, denominator).digits * pow2(
                (nearest(numerator, denominator).place + places) as nat,
            ),
            denominator,
            numerator * pow2(places),
        ),
{
    let number = nearest(numerator, denominator);
    let scale = pow2(places);
    let value = number.digits * pow2((number.place + places) as nat);
    nearest_is_near(numerator, denominator);
    nearest_is_canonical(numerator, denominator);
    powers_are_in_order(0, places);
    if numerator == 0 {
        assert(0 * pow2((number.place + places) as nat) == 0) by (nonlinear_arith);
        assert(0 * denominator == 0 && 0 * scale == 0) by (nonlinear_arith);
    } else if number.place >= 0 {
        let unit = pow2(number.place as nat) * denominator;
        vstd::arithmetic::power2::lemma_pow2_adds(number.place as nat, places);
        powers_are_in_order(0, number.place as nat);
        let power = pow2(number.place as nat);
        let digits = number.digits;
        assert(value * denominator == digits * unit * scale) by (nonlinear_arith)
            requires
                value == digits * (power * scale),
                unit == power * denominator,
        ;
        rounding_is_scaled(digits * unit, numerator, unit, scale);
        assert(digits * unit >= 0x10_0000_0000_0000 * unit) by (nonlinear_arith)
            requires
                digits >= 0x10_0000_0000_0000,
        ;
        assert(digits * unit * scale >= 0x10_0000_0000_0000 * (unit * scale)) by (nonlinear_arith)
            requires
                digits * unit >= 0x10_0000_0000_0000 * unit,
        ;
    } else {
        let down = (-number.place) as nat;
        let left = (places - down) as nat;
        let power = pow2(left);
        let digits = number.digits;
        vstd::arithmetic::power2::lemma_pow2_adds(down, left);
        let scaled = numerator * pow2(down);
        assert(numerator * scale == scaled * power) by (nonlinear_arith)
            requires
                scale == pow2(down) * power,
                scaled == numerator * pow2(down),
        ;
        assert(value * denominator == digits * denominator * power) by (nonlinear_arith)
            requires
                value == digits * power,
        ;
        rounding_is_scaled(digits * denominator, scaled, denominator, power);
        assert(digits * denominator * power >= 0x10_0000_0000_0000 * (denominator * power))
            by (nonlinear_arith)
            requires
                digits >= 0x10_0000_0000_0000,
        ;
    }
}

proof fn rounding_is_scaled(value: nat, exact: nat, unit: nat, scale: nat)
    requires
        -unit <= 2 * (value - exact) <= unit,
    ensures
        -(unit * scale) <= 2 * (value * scale - exact * scale) <= unit * scale,
{
    assert(2 * (value * scale - exact * scale) <= unit * scale) by (nonlinear_arith)
        requires
            2 * (value - exact) <= unit,
    ;
    assert(-(unit * scale) <= 2 * (value * scale - exact * scale)) by (nonlinear_arith)
        requires
            -unit <= 2 * (value - exact),
    ;
}

/// A ratio of integers, as far as a number of double precision can hold it.
pub proof fn ratios_are_held_closely(number: Binary, factor: nat, divisor: nat, places: nat)
    requires
        number.canonical(),
        number.place >= -900,
        0 < factor,
        0 < divisor <= pow2(places),
        places <= 100,
    ensures
        ({
            let ratio = nearest(number.digits * factor, divisor).scaled(number.place);
            &&& ratio.canonical()
            &&& ratio.place >= number.place - places || ratio.digits == 0
            &&& is_rounded(ratio.fine(), divisor, number.fine() * factor)
        }),
{
    let top = number.digits * factor;
    let inner = nearest(top, divisor);
    let ratio = inner.scaled(number.place);
    nearest_is_canonical(top, divisor);
    powers_are_in_order(0, places);
    let up = (number.place + 1100) as nat;
    assert(number.digits * factor * pow2(up) == number.fine() * factor) by (nonlinear_arith)
        requires
            number.fine() == number.digits * pow2(up),
    ;
    if top == 0 {
        assert(number.digits == 0) by (nonlinear_arith)
            requires
                number.digits * factor == 0,
                factor > 0,
        ;
        assert(0 * pow2(1100) == 0 && 0 * factor == 0 && 0 * divisor == 0) by (nonlinear_arith);
    } else {
        assert(number.digits > 0) by (nonlinear_arith)
            requires
                number.digits * factor > 0,
        ;
        assert(top * pow2(places) >= 0x10_0000_0000_0000 * divisor) by (nonlinear_arith)
            requires
                top == number.digits * factor,
                number.digits >= 0x10_0000_0000_0000,
                factor >= 1,
                pow2(places) >= divisor,
        {
            assert(number.digits * factor >= 0x10_0000_0000_0000);
            assert(top * pow2(places) >= 0x10_0000_0000_0000 * pow2(places));
        }
        nearest_is_not_tiny(top, divisor, places);
        nearest_is_rounded(top, divisor, up);
    }
}

/// A product, as far as a number of double precision can hold it.
pub proof fn products_are_held_closely(number: Binary, other: Binary)
    requires
        number.canonical(),
        other.canonical(),
        number.place >= -400,
        other.place >= -400,
        other.digits > 0,
    ensures
        number.product(other).canonical(),
        number.product(other).place >= number.place + other.place || number.product(other).digits
            == 0,
        is_rounded(number.product(other).fine(), one(), number.fine() * other.fine()),
{
    let top = number.digits * other.digits;
    let inner = nearest(top, 1);
    let product = number.product(other);
    let mine = (number.place + 1100) as nat;
    let its = (other.place + 1100) as nat;
    nearest_is_canonical(top, 1);
    vstd::arithmetic::power2::lemma2_to64();
    if number.digits == 0 {
        assert(top == 0) by (nonlinear_arith)
            requires
                top == number.digits * other.digits,
                number.digits == 0,
        ;
        assert(0 * pow2(1100) == 0 && 0 * other.fine() == 0 && 0 * one() == 0) by (nonlinear_arith);
    } else {
        assert(top >= 0x10_0000_0000_0000) by (nonlinear_arith)
            requires
                top == number.digits * other.digits,
                number.digits >= 0x10_0000_0000_0000,
                other.digits >= 0x10_0000_0000_0000,
        ;
        nearest_is_no_fraction(top, 1);
        let up = (number.place + other.place + 1100) as nat;
        nearest_is_rounded(top, 1, up);
        vstd::arithmetic::power2::lemma_pow2_adds(mine, its);
        vstd::arithmetic::power2::lemma_pow2_adds(up, 1100);
        assert(mine + its == up + 1100);
        let exact = top * pow2(up);
        assert(number.fine() * other.fine() == exact * one()) by (nonlinear_arith)
            requires
                number.fine() == number.digits * pow2(mine),
                other.fine() == other.digits * pow2(its),
                pow2(mine) * pow2(its) == pow2(up) * one(),
                exact == number.digits * other.digits * pow2(up),
        ;
        let value = product.fine();
        let unit = one();
        assert(value * 1 == value);
        assert(0x10_0000_0000_0000 * (value * unit - exact * unit) <= exact * unit)
            by (nonlinear_arith)
            requires
                0x10_0000_0000_0000 * (value - exact) <= exact,
        ;
        assert(0x10_0000_0000_0000 * (exact * unit - value * unit) <= exact * unit)
            by (nonlinear_arith)
            requires
                0x10_0000_0000_0000 * (exact - value) <= exact,
        ;
    }
}

proof fn units_refine(number: Binary, place: int)
    requires
        -1100 <= place <= number.place,
    ensures
        number.units(place) * pow2((place + 1100) as nat) == number.fine(),
{
    let above = (number.place - place) as nat;
    let below = (place + 1100) as nat;
    vstd::arithmetic::power2::lemma_pow2_adds(above, below);
    assert(above + below == number.place + 1100);
    assert(number.digits * pow2(above) * pow2(below) == number.digits * (pow2(above) * pow2(below)))
        by (nonlinear_arith);
}

/// A sum, as far as a number of double precision can hold it.
pub proof fn sums_are_held_closely(number: Binary, other: Binary)
    requires
        number.canonical(),
        other.canonical(),
        number.place >= -1000,
        other.place >= -1000,
    ensures
        number.plus(other).canonical(),
        number.plus(other).place >= number.lower_place(other),
        is_rounded(number.plus(other).fine(), 1, number.fine() + other.fine()),
{
    assert(0 * pow2(1100) == 0) by (nonlinear_arith);
    let sum = number.plus(other);
    assert(sum.fine() * 1 == sum.fine());
    if number.digits != 0 && other.digits != 0 {
        let place = number.lower_place(other);
        let top = number.units(place) + other.units(place);
        let up = (place + 1100) as nat;
        nearest_is_canonical(top, 1);
        vstd::arithmetic::power2::lemma2_to64();
        powers_are_in_order(0, (number.place - place) as nat);
        assert(number.units(place) >= number.digits) by (nonlinear_arith)
            requires
                number.units(place) == number.digits * pow2((number.place - place) as nat),
                pow2((number.place - place) as nat) >= 1,
        ;
        nearest_is_no_fraction(top, 1);
        nearest_is_rounded(top, 1, up);
        units_refine(number, place);
        units_refine(other, place);
        assert(top * pow2(up) == number.units(place) * pow2(up) + other.units(place) * pow2(up))
            by (nonlinear_arith)
            requires
                top == number.units(place) + other.units(place),
        ;
    }
}

/// What is left after a difference, as far as a number of double precision can hold it.
pub proof fn differences_are_held_closely(number: Binary, other: Binary)
    requires
        number.canonical(),
        other.canonical(),
        number.place >= -1000,
        other.place >= -1000,
    ensures
        number.minus(other).canonical(),
        number.fine() <= other.fine() ==> number.minus(other).fine() == 0,
        number.fine() > other.fine() ==> is_rounded(
            number.minus(other).fine(),
            1,
            (number.fine() - other.fine()) as nat,
        ),
{
    let place = number.lower_place(other);
    let up = (place + 1100) as nat;
    let rest = number.minus(other);
    order_is_numeric(number, other);
    units_refine(number, place);
    units_refine(other, place);
    powers_are_in_order(0, up);
    assert(0 * pow2(1100) == 0) by (nonlinear_arith);
    assert(rest.fine() * 1 == rest.fine());
    let mine = number.units(place);
    let its = other.units(place);
    let power = pow2(up);
    assert(mine <= its <==> mine * power <= its * power) by (nonlinear_arith)
        requires
            power > 0,
    ;
    if !number.at_most(other) && other.digits != 0 {
        let top = (mine - its) as nat;
        nearest_is_canonical(top, 1);
        // Every unit counts, so the difference is at least one of them.
        vstd::arithmetic::power2::lemma2_to64();
        vstd::arithmetic::power2::lemma2_to64_rest();
        assert(top * pow2(52) >= 0x10_0000_0000_0000) by (nonlinear_arith)
            requires
                top >= 1,
                pow2(52) == 0x10_0000_0000_0000,
        ;
        nearest_is_not_tiny(top, 1, 52);
        nearest_is_rounded(top, 1, up);
        assert(top * power == mine * power - its * power) by (nonlinear_arith)
            requires
                top == mine - its,
        ;
    }
}

/// An integer, as far as a number of double precision can hold it.
pub proof fn integers_are_held_closely(value: nat)
    ensures
        whole(value).canonical(),
        whole(value).place >= -52,
        is_rounded(whole(value).fine(), 1, value * one()),
{
    nearest_is_canonical(value, 1);
    vstd::arithmetic::power2::lemma2_to64();
    vstd::arithmetic::power2::lemma2_to64_rest();
    if value > 0 {
        assert(value * pow2(52) >= 0x10_0000_0000_0000) by (nonlinear_arith)
            requires
                value >= 1,
                pow2(52) == 0x10_0000_0000_0000,
        ;
        nearest_is_not_tiny(value, 1, 52);
    }
    nearest_is_rounded(value, 1, 1100);
}

/// A fraction of two integers, as far as a number of double precision can hold it.
pub proof fn fractions_are_held_closely(numerator: nat, denominator: nat)
    requires
        numerator > 0,
        0 < denominator <= 0x1_0000_0000,
    ensures
        nearest(numerator, denominator).canonical(),
        nearest(numerator, denominator).digits > 0,
        nearest(numerator, denominator).place >= -84,
        is_rounded(nearest(numerator, denominator).fine(), denominator, numerator * one()),
{
    nearest_is_canonical(numerator, denominator);
    vstd::arithmetic::power2::lemma2_to64();
    vstd::arithmetic::power2::lemma2_to64_rest();
    vstd::arithmetic::power2::lemma_pow2_adds(52, 32);
    let power = pow2(84);
    assert(numerator * power >= 0x10_0000_0000_0000 * denominator) by (nonlinear_arith)
        requires
            numerator >= 1,
            power == 0x10_0000_0000_0000 * 0x1_0000_0000,
            denominator <= 0x1_0000_0000,
    ;
    nearest_is_not_tiny(numerator, denominator, 84);
    nearest_is_rounded(numerator, denominator, 1100);
}

/// The nearest integer to a multiple of a number is off by half at most.
pub proof fn integers_are_near(number: Binary, factor: nat)
    requires
        number.place >= -1100,
    ensures
        2 * (number.rounded_times(factor) * one() - number.fine() * factor) <= one(),
        2 * (number.fine() * factor - number.rounded_times(factor) * one()) <= one(),
{
    let whole = number.rounded_times(factor);
    powers_are_in_order(0, 1100);
    if number.place >= 0 {
        let power = pow2(number.place as nat);
        vstd::arithmetic::power2::lemma_pow2_adds(number.place as nat, 1100);
        assert(whole * one() == number.fine() * factor) by (nonlinear_arith)
            requires
                whole == number.digits * power * factor,
                number.fine() == number.digits * (power * one()),
        ;
    } else {
        let down = (-number.place) as nat;
        let left = (1100 - down) as nat;
        let unit = pow2(down);
        let power = pow2(left);
        vstd::arithmetic::power2::lemma_pow2_adds(down, left);
        powers_are_in_order(0, down);
        let top = number.digits * factor;
        crate::time::rounding_stays_within_half_a_unit(top, unit);
        rounding_is_scaled(whole * unit, top, unit, power);
        assert(whole * unit * power == whole * one()) by (nonlinear_arith)
            requires
                one() == unit * power,
        ;
        assert(top * power == number.fine() * factor) by (nonlinear_arith)
            requires
                number.fine() == number.digits * power,
                top == number.digits * factor,
        ;
    }
}

/// `value * denominator` lies within one part in `parts` of `exact`.
pub open spec fn is_close(value: nat, denominator: nat, exact: nat, parts: nat) -> bool {
    &&& parts * (value * denominator - exact) <= exact
    &&& parts * (exact - value * denominator) <= exact
}

/// What is rounded is close.
pub proof fn rounded_is_close(value: nat, denominator: nat, exact: nat, parts: nat)
    requires
        is_rounded(value, denominator, exact),
        parts <= 0x10_0000_0000_0000,
    ensures
        is_close(value, denominator, exact, parts),
{
    let over = value * denominator - exact;
    assert(parts * over <= exact) by (nonlinear_arith)
        requires
            0x10_0000_0000_0000 * over <= exact,
            parts <= 0x10_0000_0000_0000,
            exact >= 0,
    {
        if over >= 0 {
            assert(parts * over <= 0x10_0000_0000_0000 * over);
        } else {
            assert(parts * over <= 0);
        }
    }
    let under = exact - value * denominator;
    assert(parts * under <= exact) by (nonlinear_arith)
        requires
            0x10_0000_0000_0000 * under <= exact,
            parts <= 0x10_0000_0000_0000,
            exact >= 0,
    {
        if under >= 0 {
            assert(parts * under <= 0x10_0000_0000_0000 * under);
        } else {
            assert(parts * under <= 0);
        }
    }
}

/// One more operation loses one more digit at most.
pub proof fn closeness_is_halved(
    value: nat,
    denominator: nat,
    exact: nat,
    parts: nat,
    next: nat,
    factor: nat,
    divisor: nat,
)
    requires
        0 < parts <= 0x4_0000_0000_0000,
        is_close(value, denominator, exact, 2 * parts),
        is_rounded(next, divisor, value * factor),
    ensures
        is_close(next, denominator * divisor, exact * factor, parts),
{
    let first = value * denominator - exact;
    let second = next * divisor - value * factor;
    let error = next * (denominator * divisor) - exact * factor;
    assert(error == denominator * second + factor * first) by (nonlinear_arith)
        requires
            first == value * denominator - exact,
            second == next * divisor - value * factor,
            error == next * (denominator * divisor) - exact * factor,
    ;
    assert(first <= exact) by (nonlinear_arith)
        requires
            2 * parts * first <= exact,
            parts >= 1,
            exact >= 0,
    ;
    let total = exact * factor;
    // Both errors are half of what is admitted at most.
    assert(2 * (parts * (factor * first)) <= total && -total <= 2 * (parts * (factor * first)))
        by (nonlinear_arith)
        requires
            2 * parts * first <= exact,
            2 * parts * (-first) <= exact,
            total == exact * factor,
    ;
    let spread = value * factor * denominator;
    assert(spread <= 2 * total) by (nonlinear_arith)
        requires
            spread == value * factor * denominator,
            value * denominator <= 2 * exact,
            total == exact * factor,
    ;
    assert(0x10_0000_0000_0000 * (denominator * second) <= spread && -spread
        <= 0x10_0000_0000_0000 * (denominator * second)) by (nonlinear_arith)
        requires
            0x10_0000_0000_0000 * second <= value * factor,
            0x10_0000_0000_0000 * (-second) <= value * factor,
            spread == value * factor * denominator,
    ;
    let part = denominator * second;
    assert(2 * (parts * part) <= total && -total <= 2 * (parts * part)) by (nonlinear_arith)
        requires
            0x10_0000_0000_0000 * part <= 2 * total,
            -2 * total <= 0x10_0000_0000_0000 * part,
            0 < parts <= 0x4_0000_0000_0000,
            total >= 0,
    {
        assert(parts * (0x10_0000_0000_0000 * part) <= parts * (2 * total));
        assert(parts * (2 * total) <= 0x4_0000_0000_0000 * (2 * total));
        assert(parts * (-2 * total) <= parts * (0x10_0000_0000_0000 * part));
    }
    assert(parts * error == parts * part + parts * (factor * first)) by (nonlinear_arith)
        requires
            error == part + factor * first,
    ;
    assert(parts * (-error) == -(parts * error)) by (nonlinear_arith);
    assert(total >= 0) by (nonlinear_arith)
        requires
            total == exact * factor,
    ;
}

/// The order of numbers is that of what they stand for.
pub proof fn order_is_numeric(number: Binary, other: Binary)
    requires
        number.canonical(),
        other.canonical(),
    ensures
        ({
            let place = number.lower_place(other);
            number.at_most(other) <==> number.units(place) <= other.units(place)
        }),
{
    let place = number.lower_place(other);
    let mine = (number.place - place) as nat;
    let its = (other.place - place) as nat;
    vstd::arithmetic::power2::lemma2_to64();
    powers_are_in_order(0, mine);
    powers_are_in_order(0, its);
    assert(number.digits * pow2(mine) >= number.digits) by (nonlinear_arith)
        requires
            pow2(mine) >= 1,
    ;
    assert(other.digits * pow2(its) >= other.digits) by (nonlinear_arith)
        requires
            pow2(its) >= 1,
    ;
    assert(0 * pow2(mine) == 0 && 0 * pow2(its) == 0) by (nonlinear_arith);
    assert(number.digits * 1 == number.digits && other.digits * 1 == other.digits);
    if mine > 0 {
        powers_are_in_order(1, mine);
        assert(number.digits * pow2(mine) >= 2 * number.digits) by (nonlinear_arith)
            requires
                pow2(mine) >= 2,
        ;
    }
    if its > 0 {
        powers_are_in_order(1, its);
        assert(other.digits * pow2(its) >= 2 * other.digits) by (nonlinear_arith)
            requires
                pow2(its) >= 2,
        ;
    }
}

/// The order of numbers is that of what they stand for, in the finest units.
pub proof fn order_is_that_of_fine_units(number: Binary, other: Binary)
    requires
        number.canonical(),
        other.canonical(),
        number.place >= -1100,
        other.place >= -1100,
    ensures
        number.at_most(other) <==> number.fine() <= other.fine(),
{
    let place = number.lower_place(other);
    order_is_numeric(number, other);
    units_refine(number, place);
    units_refine(other, place);
    let power = pow2((place + 1100) as nat);
    powers_are_in_order(0, (place + 1100) as nat);
    let mine = number.units(place);
    let its = other.units(place);
    assert(mine <= its <==> mine * power <= its * power) by (nonlinear_arith)
        requires
            power > 0,
    ;
}

/// The ceiling of a number is the least integer that is no smaller.
pub proof fn ceilings_are_the_least(number: Binary)
    requires
        number.place >= -1100,
    ensures
        number.ceiling() * one() >= number.fine(),
        (number.ceiling() - 1) * one() < number.fine() || number.ceiling() == 0,
{
    let whole = number.ceiling();
    powers_are_in_order(0, 1100);
    if number.place >= 0 {
        let power = pow2(number.place as nat);
        vstd::arithmetic::power2::lemma_pow2_adds(number.place as nat, 1100);
        assert(whole * one() == number.fine()) by (nonlinear_arith)
            requires
                whole == number.digits * power,
                number.fine() == number.digits * (power * one()),
        ;
        assert((whole - 1) * one() == whole * one() - one()) by (nonlinear_arith);
    } else {
        let down = (-number.place) as nat;
        let left = (1100 - down) as nat;
        let unit = pow2(down);
        let power = pow2(left);
        vstd::arithmetic::power2::lemma_pow2_adds(down, left);
        powers_are_in_order(0, down);
        powers_are_in_order(0, left);
        let digits = number.digits;
        vstd::arithmetic::div_mod::lemma_fundamental_div_mod(digits + unit - 1, unit as int);
        assert(0 <= (digits + unit - 1) / unit as int) by {
            vstd::arithmetic::div_mod::lemma_div_pos_is_pos(digits + unit - 1, unit as int);
        }
        assert(unit * whole >= digits && unit * (whole - 1) < digits) by (nonlinear_arith)
            requires
                digits + unit - 1 == unit * whole + (digits + unit - 1) % (unit as int),
                0 <= (digits + unit - 1) % (unit as int) < unit,
        ;
        assert(whole * one() >= number.fine() && (whole - 1) * one() < number.fine())
            by (nonlinear_arith)
            requires
                one() == unit * power,
                number.fine() == digits * power,
                unit * whole >= digits,
                unit * (whole - 1) < digits,
                power > 0,
        {
            assert(unit * whole * power >= digits * power);
            assert(unit * (whole - 1) * power < digits * power);
            assert(whole * (unit * power) == unit * whole * power);
            assert((whole - 1) * (unit * power) == unit * (whole - 1) * power);
        }
    }
}

proof fn ceilings_at_one_place(digits: nat, more: nat, place: int)
    requires
        digits <= more,
    ensures
        (Binary { digits, place }).ceiling() <= (Binary { digits: more, place }).ceiling(),
{
    if place >= 0 {
        assert(digits * pow2(place as nat) <= more * pow2(place as nat)) by (nonlinear_arith)
            requires
                digits <= more,
        ;
    } else {
        let unit = pow2((-place) as nat);
        powers_are_in_order(0, (-place) as nat);
        vstd::arithmetic::power2::lemma2_to64();
        vstd::arithmetic::div_mod::lemma_div_is_ordered(
            digits + unit - 1,
            more + unit - 1,
            unit as int,
        );
        vstd::arithmetic::div_mod::lemma_div_pos_is_pos(digits + unit - 1, unit as int);
    }
}

proof fn ceilings_at_the_next_place(digits: nat, place: int)
    ensures
        (Binary { digits: 2 * digits, place }).ceiling() == (Binary {
            digits,
            place: place + 1,
        }).ceiling(),
{
    vstd::arithmetic::power2::lemma2_to64();
    if place >= 0 {
        vstd::arithmetic::power2::lemma_pow2_unfold((place + 1) as nat);
        let unit = pow2(place as nat);
        assert(digits * (2 * unit) == 2 * digits * unit) by (nonlinear_arith);
    } else {
        let half = pow2((-place - 1) as nat);
        vstd::arithmetic::power2::lemma_pow2_unfold((-place) as nat);
        powers_are_in_order(0, (-place - 1) as nat);
        let quotient = (digits + half - 1) / half as int;
        let rest = (digits + half - 1) % half as int;
        vstd::arithmetic::div_mod::lemma_fundamental_div_mod(digits + half - 1, half as int);
        assert(2 * digits + 2 * half - 1 == quotient * (2 * half) + (2 * rest + 1))
            by (nonlinear_arith)
            requires
                digits + half - 1 == half * quotient + rest,
        ;
        vstd::arithmetic::div_mod::lemma_fundamental_div_mod_converse(
            2 * digits + 2 * half - 1,
            2 * half as int,
            quotient,
            2 * rest + 1,
        );
        if place == -1 {
            assert(half * quotient == quotient) by (nonlinear_arith)
                requires
                    half == 1,
            ;
            assert(quotient == digits);
            assert(digits * pow2(0) == digits);
        }
    }
}

/// A larger number has no smaller ceiling.
pub proof fn ceilings_keep_order(number: Binary, other: Binary)
    requires
        number.canonical(),
        other.canonical(),
        number.at_most(other),
    ensures
        number.ceiling() <= other.ceiling(),
    decreases other.place - number.place,
{
    if number.digits == 0 {
        assert(0 * pow2(0) == 0);
    } else if number.place == other.place {
        ceilings_at_one_place(number.digits, other.digits, number.place);
    } else {
        let next = Binary { digits: LEAST_DIGITS as nat, place: number.place + 1 };
        ceilings_at_one_place(number.digits, 2 * LEAST_DIGITS as nat, number.place);
        ceilings_at_the_next_place(LEAST_DIGITS as nat, number.place);
        ceilings_keep_order(next, other);
    }
}

/// A number of double precision that is not negative.
#[derive(Clone, Copy, Debug, PartialEq, Eq, Structural)]
pub struct Double {
    pub digits: u64,
    pub place: i32,
}

impl View for Double {
    type V = Binary;

    open spec fn view(&self) -> Binary {
        Binary { digits: self.digits as nat, place: self.place as int }
    }
}

impl Double {
    /// The number has fifty-three digits, or is zero, and its place is one that double precision
    /// has.
    pub open spec fn wf(self) -> bool {
        self@.canonical() && -1074 <= self.place <= 971
    }

    /// The number is far from the largest and the smallest ones.
    pub open spec fn moderate(self) -> bool {
        self@.canonical() && -800 <= self.place <= 800
    }

    /// The number nearest to a ratio.
    pub fn nearest_to(numerator: u128, denominator: u128) -> (number: Self)
        requires
            0 < denominator <= 0x1_0000_0000_0000_0000,
            numerator < u128::MAX,
        ensures
            number.moderate(),
            number@ == nearest(numerator as nat, denominator as nat),
            -129 <= number.place <= 129,
    {
        if numerator == 0 {
            return Double { digits: 0, place: 0 };
        }
        let mut upper: u128 = numerator;
        let mut lower: u128 = denominator;
        let mut place: i32 = 0;
        proof {
            vstd::arithmetic::power2::lemma2_to64();
            assert(denominator * 1 == denominator);
            nearest_is_canonical(numerator as nat, denominator as nat);
        }
        while upper / lower >= 2 * LEAST_DIGITS as u128
            invariant
                upper == numerator,
                0 < upper,
                0 < denominator,
                0 < lower,
                0 <= place <= 128,
                lower == denominator * pow2(place as nat),
                place == 0 ==> lower == denominator,
                place > 0 ==> !is_short(upper as nat, lower as nat),
                nearest(numerator as nat, denominator as nat) == nearest(
                    upper as nat,
                    lower as nat,
                ).scaled(place as int),
            decreases upper - lower,
        {
            proof {
                digits_are_counted(upper, lower);
                places_are_few(lower as nat, denominator as nat, place as nat);
                vstd::arithmetic::power2::lemma_pow2_unfold((place + 1) as nat);
                assert(denominator * (2 * pow2(place as nat)) == 2 * (denominator * pow2(
                    place as nat,
                ))) by (nonlinear_arith);
            }
            lower = 2 * lower;
            place = place + 1;
        }
        let halved: i32 = place;
        proof {
            digits_are_counted(upper, lower);
            assert(numerator * 1 == numerator);
        }
        while upper / lower < LEAST_DIGITS as u128
            invariant
                0 < numerator,
                0 < denominator,
                0 < upper < u128::MAX,
                0 < lower,
                0 <= halved <= 128,
                -128 <= place <= halved,
                upper == numerator * pow2((halved - place) as nat),
                !is_long(upper as nat, lower as nat),
                is_short(upper as nat, lower as nat) ==> lower <= 0x1_0000_0000_0000_0000,
                nearest(numerator as nat, denominator as nat) == nearest(
                    upper as nat,
                    lower as nat,
                ).scaled(place as int),
            decreases 0x20_0000_0000_0000 * lower - upper,
        {
            proof {
                digits_are_counted(upper, lower);
                places_are_few(upper as nat, numerator as nat, (halved - place) as nat);
                vstd::arithmetic::power2::lemma_pow2_unfold((halved - place + 1) as nat);
                assert(numerator * (2 * pow2((halved - place) as nat)) == 2 * (numerator * pow2(
                    (halved - place) as nat,
                ))) by (nonlinear_arith);
            }
            upper = 2 * upper;
            place = place - 1;
        }
        proof {
            digits_are_counted(upper, lower);
            rounding_stays_between(
                upper as nat,
                lower as nat,
                LEAST_DIGITS as nat,
                2 * LEAST_DIGITS as nat,
            );
        }
        let digits: u64 = rounded_ratio(upper, lower) as u64;
        if digits == 2 * LEAST_DIGITS {
            Double { digits: LEAST_DIGITS, place: place + 1 }
        } else {
            Double { digits, place }
        }
    }
    /// The number times `2^by`.
    fn scale(self, by: i32) -> (number: Self)
        requires
            -129 <= self.place <= 129,
            -900 <= by <= 830,
            self@.canonical(),
        ensures
            number.wf(),
            number@ == self@.scaled(by as int),
            number.digits == 0 || number.place == self.place + by,
    {
        if self.digits == 0 {
            self
        } else {
            Double { digits: self.digits, place: self.place + by }
        }
    }

    /// The number nearest to an integer.
    pub fn whole(value: u128) -> (number: Self)
        requires
            value < u128::MAX,
        ensures
            number.moderate(),
            number@ == whole(value as nat),
            -129 <= number.place <= 129,
    {
        Double::nearest_to(value, 1)
    }

    /// The number times an integer.
    pub fn times(self, factor: u64) -> (number: Self)
        requires
            self.moderate(),
        ensures
            number.wf(),
            number@ == self@.times(factor as nat),
            number.digits == 0 || self.place - 129 <= number.place <= self.place + 129,
    {
        let digits: u128 = self.digits as u128;
        let wide: u128 = factor as u128;
        assert(0 <= digits * wide <= 0x20_0000_0000_0000 * 0xffff_ffff_ffff_ffff)
            by (nonlinear_arith)
            requires
                digits <= 0x20_0000_0000_0000,
                wide <= 0xffff_ffff_ffff_ffff,
        ;
        Double::nearest_to(digits * wide, 1).scale(self.place)
    }

    /// The number over an integer.
    pub fn over(self, divisor: u64) -> (number: Self)
        requires
            self.moderate(),
            divisor > 0,
        ensures
            number.wf(),
            number@ == self@.over(divisor as nat),
            number.digits == 0 || self.place - 129 <= number.place <= self.place + 129,
    {
        Double::nearest_to(self.digits as u128, divisor as u128).scale(self.place)
    }

    /// The product of two numbers.
    pub fn product(self, other: Self) -> (number: Self)
        requires
            self.moderate(),
            other.moderate(),
            -800 <= self.place + other.place <= 800,
        ensures
            number.wf(),
            number@ == self@.product(other@),
    {
        let digits: u128 = self.digits as u128;
        let more: u128 = other.digits as u128;
        assert(0 <= digits * more <= 0x20_0000_0000_0000 * 0x20_0000_0000_0000)
            by (nonlinear_arith)
            requires
                digits <= 0x20_0000_0000_0000,
                more <= 0x20_0000_0000_0000,
        ;
        Double::nearest_to(digits * more, 1).scale(self.place + other.place)
    }

    /// Whether the number is no larger than the other one.
    pub fn at_most(self, other: Self) -> (at_most: bool)
        ensures
            at_most == self@.at_most(other@),
    {
        self.digits == 0 || (other.digits != 0 && (self.place < other.place || (self.place
            == other.place && self.digits <= other.digits)))
    }

    /// The smaller of two numbers.
    pub fn min(self, other: Self) -> (number: Self)
        ensures
            number@ == self@.min(other@),
    {
        if self.at_most(other) {
            self
        } else {
            other
        }
    }
    /// The sum of two numbers.
    pub fn plus(self, other: Self) -> (number: Self)
        requires
            self.moderate(),
            other.moderate(),
        ensures
            number.wf(),
            number@ == self@.plus(other@),
            -929 <= number.place <= 929,
            self.place <= 300 && other.place <= 300 ==> number.place <= 429,
            self.place >= -300 && other.place >= -300 ==> number.place >= -429,
    {
        if self.digits == 0 {
            return other;
        }
        if other.digits == 0 {
            return self;
        }
        let (high, low) = if self.place >= other.place {
            (self, other)
        } else {
            (other, self)
        };
        let shift: u32 = (high.place - low.place) as u32;
        proof {
            vstd::arithmetic::power2::lemma2_to64();
            assert(low@.digits * 1 == low@.digits);
        }
        if shift > 70 {
            proof {
                far_sum(high@, low@);
            }
            return high;
        }
        let unit: u128 = power_of_two(shift);
        let digits: u128 = high.digits as u128;
        proof {
            if shift < 70 {
                vstd::arithmetic::power2::lemma_pow2_strictly_increases(shift as nat, 70);
            }
            vstd::arithmetic::power2::lemma_pow2_adds(64, 6);
            assert(pow2(70) == 0x40_0000_0000_0000_0000);
            assert(0 <= digits * unit <= 0x20_0000_0000_0000 * 0x40_0000_0000_0000_0000)
                by (nonlinear_arith)
                requires
                    digits <= 0x20_0000_0000_0000,
                    unit <= 0x40_0000_0000_0000_0000,
            ;
        }
        Double::nearest_to(digits * unit + low.digits as u128, 1).scale(low.place)
    }

    /// What is left of the number without the other one; nothing where that is larger.
    pub fn minus(self, other: Self) -> (number: Self)
        requires
            self.moderate(),
            other.moderate(),
        ensures
            number.wf(),
            number@ == self@.minus(other@),
    {
        if self.at_most(other) {
            return Double { digits: 0, place: 0 };
        }
        if other.digits == 0 {
            return self;
        }
        let shift: u32 = (self.place - other.place) as u32;
        proof {
            vstd::arithmetic::power2::lemma2_to64();
            assert(other@.digits * 1 == other@.digits);
        }
        if shift > 70 {
            proof {
                far_difference(self@, other@);
            }
            return self;
        }
        let unit: u128 = power_of_two(shift);
        let digits: u128 = self.digits as u128;
        proof {
            if shift < 70 {
                vstd::arithmetic::power2::lemma_pow2_strictly_increases(shift as nat, 70);
            }
            vstd::arithmetic::power2::lemma_pow2_adds(64, 6);
            assert(pow2(70) == 0x40_0000_0000_0000_0000);
            if shift > 0 {
                vstd::arithmetic::power2::lemma_pow2_unfold(shift as nat);
                vstd::arithmetic::power2::lemma_pow2_pos((shift - 1) as nat);
            }
            assert(0 <= digits * unit <= 0x20_0000_0000_0000 * 0x40_0000_0000_0000_0000)
                by (nonlinear_arith)
                requires
                    digits <= 0x20_0000_0000_0000,
                    unit <= 0x40_0000_0000_0000_0000,
            ;
            assert(digits * unit >= digits) by (nonlinear_arith)
                requires
                    unit >= 1,
            ;
            if shift > 0 {
                assert(digits * unit >= 2 * digits) by (nonlinear_arith)
                    requires
                        unit >= 2,
                ;
            }
        }
        Double::nearest_to(digits * unit - other.digits as u128, 1).scale(other.place)
    }

    /// The integer nearest to the number times `factor`.
    pub fn rounded_times(self, factor: u64) -> (rounded: u128)
        requires
            self@.canonical(),
            -1074 <= self.place < 64,
            self.place >= 0 ==> self@.rounded_times(factor as nat) <= u128::MAX,
        ensures
            rounded == self@.rounded_times(factor as nat),
    {
        let digits: u128 = self.digits as u128;
        let wide: u128 = factor as u128;
        if self.place >= 0 {
            let unit: u128 = power_of_two(self.place as u32);
            proof {
                vstd::arithmetic::power2::lemma2_to64();
                vstd::arithmetic::power2::lemma_pow2_strictly_increases(self.place as nat, 64);
                assert(0 <= digits * unit <= 0x20_0000_0000_0000 * 0x1_0000_0000_0000_0000)
                    by (nonlinear_arith)
                    requires
                        digits <= 0x20_0000_0000_0000,
                        unit <= 0x1_0000_0000_0000_0000,
                ;
            }
            return digits * unit * wide;
        }
        assert(0 <= digits * wide <= 0x20_0000_0000_0000 * 0xffff_ffff_ffff_ffff)
            by (nonlinear_arith)
            requires
                digits <= 0x20_0000_0000_0000,
                wide <= 0xffff_ffff_ffff_ffff,
        ;
        let halvings: u32 = (-self.place) as u32;
        proof {
            vstd::arithmetic::power2::lemma2_to64();
            vstd::arithmetic::power2::lemma2_to64_rest();
            vstd::arithmetic::power2::lemma_pow2_adds(64, 56);
            vstd::arithmetic::power2::lemma_pow2_pos(halvings as nat);
            assert(pow2(120) == 0x100_0000_0000_0000 * 0x1_0000_0000_0000_0000);
        }
        if halvings >= 120 {
            proof {
                if halvings > 120 {
                    vstd::arithmetic::power2::lemma_pow2_strictly_increases(120, halvings as nat);
                }
                vstd::arithmetic::div_mod::lemma_basic_div(
                    (digits * wide) as int,
                    pow2(halvings as nat) as int,
                );
                vstd::arithmetic::div_mod::lemma_small_mod(
                    (digits * wide) as nat,
                    pow2(halvings as nat),
                );
            }
            return 0;
        }
        rounded_ratio(digits * wide, power_of_two(halvings))
    }

    /// The least integer that is no smaller than the number, but no more than `limit`.
    pub fn ceiling_within(self, limit: usize) -> (rounded: usize)
        requires
            self@.canonical(),
            -1074 <= self.place <= 971,
        ensures
            rounded == if self@.ceiling() <= limit {
                self@.ceiling()
            } else {
                limit as nat
            },
    {
        let digits: u128 = self.digits as u128;
        proof {
            vstd::arithmetic::power2::lemma2_to64();
        }
        if self.digits == 0 {
            assert(0 * pow2(0) == 0);
            return 0;
        }
        if self.place >= 64 {
            proof {
                if self.place > 64 {
                    vstd::arithmetic::power2::lemma_pow2_strictly_increases(64, self.place as nat);
                }
                assert(digits * pow2(self.place as nat) >= 0x1_0000_0000_0000_0000)
                    by (nonlinear_arith)
                    requires
                        digits >= 1,
                        pow2(self.place as nat) >= 0x1_0000_0000_0000_0000,
                ;
            }
            return limit;
        }
        let whole: u128 = if self.place >= 0 {
            let unit: u128 = power_of_two(self.place as u32);
            proof {
                vstd::arithmetic::power2::lemma_pow2_strictly_increases(self.place as nat, 64);
                assert(0 <= digits * unit <= 0x20_0000_0000_0000 * 0x1_0000_0000_0000_0000)
                    by (nonlinear_arith)
                    requires
                        digits <= 0x20_0000_0000_0000,
                        unit <= 0x1_0000_0000_0000_0000,
                ;
            }
            digits * unit
        } else {
            let halvings: u32 = (-self.place) as u32;
            if halvings >= 64 {
                proof {
                    let unit = pow2(halvings as nat);
                    if halvings > 64 {
                        vstd::arithmetic::power2::lemma_pow2_strictly_increases(
                            64,
                            halvings as nat,
                        );
                    }
                    assert((digits + unit - 1) / unit as int == 1) by {
                        vstd::arithmetic::div_mod::lemma_fundamental_div_mod_converse(
                            digits + unit - 1,
                            unit as int,
                            1,
                            digits - 1,
                        );
                    }
                }
                1
            } else {
                let unit: u128 = power_of_two(halvings);
                proof {
                    vstd::arithmetic::power2::lemma_pow2_strictly_increases(halvings as nat, 64);
                    vstd::arithmetic::power2::lemma_pow2_pos(halvings as nat);
                }
                (digits + unit - 1) / unit
            }
        };
        if whole <= limit as u128 {
            whole as usize
        } else {
            limit
        }
    }
}

/// A power of two.
fn power_of_two(place: u32) -> (power: u128)
    requires
        place < 128,
    ensures
        power == pow2(place as nat),
        power > 0,
{
    let mut power: u128 = 1;
    let mut doubled: u32 = 0;
    proof {
        vstd::arithmetic::power2::lemma2_to64();
    }
    while doubled < place
        invariant
            doubled <= place < 128,
            power == pow2(doubled as nat),
            power > 0,
        decreases place - doubled,
    {
        proof {
            vstd::arithmetic::power2::lemma_pow2_unfold((doubled + 1) as nat);
            vstd::arithmetic::power2::lemma2_to64();
            vstd::arithmetic::power2::lemma2_to64_rest();
            vstd::arithmetic::power2::lemma_pow2_adds(64, 63);
            assert(pow2(127) == 0x8000_0000_0000_0000 * 0x1_0000_0000_0000_0000);
            if doubled + 1 < 127 {
                vstd::arithmetic::power2::lemma_pow2_strictly_increases(
                    (doubled + 1) as nat,
                    127,
                );
            }
        }
        power = 2 * power;
        doubled = doubled + 1;
    }
    power
}

/// A number is too small to change another one by being added to it.
proof fn far_sum(high: Binary, low: Binary)
    requires
        high.canonical(),
        low.canonical(),
        high.digits > 0,
        low.digits > 0,
        high.place > low.place + 70,
    ensures
        nearest(
            high.digits * pow2((high.place - low.place) as nat) + low.digits,
            1,
        ).scaled(low.place) == high,
{
    let shift = (high.place - low.place) as nat;
    let unit = pow2(shift);
    let sum = high.digits * unit + low.digits;
    vstd::arithmetic::power2::lemma2_to64();
    vstd::arithmetic::power2::lemma_pow2_strictly_increases(64, shift);
    assert(1 * unit == unit);
    assert(high.digits * unit >= 0x10_0000_0000_0000 * unit) by (nonlinear_arith)
        requires
            high.digits >= 0x10_0000_0000_0000,
    ;
    assert((high.digits + 1) * unit == high.digits * unit + unit) by (nonlinear_arith);
    assert((high.digits + 1) * unit <= 0x20_0000_0000_0000 * unit) by (nonlinear_arith)
        requires
            high.digits + 1 <= 0x20_0000_0000_0000,
    ;
    nearest_of_halves(sum, 1, shift);
    assert(high.digits * unit == unit * high.digits) by (nonlinear_arith);
    vstd::arithmetic::div_mod::lemma_fundamental_div_mod_converse(
        sum as int,
        unit as int,
        high.digits as int,
        low.digits as int,
    );
}

/// A number is too small to change another one by being taken from it.
proof fn far_difference(high: Binary, low: Binary)
    requires
        high.canonical(),
        low.canonical(),
        high.digits > 0,
        low.digits > 0,
        high.place > low.place + 70,
    ensures
        high.digits * pow2((high.place - low.place) as nat) > low.digits,
        nearest(
            (high.digits * pow2((high.place - low.place) as nat) - low.digits) as nat,
            1,
        ).scaled(low.place) == high,
{
    let shift = (high.place - low.place) as nat;
    let half = (shift - 1) as nat;
    let unit = pow2(shift);
    vstd::arithmetic::power2::lemma2_to64();
    vstd::arithmetic::power2::lemma_pow2_strictly_increases(64, half);
    vstd::arithmetic::power2::lemma_pow2_unfold(shift);
    assert(1 * unit == unit);
    assert(1 * pow2(half) == pow2(half));
    assert(high.digits * unit >= 0x10_0000_0000_0000 * unit) by (nonlinear_arith)
        requires
            high.digits >= 0x10_0000_0000_0000,
    ;
    let difference = (high.digits * unit - low.digits) as nat;
    if high.digits > LEAST_DIGITS {
        let below = (high.digits - 1) as nat;
        assert(high.digits * unit == below * unit + unit) by (nonlinear_arith)
            requires
                high.digits == below + 1,
        ;
        assert(below * unit >= 0x10_0000_0000_0000 * unit) by (nonlinear_arith)
            requires
                below >= 0x10_0000_0000_0000,
        ;
        assert(high.digits * unit <= 0x20_0000_0000_0000 * unit) by (nonlinear_arith)
            requires
                high.digits <= 0x20_0000_0000_0000,
        ;
        nearest_of_halves(difference, 1, shift);
        assert(below * unit == unit * below) by (nonlinear_arith);
        vstd::arithmetic::div_mod::lemma_fundamental_div_mod_converse(
            difference as int,
            unit as int,
            below as int,
            unit - low.digits,
        );
    } else {
        // The difference lies just under the least number of fifty-three digits, where the
        // places are half as far apart.
        let fine = pow2(half);
        assert(high.digits * unit == 0x20_0000_0000_0000 * fine);
        nearest_of_halves(difference, 1, half);
        vstd::arithmetic::div_mod::lemma_fundamental_div_mod_converse(
            difference as int,
            fine as int,
            0x1f_ffff_ffff_ffff,
            fine - low.digits,
        );
    }
}

proof fn places_are_few(value: nat, base: nat, place: nat)
    requires
        base > 0,
        value == base * pow2(place),
        value < 0x1_0000_0000_0000_0000_0000_0000_0000_0000,
    ensures
        place < 128,
{
    if place >= 128 {
        if place > 128 {
            vstd::arithmetic::power2::lemma_pow2_strictly_increases(128, place);
        }
        vstd::arithmetic::power2::lemma2_to64();
        vstd::arithmetic::power2::lemma_pow2_adds(64, 64);
        assert(base * pow2(place) >= pow2(place)) by (nonlinear_arith)
            requires
                base > 0,
        ;
        assert(pow2(64) * pow2(64) == 0x1_0000_0000_0000_0000_0000_0000_0000_0000)
            by (nonlinear_arith)
            requires
                pow2(64) == 0x1_0000_0000_0000_0000,
        ;
    }
}

proof fn digits_are_counted(upper: u128, lower: u128)
    requires
        lower > 0,
    ensures
        is_long(upper as nat, lower as nat) <==> upper / lower >= 0x20_0000_0000_0000,
        is_short(upper as nat, lower as nat) <==> upper / lower < 0x10_0000_0000_0000,
{
    let quotient = upper / lower;
    vstd::arithmetic::div_mod::lemma_fundamental_div_mod(upper as int, lower as int);
    assert(upper >= 0x20_0000_0000_0000 * lower <==> quotient >= 0x20_0000_0000_0000)
        by (nonlinear_arith)
        requires
            lower > 0,
            upper == lower * quotient + upper % lower,
            0 <= upper % lower < lower,
    ;
    assert(upper < 0x10_0000_0000_0000 * lower <==> quotient < 0x10_0000_0000_0000)
        by (nonlinear_arith)
        requires
            lower > 0,
            upper == lower * quotient + upper % lower,
            0 <= upper % lower < lower,
    ;
}

} // verus!
