//! Percentages held as exact fractions, and numbers written out as text.

use crate::finance::decimal::{Decimal, UNITS_PER_ONE};
use crate::text::{decimal_digits, padded_digits, push_number, push_padded, round_half_even};
use vstd::arithmetic::div_mod::lemma_fundamental_div_mod_converse;
use vstd::prelude::*;
use vstd::string::StringExecFns;

verus! {

/// A percentage held exactly: `numerator / denominator` percent.
#[derive(Clone, Copy, Debug, PartialEq, Eq, Structural)]
pub struct Percent {
    pub numerator: i128,
    pub denominator: u64,
}

impl Percent {
    /// A percentage is a fraction: its denominator is never zero.
    pub open spec fn wf(&self) -> bool {
        self.denominator > 0
    }

    /// Whether `self` is a smaller percentage than `other`.
    pub open spec fn less_than(&self, other: Percent) -> bool {
        self.numerator * other.denominator < other.numerator * self.denominator
    }

    /// Whether the percentage is above zero.
    pub open spec fn is_positive(&self) -> bool {
        self.numerator > 0
    }
}

impl View for Percent {
    type V = Percent;

    open spec fn view(&self) -> Percent {
        *self
    }
}

impl DeepView for Percent {
    type V = Percent;

    open spec fn deep_view(&self) -> Percent {
        *self
    }
}

/// The distance of `x` from zero.
pub open spec fn magnitude(x: int) -> nat {
    if x < 0 {
        (-x) as nat
    } else {
        x as nat
    }
}

/// A count of hundredths written with two places: `1234` is `12.34`.
pub open spec fn two_places(hundredths: nat) -> Seq<char> {
    decimal_digits(hundredths / 100) + seq!['.'] + padded_digits(hundredths % 100, 2)
}

/// The fraction `n / d` written with two places, rounded half to even.
pub open spec fn ratio_text(n: nat, d: nat) -> Seq<char> {
    two_places(round_half_even(n * 100, d))
}

/// How many places behind the point a percentage is written with at most.
pub const PERCENT_PLACES: u32 = 15;

/// How many of the smallest steps that a percentage is written in make one.
pub const PERCENT_UNIT: u64 = 1_000_000_000_000_000;

/// The last `width` decimal digits of `frac` without the zeros at their end.
pub open spec fn fraction_text(frac: nat, width: nat) -> Seq<char>
    decreases width,
{
    if width == 0 {
        Seq::<char>::empty()
    } else if frac % 10 == 0 {
        fraction_text(frac / 10, (width - 1) as nat)
    } else {
        padded_digits(frac, width)
    }
}

/// A whole number and a fraction of `places` digits written as short as they
/// can be: the whole number alone where the fraction is zero, otherwise with
/// the fractional digits up to the last that is not zero.
pub open spec fn short_text(whole: nat, frac: nat, places: nat) -> Seq<char> {
    if frac == 0 {
        decimal_digits(whole)
    } else {
        decimal_digits(whole) + seq!['.'] + fraction_text(frac, places)
    }
}

/// A percentage written as short as it can be: rounded to fifteen places, a
/// tie going to the even neighbour, and then without the zeros at the end, and
/// without a point where nothing is left behind it. A percentage that has a
/// decimal form of up to fifteen places is so written exactly. A minus sign
/// stands only where what is written is not zero.
pub open spec fn percent_text(p: Percent) -> Seq<char> {
    let steps = round_half_even(
        magnitude(p.numerator as int) * (PERCENT_UNIT as nat),
        p.denominator as nat,
    );
    let body = short_text(
        steps / (PERCENT_UNIT as nat),
        steps % (PERCENT_UNIT as nat),
        PERCENT_PLACES as nat,
    );
    if p.numerator < 0 && steps != 0 {
        seq!['-'] + body
    } else {
        body
    }
}

/// A decimal written as short as it can be: a whole number without a point,
/// anything else with the fractional digits up to the last that is not zero.
pub open spec fn decimal_text(d: Decimal) -> Seq<char> {
    let m = magnitude(d.units as int);
    let body = short_text(m / (UNITS_PER_ONE as nat), m % (UNITS_PER_ONE as nat), 4);
    if d.units < 0 {
        seq!['-'] + body
    } else {
        body
    }
}

/// Rounding `n / d` in steps of one in `unit` can be done on the remainder
/// alone, where `unit` is even.
proof fn lemma_round_split(n: nat, d: nat, unit: nat)
    requires
        d > 0,
        unit > 0,
        unit % 2 == 0,
    ensures
        round_half_even(n * unit, d) == (n / d) * unit + round_half_even((n % d) * unit, d),
        round_half_even((n % d) * unit, d) <= unit,
{
    let q0 = (n / d) as int;
    let r0 = (n % d) as int;
    let u = unit as int;
    let x = r0 * u;
    let qx = x / (d as int);
    let rx = x % (d as int);
    assert(n == q0 * d + r0) by {
        vstd::arithmetic::div_mod::lemma_fundamental_div_mod(n as int, d as int);
        assert(d * q0 == q0 * d) by (nonlinear_arith);
    }
    assert(0 <= r0 < d) by {
        vstd::arithmetic::div_mod::lemma_mod_pos_bound(n as int, d as int);
    }
    assert(0 <= x) by (nonlinear_arith)
        requires
            x == r0 * u,
            0 <= r0,
            0 < u,
    ;
    assert(x == qx * d + rx) by {
        vstd::arithmetic::div_mod::lemma_fundamental_div_mod(x, d as int);
        assert(d * qx == qx * d) by (nonlinear_arith);
    }
    assert(0 <= rx < d) by {
        vstd::arithmetic::div_mod::lemma_mod_pos_bound(x, d as int);
    }
    assert(n * u == (q0 * u + qx) * d + rx) by (nonlinear_arith)
        requires
            n == q0 * d + r0,
            r0 * u == qx * d + rx,
    ;
    lemma_fundamental_div_mod_converse((n * unit) as int, d as int, q0 * u + qx, rx);
    assert(0 <= qx) by {
        vstd::arithmetic::div_mod::lemma_div_pos_is_pos(x, d as int);
    }
    assert(0 <= q0) by {
        vstd::arithmetic::div_mod::lemma_div_pos_is_pos(n as int, d as int);
    }
    // The remainder is below the divisor, so its quotient is below the unit.
    assert(qx < u) by (nonlinear_arith)
        requires
            r0 * u == qx * d + rx,
            0 <= rx,
            0 <= r0 < d,
            0 < u,
            0 <= qx,
    ;
    // An even unit leaves the parity of the quotient to the remainder's.
    let half = u / 2;
    assert(u == 2 * half);
    assert(q0 * u == 2 * (q0 * half)) by (nonlinear_arith)
        requires
            u == 2 * half,
    ;
    assert((q0 * u + qx) % 2 == qx % 2);
}

/// The magnitude of a signed number.
fn magnitude_of(x: i128) -> (m: u128)
    ensures
        m == magnitude(x as int),
{
    if x >= 0 {
        x as u128
    } else if x == i128::MIN {
        0x8000_0000_0000_0000_0000_0000_0000_0000u128
    } else {
        (-x) as u128
    }
}

/// `n / d` rounded to the nearest whole number, a tie going to the even one.
fn rounded_quotient(n: u128, d: u128) -> (q: u128)
    requires
        d > 0,
    ensures
        q == round_half_even(n as nat, d as nat),
{
    let q = n / d;
    let r = n % d;
    let rest = d - r;
    proof {
        if r >= rest {
            assert(d >= 2);
            assert(q * 2 <= n) by (nonlinear_arith)
                requires
                    q == n / d,
                    d >= 2,
            ;
        }
    }
    if r < rest {
        q
    } else if r > rest {
        q + 1
    } else if q % 2 == 0 {
        q
    } else {
        q + 1
    }
}

/// `n / d` in steps of one in `unit`, rounded half to even: the whole part and
/// the steps behind it.
fn rounded_steps(n: u128, d: u64, unit: u64) -> (r: (u128, u128))
    requires
        d > 0,
        unit > 0,
        unit % 2 == 0,
    ensures
        r.0 == round_half_even(n as nat * unit as nat, d as nat) / (unit as nat),
        r.1 == round_half_even(n as nat * unit as nat, d as nat) % (unit as nat),
{
    let wide = d as u128;
    let whole = n / wide;
    let rest = n % wide;
    assert(rest * unit <= 0xffff_ffff_ffff_ffff * 0xffff_ffff_ffff_ffff) by (nonlinear_arith)
        requires
            rest <= 0xffff_ffff_ffff_ffff,
            unit <= 0xffff_ffff_ffff_ffff,
    ;
    let steps = rounded_quotient(rest * unit as u128, wide);
    proof {
        lemma_round_split(n as nat, d as nat, unit as nat);
        let all = round_half_even(n as nat * unit as nat, d as nat) as int;
        assert(all == whole * unit + steps);
        if steps < unit {
            vstd::arithmetic::div_mod::lemma_fundamental_div_mod_converse(
                all,
                unit as int,
                whole as int,
                steps as int,
            );
        } else {
            assert(all == (whole + 1) * unit + 0) by (nonlinear_arith)
                requires
                    all == whole * unit + steps,
                    steps == unit,
            ;
            vstd::arithmetic::div_mod::lemma_fundamental_div_mod_converse(
                all,
                unit as int,
                whole + 1,
                0,
            );
        }
    }
    if steps == unit as u128 {
        proof {
            if rest == 0 {
                assert(rest * unit == 0) by (nonlinear_arith)
                    requires
                        rest == 0,
                ;
                assert(0nat / (wide as nat) == 0 && 0nat % (wide as nat) == 0);
            }
            assert(rest >= 1);
            assert(whole * 2 <= n) by (nonlinear_arith)
                requires
                    whole == n / wide,
                    wide >= 2,
            ;
        }
        (whole + 1, 0)
    } else {
        (whole, steps)
    }
}

/// Appends `n / d`, rounded half to even, with two places.
pub fn push_ratio(out: &mut String, n: u128, d: u64)
    requires
        d > 0,
    ensures
        final(out)@ == old(out)@ + ratio_text(n as nat, d as nat),
{
    let (whole, places) = rounded_steps(n, d, 100);
    push_number(out, whole);
    out.append(".");
    push_padded(out, places, 2);
    proof {
        reveal_strlit(".");
        assert("."@ =~= seq!['.']);
        assert(out@ =~= old(out)@ + ratio_text(n as nat, d as nat));
    }
}

/// Appends the last `width` decimal digits of `frac` without the zeros at
/// their end.
fn push_fraction(out: &mut String, frac: u128, width: u32)
    ensures
        final(out)@ == old(out)@ + fraction_text(frac as nat, width as nat),
    decreases width,
{
    if width > 0 {
        if frac % 10 == 0 {
            push_fraction(out, frac / 10, width - 1);
        } else {
            push_padded(out, frac, width);
        }
    }
    assert(out@ =~= old(out)@ + fraction_text(frac as nat, width as nat));
}

/// Appends a whole number and a fraction of `places` digits, written as short
/// as they can be.
fn push_short(out: &mut String, whole: u128, frac: u128, places: u32)
    ensures
        final(out)@ == old(out)@ + short_text(whole as nat, frac as nat, places as nat),
{
    push_number(out, whole);
    if frac != 0 {
        out.append(".");
        push_fraction(out, frac, places);
    }
    proof {
        reveal_strlit(".");
        assert("."@ =~= seq!['.']);
        assert(out@ =~= old(out)@ + short_text(whole as nat, frac as nat, places as nat));
    }
}

/// Appends a percentage, written as short as it can be.
pub fn push_percent(out: &mut String, p: &Percent)
    requires
        p.wf(),
    ensures
        final(out)@ == old(out)@ + percent_text(*p),
{
    let n = magnitude_of(p.numerator);
    let (whole, steps) = rounded_steps(n, p.denominator, PERCENT_UNIT);
    proof {
        vstd::arithmetic::div_mod::lemma_fundamental_div_mod(
            round_half_even(n as nat * PERCENT_UNIT as nat, p.denominator as nat) as int,
            PERCENT_UNIT as int,
        );
    }
    if p.numerator < 0 && (whole != 0 || steps != 0) {
        out.append("-");
    }
    push_short(out, whole, steps, PERCENT_PLACES);
    proof {
        reveal_strlit("-");
        assert("-"@ =~= seq!['-']);
        assert(out@ =~= old(out)@ + percent_text(*p));
    }
}

/// Appends a decimal, written as short as it can be.
pub fn push_decimal(out: &mut String, d: &Decimal)
    ensures
        final(out)@ == old(out)@ + decimal_text(*d),
{
    let m = magnitude_of(d.units as i128);
    if d.units < 0 {
        out.append("-");
    }
    push_short(out, m / (UNITS_PER_ONE as u128), m % (UNITS_PER_ONE as u128), 4);
    proof {
        reveal_strlit("-");
        assert("-"@ =~= seq!['-']);
        assert(out@ =~= old(out)@ + decimal_text(*d));
    }
}

} // verus!
