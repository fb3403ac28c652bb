//! Decimal numbers with four fractional digits, and the numerals they are
//! read from.

use crate::finance::MarketDataError;
use crate::text::{
    all_digits, chars_of, digit_of, digit_value, digits_value, is_digit, lemma_digits_value_bound,
    lemma_digits_value_concat, lemma_digits_value_zero, lemma_point_index, point_index, pow10,
    round_half_even,
};
use vstd::arithmetic::div_mod::lemma_fundamental_div_mod_converse;
use vstd::prelude::*;

verus! {

/// How many units make one: a `Decimal` counts ten-thousandths.
pub const UNITS_PER_ONE: i64 = 10_000;

/// A decimal number held as a whole count of ten-thousandths.
#[derive(Clone, Copy, Debug, PartialEq, Eq, Structural)]
pub struct Decimal {
    pub units: i64,
}

impl View for Decimal {
    type V = Decimal;

    open spec fn view(&self) -> Decimal {
        *self
    }
}

impl DeepView for Decimal {
    type V = Decimal;

    open spec fn deep_view(&self) -> Decimal {
        *self
    }
}

/// Whether the numeral starts with a sign character.
pub open spec fn is_signed(s: Seq<char>) -> bool {
    s.len() > 0 && (s[0] == '-' || s[0] == '+')
}

/// Whether the numeral starts with a minus sign.
pub open spec fn is_negative(s: Seq<char>) -> bool {
    s.len() > 0 && s[0] == '-'
}

/// The numeral without its sign character, if it has one.
pub open spec fn unsigned_part(s: Seq<char>) -> Seq<char> {
    if is_signed(s) {
        s.drop_first()
    } else {
        s
    }
}

/// What stands before the first decimal point.
pub open spec fn whole_part(body: Seq<char>) -> Seq<char> {
    body.take(point_index(body))
}

/// What stands after the first decimal point; empty if there is no point.
pub open spec fn fraction_part(body: Seq<char>) -> Seq<char> {
    if point_index(body) < body.len() {
        body.skip(point_index(body) + 1)
    } else {
        Seq::<char>::empty()
    }
}

/// The first four characters of the fraction, filled up with zeros to four.
pub open spec fn fraction_digits(f: Seq<char>) -> Seq<char> {
    Seq::new(
        4,
        |i: int|
            if i < f.len() {
                f[i]
            } else {
                '0'
            },
    )
}

/// Whether `s` is a decimal numeral: an optional sign, digits, and optionally
/// a point and more digits, with a digit on at least one side of the point.
pub open spec fn is_numeral(s: Seq<char>) -> bool {
    let body = unsigned_part(s);
    let w = whole_part(body);
    let f = fraction_part(body);
    &&& all_digits(w)
    &&& all_digits(f)
    &&& w.len() + f.len() > 0
}

/// The magnitude of a numeral in ten-thousandths. With up to four fractional
/// digits this is exact: the whole digits followed by the four fractional
/// digits, read as one number. With more, the number that all digits spell is
/// rounded to the nearest ten-thousandth, a tie going to the even one.
pub open spec fn numeral_magnitude(s: Seq<char>) -> nat {
    let body = unsigned_part(s);
    let w = whole_part(body);
    let f = fraction_part(body);
    if f.len() <= 4 {
        digits_value(w + fraction_digits(f)) as nat
    } else {
        round_half_even(digits_value(w + f) as nat, pow10((f.len() - 4) as nat))
    }
}

/// The largest magnitude, in ten-thousandths, that a numeral can be read up to.
pub const MAGNITUDE_LIMIT: u128 = 10_000_000_000_000_000_000_000_000_000_000_000_000;

/// Whether the numeral has a minus sign, and its magnitude in ten-thousandths,
/// if the text is a numeral of a magnitude up to `limit`.
pub open spec fn numeral_within(s: Seq<char>, limit: nat) -> Option<(bool, nat)> {
    if is_numeral(s) && numeral_magnitude(s) <= limit {
        Some((is_negative(s), numeral_magnitude(s)))
    } else {
        None
    }
}

/// The number that the text spells, if it is a numeral whose magnitude fits.
pub open spec fn parsed(s: Seq<char>) -> Option<Decimal> {
    match numeral_within(s, i64::MAX as nat) {
        Some((negative, magnitude)) => Some(
            Decimal {
                units: if negative {
                    (-magnitude) as i64
                } else {
                    magnitude as i64
                },
            },
        ),
        None => None,
    }
}

/// A string of digits spells a number that is at least what any prefix of it spells.
proof fn lemma_digits_value_prefix(s: Seq<char>, k: int)
    requires
        all_digits(s),
        0 <= k <= s.len(),
    ensures
        0 <= digits_value(s.take(k)) <= digits_value(s),
    decreases s.len() - k,
{
    lemma_digits_value_bound(s.take(k));
    if k < s.len() {
        let longer = s.take(k + 1);
        assert(longer.drop_last() =~= s.take(k));
        assert(longer.last() == s[k]);
        assert(is_digit(s[k]));
        lemma_digits_value_prefix(s, k + 1);
    } else {
        assert(s.take(k) =~= s);
    }
}

/// The whole digits followed by the four fractional digits are all digits
/// where both parts are.
proof fn lemma_scaled_digits(w: Seq<char>, f: Seq<char>)
    requires
        all_digits(w),
        all_digits(f),
    ensures
        all_digits(w + fraction_digits(f)),
{
    let all = w + fraction_digits(f);
    assert forall|i: int| 0 <= i < all.len() implies is_digit(#[trigger] all[i]) by {
        if i >= w.len() {
            let j = i - w.len();
            assert(all[i] == fraction_digits(f)[j]);
            if j < f.len() {
                assert(is_digit(f[j]));
            }
        } else {
            assert(is_digit(w[i]));
        }
    }
}

/// With more than four fractional digits, the digits up to the fourth are the
/// quotient and the digits behind it the remainder of what all digits spell,
/// divided by the weight of the fourth place.
proof fn lemma_surplus_digits(w: Seq<char>, f: Seq<char>)
    requires
        all_digits(w),
        all_digits(f),
        f.len() > 4,
    ensures
        ({
            let weight = pow10((f.len() - 4) as nat) as int;
            &&& weight >= 1
            &&& 0 <= digits_value(w + f)
            &&& digits_value(w + f) / weight == digits_value(w + fraction_digits(f))
            &&& digits_value(w + f) % weight == digits_value(f.skip(4))
        }),
{
    let kept = w + fraction_digits(f);
    let surplus = f.skip(4);
    let weight = pow10((f.len() - 4) as nat) as int;
    assert(w + f =~= kept + surplus);
    lemma_digits_value_concat(kept, surplus);
    lemma_scaled_digits(w, f);
    lemma_digits_value_bound(kept);
    lemma_digits_value_bound(surplus);
    assert(digits_value(kept) * weight >= 0) by (nonlinear_arith)
        requires
            digits_value(kept) >= 0,
            weight >= 0,
    ;
    lemma_fundamental_div_mod_converse(
        digits_value(w + f),
        weight,
        digits_value(kept),
        digits_value(surplus),
    );
}

/// Where a remainder lies against half of the weight it is taken by, told
/// from its leading digit and whether anything follows it.
proof fn lemma_half_way(leading: int, rest: int, beyond: int)
    requires
        0 <= leading <= 9,
        rest >= 1,
        0 <= beyond < rest,
    ensures
        leading < 5 ==> 2 * (leading * rest + beyond) < 10 * rest,
        leading > 5 ==> 2 * (leading * rest + beyond) > 10 * rest,
        leading == 5 && beyond > 0 ==> 2 * (leading * rest + beyond) > 10 * rest,
        leading == 5 && beyond == 0 ==> 2 * (leading * rest + beyond) == 10 * rest,
{
    assert(leading < 5 ==> leading * rest <= 4 * rest) by (nonlinear_arith)
        requires
            rest >= 1,
    ;
    assert(leading > 5 ==> leading * rest >= 6 * rest) by (nonlinear_arith)
        requires
            rest >= 1,
    ;
    assert(leading == 5 ==> leading * rest == 5 * rest) by (nonlinear_arith);
}

/// The number that the whole digits and the first four fractional digits
/// spell, where the whole part stands in `cs` from `start` up to `point` and
/// the fraction from `fraction` on; `None` where one of them is no digit or
/// the number is above `limit`.
fn kept_value(cs: &Vec<char>, start: usize, point: usize, fraction: usize, limit: u128) -> (r:
    Option<u128>)
    requires
        start <= point <= fraction <= cs.len(),
        limit <= MAGNITUDE_LIMIT,
    ensures
        ({
            let kept = cs@.subrange(start as int, point as int) + fraction_digits(
                cs@.subrange(fraction as int, cs.len() as int),
            );
            match r {
                Some(value) => all_digits(kept) && value == digits_value(kept) && value <= limit,
                None => !all_digits(kept) || digits_value(kept) > limit,
            }
        }),
{
    let n = cs.len();
    let ghost w = cs@.subrange(start as int, point as int);
    let ghost f = cs@.subrange(fraction as int, n as int);
    let ghost kept = w + fraction_digits(f);
    let mut value: u128 = 0;
    let mut i: usize = start;
    assert(kept.take(0) =~= Seq::<char>::empty());
    while i < point
        invariant
            start <= i <= point <= fraction <= n,
            n == cs.len(),
            limit <= MAGNITUDE_LIMIT,
            w == cs@.subrange(start as int, point as int),
            f == cs@.subrange(fraction as int, n as int),
            kept == w + fraction_digits(f),
            all_digits(kept.take(i - start)),
            value == digits_value(kept.take(i - start)),
            value <= limit,
        decreases point - i,
    {
        let ghost k = i - start;
        proof {
            assert(kept.take(k + 1).drop_last() =~= kept.take(k));
            assert(kept.take(k + 1).last() == kept[k]);
            assert(kept[k] == cs@[i as int]);
        }
        match digit_of(cs[i]) {
            Some(d) => {
                value = value * 10 + d as u128;
            },
            None => {
                return None;
            },
        }
        proof {
            assert forall|j: int| 0 <= j < k + 1 implies is_digit(#[trigger] kept.take(k + 1)[j]) by {
                if j < k {
                    assert(kept.take(k + 1)[j] == kept.take(k)[j]);
                }
            }
        }
        if value > limit {
            proof {
                if all_digits(kept) {
                    lemma_digits_value_prefix(kept, k + 1);
                }
            }
            return None;
        }
        i += 1;
    }
    let mut k: usize = 0;
    while k < 4
        invariant
            0 <= k <= 4,
            start <= point <= fraction <= n,
            n == cs.len(),
            limit <= MAGNITUDE_LIMIT,
            w == cs@.subrange(start as int, point as int),
            f == cs@.subrange(fraction as int, n as int),
            kept == w + fraction_digits(f),
            all_digits(kept.take(w.len() + k)),
            value == digits_value(kept.take(w.len() + k)),
            value <= limit,
        decreases 4 - k,
    {
        let ghost m = w.len() + k;
        proof {
            assert(kept.take(m + 1).drop_last() =~= kept.take(m));
            assert(kept.take(m + 1).last() == kept[m]);
            assert(kept[m] == fraction_digits(f)[k as int]);
        }
        let d: u8 = if k < n - fraction {
            assert(f[k as int] == cs@[fraction + k]);
            match digit_of(cs[fraction + k]) {
                Some(d) => d,
                None => {
                    return None;
                },
            }
        } else {
            0
        };
        value = value * 10 + d as u128;
        proof {
            assert forall|j: int| 0 <= j < m + 1 implies is_digit(#[trigger] kept.take(m + 1)[j]) by {
                if j < m {
                    assert(kept.take(m + 1)[j] == kept.take(m)[j]);
                }
            }
        }
        if value > limit {
            proof {
                if all_digits(kept) {
                    lemma_digits_value_prefix(kept, m + 1);
                }
            }
            return None;
        }
        k += 1;
    }
    assert(kept.take(w.len() + 4int) =~= kept);
    Some(value)
}

/// Whether the digits that stand in `cs` from `from` on, cut off behind a
/// number, round that number up: they are more than half of the cut, or
/// exactly half of it and the number is odd. `None` where one of them is no
/// digit.
fn rounds_up(cs: &Vec<char>, from: usize, odd: bool) -> (r: Option<bool>)
    requires
        from < cs.len(),
    ensures
        ({
            let surplus = cs@.subrange(from as int, cs.len() as int);
            let twice = 2 * digits_value(surplus);
            let weight = pow10(surplus.len()) as int;
            match r {
                Some(up) => all_digits(surplus) && (up <==> twice > weight || (twice == weight
                    && odd)),
                None => !all_digits(surplus),
            }
        }),
{
    let n = cs.len();
    let ghost surplus = cs@.subrange(from as int, n as int);
    let leading = match digit_of(cs[from]) {
        Some(d) => d,
        None => {
            assert(!is_digit(surplus[0]));
            return None;
        },
    };
    let mut beyond = false;
    let mut j: usize = from + 1;
    while j < n
        invariant
            from < j <= n,
            n == cs.len(),
            surplus == cs@.subrange(from as int, n as int),
            forall|t: int| 0 <= t < j - from ==> is_digit(#[trigger] surplus[t]),
            beyond <==> exists|t: int| 1 <= t < j - from && surplus[t] != '0',
        decreases n - j,
    {
        assert(surplus[j - from] == cs@[j as int]);
        match digit_of(cs[j]) {
            Some(d) => {
                if d != 0 {
                    beyond = true;
                }
            },
            None => {
                return None;
            },
        }
        j += 1;
    }
    proof {
        let tail = surplus.skip(1);
        let head = seq![surplus[0]];
        assert(surplus =~= head + tail);
        lemma_digits_value_concat(head, tail);
        assert(head.drop_last() =~= Seq::<char>::empty());
        assert(digits_value(head.drop_last()) == 0);
        assert(head.last() == surplus[0]);
        assert(digits_value(head) == digit_value(surplus[0]));
        assert forall|t: int| 0 <= t < tail.len() implies is_digit(#[trigger] tail[t]) by {
            assert(tail[t] == surplus[t + 1]);
        }
        lemma_digits_value_bound(tail);
        lemma_digits_value_zero(tail);
        if beyond {
            let t = choose|t: int| 1 <= t < surplus.len() && surplus[t] != '0';
            assert(tail[t - 1] == surplus[t]);
        } else {
            assert forall|t: int| 0 <= t < tail.len() implies tail[t] == '0' by {
                assert(tail[t] == surplus[t + 1]);
            }
        }
        lemma_half_way(digit_value(surplus[0]), pow10(tail.len()) as int, digits_value(tail));
        assert(pow10(surplus.len()) == 10 * pow10(tail.len()));
    }
    Some(leading > 5 || (leading == 5 && (beyond || odd)))
}

/// Where the parts of a numeral stand in its characters.
struct Layout {
    /// Whether the first character is a minus sign.
    negative: bool,
    /// Where the whole part begins: behind the sign, if there is one.
    start: usize,
    /// Where the whole part ends: at the first point, or at the end.
    point: usize,
    /// Where the fraction begins: behind the point, or at the end.
    fraction: usize,
}

/// Finds the sign, the whole part and the fraction in the characters of a text.
fn layout(cs: &Vec<char>) -> (r: Layout)
    ensures
        r.start <= r.point <= r.fraction <= cs.len(),
        r.negative == is_negative(cs@),
        whole_part(unsigned_part(cs@)) == cs@.subrange(r.start as int, r.point as int),
        fraction_part(unsigned_part(cs@)) == cs@.subrange(r.fraction as int, cs.len() as int),
{
    let n = cs.len();
    let ghost body = unsigned_part(cs@);
    let negative = n > 0 && cs[0] == '-';
    let start: usize = if n > 0 && (cs[0] == '-' || cs[0] == '+') {
        1
    } else {
        0
    };
    assert(body =~= cs@.subrange(start as int, n as int));
    let mut point: usize = start;
    while point < n && cs[point] != '.'
        invariant
            start <= point <= n,
            n == cs.len(),
            body == cs@.subrange(start as int, n as int),
            forall|j: int| 0 <= j < point - start ==> body[j] != '.',
        decreases n - point,
    {
        assert(body[point - start] == cs@[point as int]);
        point += 1;
    }
    proof {
        if point < n {
            assert(body[point - start] == cs@[point as int]);
        }
        lemma_point_index(body, point - start);
    }
    let fraction: usize = if point < n {
        point + 1
    } else {
        n
    };
    assert(whole_part(body) =~= cs@.subrange(start as int, point as int));
    assert(fraction_part(body) =~= cs@.subrange(fraction as int, n as int));
    Layout { negative, start, point, fraction }
}

/// What the surplus digits make of the digits that are kept: one more where
/// the surplus is above half of the last place kept, or is half of it and what
/// is kept is odd.
proof fn lemma_rounded(w: Seq<char>, f: Seq<char>, up: bool)
    requires
        all_digits(w),
        all_digits(f),
        f.len() > 4,
        ({
            let twice = 2 * digits_value(f.skip(4));
            let weight = pow10((f.len() - 4) as nat) as int;
            up <==> twice > weight || (twice == weight && digits_value(w + fraction_digits(f)) % 2
                == 1)
        }),
    ensures
        round_half_even(digits_value(w + f) as nat, pow10((f.len() - 4) as nat)) == digits_value(
            w + fraction_digits(f),
        ) + if up {
            1int
        } else {
            0int
        },
{
    lemma_surplus_digits(w, f);
}

/// Reads a decimal numeral of a magnitude up to `limit` ten-thousandths: its
/// sign and its magnitude, or `None` for anything else.
pub fn read_numeral(text: &str, limit: u128) -> (r: Option<(bool, u128)>)
    requires
        limit <= MAGNITUDE_LIMIT,
    ensures
        r == match numeral_within(text@, limit as nat) {
            Some((negative, magnitude)) => Some((negative, magnitude as u128)),
            None => None::<(bool, u128)>,
        },
{
    let cs = chars_of(text);
    let n = cs.len();
    let at = layout(&cs);
    let ghost s = text@;
    let ghost w = whole_part(unsigned_part(s));
    let ghost f = fraction_part(unsigned_part(s));
    if at.point - at.start + (n - at.fraction) == 0 {
        return None;
    }
    let kept = match kept_value(&cs, at.start, at.point, at.fraction, limit) {
        Some(kept) => kept,
        None => {
            proof {
                if is_numeral(s) {
                    lemma_scaled_digits(w, f);
                    lemma_magnitude_at_least_kept(w, f);
                }
            }
            return None;
        },
    };
    proof {
        lemma_kept_digits(w, f);
    }
    if n - at.fraction <= 4 {
        return Some((at.negative, kept));
    }
    let ghost surplus = cs@.subrange(at.fraction + 4, n as int);
    assert(surplus =~= f.skip(4));
    let up = match rounds_up(&cs, at.fraction + 4, kept % 2 == 1) {
        Some(up) => up,
        None => {
            proof {
                let t = choose|t: int| 0 <= t < surplus.len() && !is_digit(surplus[t]);
                assert(f[t + 4] == surplus[t]);
            }
            return None;
        },
    };
    proof {
        assert forall|j: int| 0 <= j < f.len() implies is_digit(#[trigger] f[j]) by {
            if j >= 4 {
                assert(f[j] == surplus[j - 4]);
            }
        }
        lemma_rounded(w, f, up);
    }
    let magnitude = if up {
        kept + 1
    } else {
        kept
    };
    if magnitude > limit {
        return None;
    }
    Some((at.negative, magnitude))
}

/// Where the whole digits with the first four fractional digits are all
/// digits, so are the whole part and the first four characters of the fraction.
proof fn lemma_kept_digits(w: Seq<char>, f: Seq<char>)
    requires
        all_digits(w + fraction_digits(f)),
    ensures
        all_digits(w),
        forall|j: int| 0 <= j < f.len() && j < 4 ==> is_digit(#[trigger] f[j]),
        f.len() <= 4 ==> all_digits(f),
{
    let digits = w + fraction_digits(f);
    assert forall|j: int| 0 <= j < w.len() implies is_digit(#[trigger] w[j]) by {
        assert(digits[j] == w[j]);
    }
    assert forall|j: int| 0 <= j < f.len() && j < 4 implies is_digit(#[trigger] f[j]) by {
        assert(digits[w.len() + j] == f[j]);
    }
}

/// Reads a decimal numeral.
///
/// Succeeds on an optional sign, digits, and optionally a point and more
/// digits, with a digit on at least one side of the point. A numeral with up
/// to four fractional digits is read exactly; one with more is rounded to the
/// nearest ten-thousandth, a tie going to the even one. Anything that is no
/// such numeral, or is larger in magnitude than `i64::MAX` ten-thousandths, is
/// a parse error: no default is substituted.
pub fn parse_decimal(text: &str) -> (r: Result<Decimal, MarketDataError>)
    ensures
        r == match parsed(text@) {
            Some(d) => Ok::<Decimal, MarketDataError>(d),
            None => Err::<Decimal, MarketDataError>(MarketDataError::Parse),
        },
{
    match read_numeral(text, i64::MAX as u128) {
        Some((negative, magnitude)) => {
            let units: i64 = if negative {
                -(magnitude as i64)
            } else {
                magnitude as i64
            };
            Ok(Decimal { units })
        },
        None => Err(MarketDataError::Parse),
    }
}

/// Rounding never goes below the digits that are kept.
proof fn lemma_magnitude_at_least_kept(w: Seq<char>, f: Seq<char>)
    requires
        all_digits(w),
        all_digits(f),
    ensures
        f.len() > 4 ==> round_half_even(
            digits_value(w + f) as nat,
            pow10((f.len() - 4) as nat),
        ) >= digits_value(w + fraction_digits(f)),
{
    if f.len() > 4 {
        lemma_surplus_digits(w, f);
    }
}

} // verus!
