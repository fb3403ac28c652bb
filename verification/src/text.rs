//! Characters, digits and decimal numerals as text.

use vstd::prelude::*;
use vstd::string::{StrSliceExecFns, StringExecFns};

verus! {

/// The characters of a text, in order.
pub fn chars_of(text: &str) -> (out: Vec<char>)
    ensures
        out@ == text@,
{
    let mut out: Vec<char> = Vec::new();
    for c in it: text.chars()
        invariant
            it.seq() == text@,
            out@ == text@.take(it.index() as int),
    {
        out.push(c);
    }
    assert(out@ == text@);
    out
}

/// Whether `c` is one of the ten decimal digits.
pub open spec fn is_digit(c: char) -> bool {
    '0' <= c && c <= '9'
}

/// The number that a decimal digit stands for.
pub open spec fn digit_value(c: char) -> int {
    c as int - '0' as int
}

/// The digit that stands for `d`, for `d` from 0 to 9.
pub open spec fn digit_char(d: int) -> char {
    if d == 0 {
        '0'
    } else if d == 1 {
        '1'
    } else if d == 2 {
        '2'
    } else if d == 3 {
        '3'
    } else if d == 4 {
        '4'
    } else if d == 5 {
        '5'
    } else if d == 6 {
        '6'
    } else if d == 7 {
        '7'
    } else if d == 8 {
        '8'
    } else {
        '9'
    }
}

/// Whether every character of `s` is a decimal digit.
pub open spec fn all_digits(s: Seq<char>) -> bool {
    forall|i: int| 0 <= i < s.len() ==> is_digit(#[trigger] s[i])
}

/// The number that a string of digits spells, read in base ten.
pub open spec fn digits_value(s: Seq<char>) -> int
    decreases s.len(),
{
    if s.len() == 0 {
        0
    } else {
        10 * digits_value(s.drop_last()) + digit_value(s.last())
    }
}

/// Ten to the power of `n`.
pub open spec fn pow10(n: nat) -> nat
    decreases n,
{
    if n == 0 {
        1
    } else {
        10 * pow10((n - 1) as nat)
    }
}

/// `n / d` rounded to the nearest whole number, a tie going to the even one.
pub open spec fn round_half_even(n: nat, d: nat) -> nat {
    let q = n / d;
    let r = n % d;
    if 2 * r < d {
        q
    } else if 2 * r > d {
        q + 1
    } else if q % 2 == 0 {
        q
    } else {
        q + 1
    }
}

/// The decimal numeral of `n`, without leading zeros.
pub open spec fn decimal_digits(n: nat) -> Seq<char>
    decreases n,
{
    if n < 10 {
        seq![digit_char(n as int)]
    } else {
        decimal_digits(n / 10).push(digit_char((n % 10) as int))
    }
}

/// The last `width` decimal digits of `n`, with leading zeros where `n` is short.
pub open spec fn padded_digits(n: nat, width: nat) -> Seq<char>
    decreases width,
{
    if width == 0 {
        Seq::<char>::empty()
    } else {
        padded_digits(n / 10, (width - 1) as nat).push(digit_char((n % 10) as int))
    }
}

/// The index of the first decimal point in `s`, or the length of `s` if it has none.
pub open spec fn point_index(s: Seq<char>) -> int
    decreases s.len(),
{
    if s.len() == 0 || s[0] == '.' {
        0
    } else {
        1 + point_index(s.drop_first())
    }
}

/// Where the first point lies: every earlier character is no point, and the
/// search stopped at a point or at the end.
pub proof fn lemma_point_index(s: Seq<char>, i: int)
    requires
        0 <= i <= s.len(),
        forall|j: int| 0 <= j < i ==> s[j] != '.',
        i == s.len() || s[i] == '.',
    ensures
        point_index(s) == i,
    decreases s.len(),
{
    if i > 0 {
        let t = s.drop_first();
        assert forall|j: int| 0 <= j < i - 1 implies t[j] != '.' by {
            assert(t[j] == s[j + 1]);
        }
        lemma_point_index(t, i - 1);
    }
}

/// A string of digits spells a number that is not negative and has no more
/// digits than the string.
pub proof fn lemma_digits_value_bound(s: Seq<char>)
    requires
        all_digits(s),
    ensures
        0 <= digits_value(s) < pow10(s.len()),
    decreases s.len(),
{
    if s.len() > 0 {
        assert(is_digit(s.last()));
        lemma_digits_value_bound(s.drop_last());
    }
}

/// A string of digits spells zero exactly when each of its digits is a zero.
pub proof fn lemma_digits_value_zero(s: Seq<char>)
    requires
        all_digits(s),
    ensures
        digits_value(s) == 0 <==> (forall|i: int| 0 <= i < s.len() ==> s[i] == '0'),
    decreases s.len(),
{
    if s.len() > 0 {
        let front = s.drop_last();
        assert(is_digit(s.last()));
        lemma_digits_value_zero(front);
        lemma_digits_value_bound(front);
        if digits_value(s) == 0 {
            assert forall|i: int| 0 <= i < s.len() implies s[i] == '0' by {
                if i < front.len() {
                    assert(s[i] == front[i]);
                }
            }
        } else if forall|i: int| 0 <= i < s.len() ==> s[i] == '0' {
            assert forall|i: int| 0 <= i < front.len() implies front[i] == '0' by {
                assert(front[i] == s[i]);
            }
        }
    }
}

/// Digits written behind digits: the number of the front moves up by as many
/// places as the back has digits.
pub proof fn lemma_digits_value_concat(front: Seq<char>, back: Seq<char>)
    ensures
        digits_value(front + back) == digits_value(front) * pow10(back.len()) + digits_value(back),
    decreases back.len(),
{
    if back.len() == 0 {
        assert(front + back =~= front);
        assert(digits_value(front) * 1 == digits_value(front));
    } else {
        let shorter = back.drop_last();
        let whole = front + back;
        assert(whole.drop_last() =~= front + shorter);
        assert(whole.last() == back.last());
        lemma_digits_value_concat(front, shorter);
        let a = digits_value(front);
        let b = digits_value(shorter);
        let d = digit_value(back.last());
        let p = pow10(shorter.len()) as int;
        assert(pow10(back.len()) == 10 * p);
        assert(digits_value(whole) == 10 * (a * p + b) + d);
        assert(digits_value(back) == 10 * b + d);
        assert(10 * (a * p + b) == a * (10 * p) + 10 * b) by (nonlinear_arith);
    }
}

/// The decimal numeral of a number spells that number.
pub proof fn lemma_decimal_digits_spell(n: nat)
    ensures
        decimal_digits(n).len() >= 1,
        all_digits(decimal_digits(n)),
        digits_value(decimal_digits(n)) == n,
    decreases n,
{
    let written = decimal_digits(n);
    if n < 10 {
        assert(written.drop_last() =~= Seq::<char>::empty());
        assert(digits_value(written.drop_last()) == 0);
        assert(written.last() == digit_char(n as int));
    } else {
        let front = decimal_digits(n / 10);
        lemma_decimal_digits_spell(n / 10);
        assert(written.drop_last() =~= front);
        assert(written.last() == digit_char((n % 10) as int));
        assert forall|i: int| 0 <= i < written.len() implies is_digit(#[trigger] written[i]) by {
            if i < front.len() {
                assert(written[i] == front[i]);
            }
        }
    }
}

/// The last `width` digits of a number spell what is left of it when the
/// higher places are cut off.
pub proof fn lemma_padded_digits_spell(n: nat, width: nat)
    ensures
        padded_digits(n, width).len() == width,
        all_digits(padded_digits(n, width)),
        digits_value(padded_digits(n, width)) == n % pow10(width),
    decreases width,
{
    let written = padded_digits(n, width);
    if width > 0 {
        let front = padded_digits(n / 10, (width - 1) as nat);
        lemma_padded_digits_spell(n / 10, (width - 1) as nat);
        assert(written.drop_last() =~= front);
        assert(written.last() == digit_char((n % 10) as int));
        assert forall|i: int| 0 <= i < written.len() implies is_digit(#[trigger] written[i]) by {
            if i < front.len() {
                assert(written[i] == front[i]);
            }
        }
        let p = pow10((width - 1) as nat) as int;
        assert(p >= 1) by {
            lemma_pow10_positive((width - 1) as nat);
        }
        vstd::arithmetic::div_mod::lemma_fundamental_div_mod(n as int, 10);
        vstd::arithmetic::div_mod::lemma_fundamental_div_mod((n / 10) as int, p);
        vstd::arithmetic::div_mod::lemma_mod_pos_bound((n / 10) as int, p);
        let high = (n / 10) as int / p;
        let low = (n / 10) as int % p;
        assert(n == high * (10 * p) + (10 * low + n % 10)) by (nonlinear_arith)
            requires
                n == 10 * (n / 10) + n % 10,
                (n / 10) as int == p * high + low,
        ;
        vstd::arithmetic::div_mod::lemma_fundamental_div_mod_converse(
            n as int,
            10 * p,
            high,
            10 * low + n % 10,
        );
    }
}

/// A power of ten is at least one.
pub proof fn lemma_pow10_positive(n: nat)
    ensures
        pow10(n) >= 1,
    decreases n,
{
    if n > 0 {
        lemma_pow10_positive((n - 1) as nat);
    }
}

/// `text` with every occurrence of `pattern` taken out, found from left to
/// right, each search starting behind the occurrence before. With an empty
/// pattern the text stays as it is.
pub open spec fn without(text: Seq<char>, pattern: Seq<char>) -> Seq<char>
    decreases text.len(),
{
    if pattern.len() == 0 || text.len() < pattern.len() {
        text
    } else if text.take(pattern.len() as int) == pattern {
        without(text.skip(pattern.len() as int), pattern)
    } else {
        seq![text[0]] + without(text.drop_first(), pattern)
    }
}

/// The value of a digit character, or `None` for any other character.
pub fn digit_of(c: char) -> (r: Option<u8>)
    ensures
        is_digit(c) <==> r is Some,
        r matches Some(d) ==> d as int == digit_value(c) && d <= 9,
{
    let code: u32 = c as u32;
    if 48 <= code && code <= 57 {
        Some((code - 48) as u8)
    } else {
        None
    }
}

/// The one-character text of the digit `d`.
pub fn digit_text(d: u8) -> (r: &'static str)
    requires
        d <= 9,
    ensures
        r@ == seq![digit_char(d as int)],
{
    proof {
        reveal_strlit("0");
        reveal_strlit("1");
        reveal_strlit("2");
        reveal_strlit("3");
        reveal_strlit("4");
        reveal_strlit("5");
        reveal_strlit("6");
        reveal_strlit("7");
        reveal_strlit("8");
        reveal_strlit("9");
    }
    let r = if d == 0 {
        "0"
    } else if d == 1 {
        "1"
    } else if d == 2 {
        "2"
    } else if d == 3 {
        "3"
    } else if d == 4 {
        "4"
    } else if d == 5 {
        "5"
    } else if d == 6 {
        "6"
    } else if d == 7 {
        "7"
    } else if d == 8 {
        "8"
    } else {
        "9"
    };
    assert(r@ =~= seq![digit_char(d as int)]);
    r
}

/// Appends the decimal numeral of `n` to `out`.
pub fn push_number(out: &mut String, n: u128)
    ensures
        final(out)@ == old(out)@ + decimal_digits(n as nat),
    decreases n,
{
    if n >= 10 {
        push_number(out, n / 10);
    }
    out.append(digit_text((n % 10) as u8));
    assert(out@ =~= old(out)@ + decimal_digits(n as nat));
}

/// Appends the last `width` decimal digits of `n` to `out`, zero-padded.
pub fn push_padded(out: &mut String, n: u128, width: u32)
    ensures
        final(out)@ == old(out)@ + padded_digits(n as nat, width as nat),
    decreases width,
{
    if width > 0 {
        push_padded(out, n / 10, width - 1);
        out.append(digit_text((n % 10) as u8));
    }
    assert(out@ =~= old(out)@ + padded_digits(n as nat, width as nat));
}

/// Whether `pattern` stands in `text` at index `at`.
fn occurs_at(text: &Vec<char>, pattern: &Vec<char>, at: usize) -> (r: bool)
    requires
        at <= text.len(),
    ensures
        r == (at + pattern.len() <= text.len() && text@.subrange(
            at as int,
            at + pattern.len(),
        ) == pattern@),
{
    if pattern.len() > text.len() - at {
        return false;
    }
    let mut k: usize = 0;
    while k < pattern.len()
        invariant
            k <= pattern.len(),
            at + pattern.len() <= text.len(),
            forall|j: int| 0 <= j < k ==> text[at + j] == pattern[j],
        decreases pattern.len() - k,
    {
        if text[at + k] != pattern[k] {
            assert(text@.subrange(at as int, at + pattern.len())[k as int] != pattern@[k as int]);
            return false;
        }
        k += 1;
    }
    assert(text@.subrange(at as int, at + pattern.len()) =~= pattern@);
    true
}

/// `text` with every occurrence of `pattern` taken out.
pub fn remove_all(text: &str, pattern: &str) -> (out: String)
    ensures
        out@ == without(text@, pattern@),
{
    let cs = chars_of(text);
    let ps = chars_of(pattern);
    let n = cs.len();
    let m = ps.len();
    if m == 0 {
        return text.to_owned();
    }
    let mut out = String::new();
    let mut kept_from: usize = 0;
    let mut i: usize = 0;
    assert(text@.skip(0) =~= text@);
    assert(text@.subrange(0, 0) =~= Seq::<char>::empty());
    while i < n
        invariant
            kept_from <= i <= n,
            n == text@.len(),
            m == pattern@.len(),
            m > 0,
            cs@ == text@,
            ps@ == pattern@,
            without(text@, pattern@) == out@ + text@.subrange(kept_from as int, i as int) + without(
                text@.skip(i as int),
                pattern@,
            ),
        decreases n - i,
    {
        let ghost rest = text@.skip(i as int);
        if occurs_at(&cs, &ps, i) {
            let piece = text.substring_char(kept_from, i);
            out.append(piece);
            proof {
                assert(rest.take(m as int) =~= text@.subrange(i as int, i + m));
                assert(rest.skip(m as int) =~= text@.skip(i + m));
                assert(text@.subrange(i + m, i + m) =~= Seq::<char>::empty());
            }
            i += m;
            kept_from = i;
        } else {
            proof {
                if rest.len() >= m {
                    assert(rest.take(m as int) =~= text@.subrange(i as int, i + m));
                } else {
                    assert(rest =~= seq![rest[0]] + rest.drop_first());
                    assert(without(rest.drop_first(), pattern@) == rest.drop_first());
                }
                assert(rest.drop_first() =~= text@.skip(i + 1));
                assert(text@.subrange(kept_from as int, i as int) + seq![rest[0]] =~= text@.subrange(
                    kept_from as int,
                    i + 1,
                ));
            }
            i += 1;
        }
    }
    let piece = text.substring_char(kept_from, n);
    out.append(piece);
    assert(text@.skip(n as int) =~= Seq::<char>::empty());
    assert(out@ =~= without(text@, pattern@));
    out
}

/// Whether two texts hold the same characters.
pub fn same_text(a: &str, b: &str) -> (r: bool)
    ensures
        r == (a@ == b@),
{
    let x = chars_of(a);
    let y = chars_of(b);
    if x.len() != y.len() {
        return false;
    }
    let mut i: usize = 0;
    while i < x.len()
        invariant
            i <= x.len(),
            x.len() == y.len(),
            x@ == a@,
            y@ == b@,
            forall|j: int| 0 <= j < i ==> x[j] == y[j],
        decreases x.len() - i,
    {
        if x[i] != y[i] {
            assert(a@[i as int] != b@[i as int]);
            return false;
        }
        i += 1;
    }
    assert(x@ =~= y@);
    true
}

} // verus!
