//! Decimal numerals: reading them as `u32::from_str`/`u64::from_str` do, and
//! writing them as `format!("{}")` and `format!("{:0width$}")` do.

use vstd::prelude::*;

use crate::text::chars_of;

verus! {

/// An ASCII decimal digit.
pub open spec fn is_digit(c: char) -> bool {
    '0' <= c <= '9'
}

/// The value of an ASCII decimal digit.
pub open spec fn digit_value(c: char) -> nat {
    (c as int - '0' as int) as nat
}

/// The character of a digit value below ten.
pub open spec fn digit_char(d: nat) -> char {
    (d + 48) as char
}

/// The value of a numeral, most significant digit first.
pub open spec fn numeral_value(s: Seq<char>) -> nat
    decreases s.len(),
{
    if s.len() == 0 {
        0
    } else {
        numeral_value(s.drop_last()) * 10 + digit_value(s.last())
    }
}

/// Every character is a decimal digit.
pub open spec fn all_digits(s: Seq<char>) -> bool {
    forall|i: int| 0 <= i < s.len() ==> is_digit(#[trigger] s[i])
}

/// The digits that `from_str` of an unsigned type reads: an optional leading `+` is skipped.
pub open spec fn unsigned_numeral(s: Seq<char>) -> Seq<char> {
    if s.len() > 0 && s[0] == '+' {
        s.drop_first()
    } else {
        s
    }
}

/// What `from_str` of an unsigned integer type whose largest value is
/// `limit` gives: an optional `+`, then one or more ASCII digits whose value
/// is at most `limit`; anything else is refused.
pub open spec fn parsed_unsigned(s: Seq<char>, limit: nat) -> Option<nat> {
    let d = unsigned_numeral(s);
    if d.len() > 0 && all_digits(d) && numeral_value(d) <= limit {
        Some(numeral_value(d))
    } else {
        None
    }
}

/// The shortest numeral of `n`.
pub open spec fn decimal_digits(n: nat) -> Seq<char>
    decreases n,
{
    if n < 10 {
        seq![digit_char(n)]
    } else {
        decimal_digits(n / 10).push(digit_char(n % 10))
    }
}

/// The numeral of `n`, with zeros in front up to `width` characters.
pub open spec fn zero_padded(n: nat, width: nat) -> Seq<char> {
    let d = decimal_digits(n);
    if d.len() < width {
        Seq::new((width - d.len()) as nat, |i: int| '0') + d
    } else {
        d
    }
}

proof fn lemma_numeral_take_step(s: Seq<char>, i: int)
    requires
        0 <= i < s.len(),
    ensures
        numeral_value(s.take(i + 1)) == numeral_value(s.take(i)) * 10 + digit_value(s[i]),
{
    assert(s.take(i + 1).drop_last() =~= s.take(i));
}

proof fn lemma_numeral_take_monotone(s: Seq<char>, i: int, j: int)
    requires
        0 <= i <= j <= s.len(),
        all_digits(s),
    ensures
        numeral_value(s.take(i)) <= numeral_value(s.take(j)),
    decreases j - i,
{
    if i < j {
        lemma_numeral_take_monotone(s, i, j - 1);
        lemma_numeral_take_step(s, j - 1);
    }
}

/// Reads an unsigned numeral as `u64::from_str` does, refusing values above `limit`.
pub fn parse_unsigned(text: &str, limit: u64) -> (r: Option<u64>)
    ensures
        r is Some <==> parsed_unsigned(text@, limit as nat) is Some,
        r matches Some(v) ==> parsed_unsigned(text@, limit as nat) == Some(v as nat),
{
    let chars = chars_of(text);
    let n = chars.len();
    let start: usize = if n > 0 && chars[0] == '+' {
        1
    } else {
        0
    };
    let ghost d = unsigned_numeral(text@);
    assert(d =~= chars@.skip(start as int));
    if start == n {
        return None;
    }
    let mut value: u64 = 0;
    let mut i: usize = start;
    assert(d.take(0) =~= Seq::<char>::empty());
    while i < n
        invariant
            start <= i <= n == chars@.len(),
            d == chars@.skip(start as int),
            d == unsigned_numeral(text@),
            value as nat == numeral_value(d.take(i - start)),
            value <= limit,
            all_digits(d.take(i - start)),
        decreases n - i,
    {
        let c = chars[i];
        if !('0' <= c && c <= '9') {
            assert(!is_digit(d[i - start]));
            return None;
        }
        let digit = (c as u32 - '0' as u32) as u64;
        proof {
            lemma_numeral_take_step(d, i - start);
        }
        if (value as u128) * 10 + (digit as u128) > limit as u128 {
            proof {
                if all_digits(d) {
                    lemma_numeral_take_monotone(d, i - start + 1, d.len() as int);
                    assert(d.take(d.len() as int) =~= d);
                }
            }
            return None;
        }
        value = value * 10 + digit;
        assert(all_digits(d.take(i - start + 1))) by {
            assert forall|k: int| 0 <= k < i - start + 1 implies is_digit(#[trigger] d.take(i - start + 1)[k]) by {
                if k < i - start {
                    assert(d.take(i - start + 1)[k] == d.take(i - start)[k]);
                }
            }
        }
        i = i + 1;
    }
    assert(d.take(n - start) =~= d);
    Some(value)
}


/// The character of a digit below ten.
fn digit_to_char(d: u8) -> (c: char)
    requires
        d < 10,
    ensures
        c == digit_char(d as nat),
{
    (d + 48) as char
}

/// The shortest numeral of `n`, as `format!("{}")` writes it.
pub fn decimal_chars(n: u128) -> (r: Vec<char>)
    ensures
        r@ == decimal_digits(n as nat),
{
    // Digits are collected least significant first, then reversed.
    let mut rev: Vec<char> = Vec::new();
    let mut m: u128 = n;
    while m >= 10
        invariant
            decimal_digits(n as nat) == decimal_digits(m as nat) + rev@.reverse(),
        decreases m,
    {
        let d = (m % 10) as u8;
        let ghost before = rev@;
        rev.push(digit_to_char(d));
        assert(rev@.reverse() =~= seq![digit_char((m % 10) as nat)] + before.reverse());
        assert(decimal_digits(m as nat) == decimal_digits((m / 10) as nat).push(digit_char((m % 10) as nat)));
        assert(decimal_digits(m as nat) + before.reverse() =~= decimal_digits((m / 10) as nat) + rev@.reverse());
        m = m / 10;
    }
    rev.push(digit_to_char(m as u8));
    let mut r: Vec<char> = Vec::new();
    let len = rev.len();
    let mut i: usize = len;
    assert(rev@.reverse() =~= decimal_digits(m as nat) + (rev@.drop_last()).reverse());
    while i > 0
        invariant
            i <= len == rev@.len(),
            r@ == rev@.reverse().take(len - i),
        decreases i,
    {
        i = i - 1;
        r.push(rev[i]);
        assert(r@ =~= rev@.reverse().take(len - i));
    }
    assert(rev@.reverse().take(len as int) =~= rev@.reverse());
    r
}


/// The numeral of `n` with zeros in front up to `width` characters, as
/// `format!("{:0width$}")` writes it.
pub fn zero_padded_chars(n: u128, width: usize) -> (r: Vec<char>)
    ensures
        r@ == zero_padded(n as nat, width as nat),
{
    let digits = decimal_chars(n);
    if digits.len() >= width {
        return digits;
    }
    let pad = width - digits.len();
    let mut r: Vec<char> = Vec::new();
    let mut i: usize = 0;
    while i < pad
        invariant
            i <= pad,
            r@ =~= Seq::new(i as nat, |k: int| '0'),
        decreases pad - i,
    {
        r.push('0');
        i = i + 1;
    }
    let mut j: usize = 0;
    let ghost zeros = r@;
    while j < digits.len()
        invariant
            j <= digits@.len(),
            zeros == Seq::new(pad as nat, |k: int| '0'),
            r@ =~= zeros + digits@.take(j as int),
        decreases digits.len() - j,
    {
        r.push(digits[j]);
        j = j + 1;
    }
    assert(digits@.take(digits@.len() as int) =~= digits@);
    r
}


proof fn lemma_decimal_digits_value(n: nat)
    ensures
        all_digits(decimal_digits(n)),
        numeral_value(decimal_digits(n)) == n,
        decimal_digits(n).len() >= 1,
        is_digit(decimal_digits(n)[0]),
    decreases n,
{
    assert(digit_value(digit_char(n % 10)) == n % 10);
    if n < 10 {
        assert(decimal_digits(n).drop_last() =~= Seq::<char>::empty());
        assert(numeral_value(Seq::<char>::empty()) == 0);
    } else {
        lemma_decimal_digits_value(n / 10);
        let prefix = decimal_digits(n / 10);
        let d = decimal_digits(n);
        assert(d.drop_last() =~= prefix);
        assert(d.last() == digit_char(n % 10));
        assert(numeral_value(d) == numeral_value(prefix) * 10 + n % 10);
        assert(d[0] == prefix[0]);
        assert forall|i: int| 0 <= i < d.len() implies is_digit(#[trigger] d[i]) by {
            if i < prefix.len() {
                assert(d[i] == prefix[i]);
            }
        }
    }
}

/// Reading back a written numeral gives the number: for every `n` up to
/// `limit`, `from_str` of `format!("{}", n)` is `n`.
pub proof fn law_numeral_round_trip(n: nat, limit: nat)
    requires
        n <= limit,
    ensures
        parsed_unsigned(decimal_digits(n), limit) == Some(n),
{
    lemma_decimal_digits_value(n);
    assert(unsigned_numeral(decimal_digits(n)) == decimal_digits(n));
}

/// Ten to the power `n`.
pub open spec fn pow10(n: nat) -> nat
    decreases n,
{
    if n == 0 {
        1
    } else {
        10 * pow10((n - 1) as nat)
    }
}

pub proof fn lemma_pow10_monotone(n: nat, m: nat)
    requires
        n <= m,
    ensures
        1 <= pow10(n) <= pow10(m),
    decreases m,
{
    if n < m {
        lemma_pow10_monotone(n, (m - 1) as nat);
    } else if n > 0 {
        lemma_pow10_monotone((n - 1) as nat, (n - 1) as nat);
    }
}

pub proof fn lemma_pow10_bounds(n: nat)
    ensures
        pow10(n) >= 1,
        n <= 9 ==> pow10(n) <= 1_000_000_000,
{
    lemma_pow10_monotone(0, n);
    if n <= 9 {
        lemma_pow10_monotone(n, 9);
        assert(pow10(9) == 1_000_000_000) by {
            reveal_with_fuel(pow10, 10);
        }
    }
}


proof fn lemma_decimal_digits_len(n: nat, w: nat)
    requires
        w >= 1,
        n < pow10(w),
    ensures
        decimal_digits(n).len() <= w,
    decreases n,
{
    if n >= 10 {
        if w == 1 {
            assert(pow10(1) == 10) by {
                reveal_with_fuel(pow10, 2);
            }
        }
        assert(w >= 2);
        assert(pow10(w) == 10 * pow10((w - 1) as nat));
        lemma_decimal_digits_len(n / 10, (w - 1) as nat);
    }
}

/// A number below `10^width` written with `width` digits, for a width of
/// at least one, takes exactly `width` characters, all digits.
pub proof fn law_zero_padded_width(n: nat, width: nat)
    requires
        width >= 1,
        n < pow10(width),
    ensures
        zero_padded(n, width).len() == width,
        all_digits(zero_padded(n, width)),
{
    lemma_decimal_digits_len(n, width);
    lemma_decimal_digits_value(n);
    let d = decimal_digits(n);
    let p = zero_padded(n, width);
    assert forall|i: int| 0 <= i < p.len() implies is_digit(#[trigger] p[i]) by {
        if d.len() < width {
            let z = (width - d.len()) as int;
            if i >= z {
                assert(p[i] == d[i - z]);
            }
        }
    }
}

} // verus!
