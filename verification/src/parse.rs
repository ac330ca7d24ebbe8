//! Parsers for the two configuration literals: a calendar date written as
//! `YYYY-MM-DD` and an inclusion probability written as a decimal numeral.
//! Both read ASCII bytes and reject anything else.

use vstd::prelude::*;
use crate::config::ConfigError;
use crate::date::Date;
use crate::date::valid_date;

verus! {

pub open spec fn is_digit(b: u8) -> bool {
    48 <= b <= 57
}

pub open spec fn digit_val(b: u8) -> int {
    b - 48
}

/// Whether `s` has the exact shape `YYYY-MM-DD`: four digits, a dash, two
/// digits, a dash, two digits.
pub open spec fn date_literal_ok(s: Seq<u8>) -> bool {
    &&& s.len() == 10
    &&& is_digit(s[0])
    &&& is_digit(s[1])
    &&& is_digit(s[2])
    &&& is_digit(s[3])
    &&& s[4] == 45
    &&& is_digit(s[5])
    &&& is_digit(s[6])
    &&& s[7] == 45
    &&& is_digit(s[8])
    &&& is_digit(s[9])
}

pub open spec fn literal_year(s: Seq<u8>) -> int {
    1000 * digit_val(s[0]) + 100 * digit_val(s[1]) + 10 * digit_val(s[2]) + digit_val(s[3])
}

pub open spec fn literal_month(s: Seq<u8>) -> int {
    10 * digit_val(s[5]) + digit_val(s[6])
}

pub open spec fn literal_day(s: Seq<u8>) -> int {
    10 * digit_val(s[8]) + digit_val(s[9])
}

/// Whether `s` spells a valid calendar date as `YYYY-MM-DD`.
pub open spec fn spells_valid_date(s: Seq<u8>) -> bool {
    date_literal_ok(s) && valid_date(literal_year(s), literal_month(s), literal_day(s))
}

/// Reads a calendar date written as `YYYY-MM-DD`. A literal of any other
/// shape, or one that names a day outside the calendar, is a configuration
/// error.
pub fn parse_date(s: &[u8]) -> (r: Result<Date, ConfigError>)
    ensures
        spells_valid_date(s@) ==> r == Ok::<Date, ConfigError>(
            Date {
                year: literal_year(s@) as u32,
                month: literal_month(s@) as u32,
                day: literal_day(s@) as u32,
            },
        ),
        !spells_valid_date(s@) ==> r == Err::<Date, ConfigError>(ConfigError::InvalidDate),
{
    if s.len() != 10 {
        return Err(ConfigError::InvalidDate);
    }
    if s[4] != 45 || s[7] != 45 {
        return Err(ConfigError::InvalidDate);
    }
    let mut i: usize = 0;
    while i < 10
        invariant
            s@.len() == 10,
            i <= 10,
            forall|j: int| 0 <= j < i && j != 4 && j != 7 ==> is_digit(#[trigger] s@[j]),
        decreases 10 - i,
    {
        if i != 4 && i != 7 && (s[i] < 48 || s[i] > 57) {
            return Err(ConfigError::InvalidDate);
        }
        i = i + 1;
    }
    let year: u32 = 1000 * ((s[0] - 48) as u32) + 100 * ((s[1] - 48) as u32) + 10 * ((s[2]
        - 48) as u32) + ((s[3] - 48) as u32);
    let month: u32 = 10 * ((s[5] - 48) as u32) + ((s[6] - 48) as u32);
    let day: u32 = 10 * ((s[8] - 48) as u32) + ((s[9] - 48) as u32);
    match Date::new(year, month, day) {
        Some(d) => Ok(d),
        None => Err(ConfigError::InvalidDate),
    }
}

/// The decimal value of the digits `s[0]` through `s[n - 1]`.
pub open spec fn digits_value(s: Seq<u8>, n: int) -> int
    decreases n,
{
    if n <= 0 {
        0
    } else {
        digits_value(s, n - 1) * 10 + digit_val(s[n - 1])
    }
}

/// Whether `s` spells a nonnegative decimal numeral: digits with at most
/// one point among them, and at least one digit.
pub open spec fn prob_literal_ok(s: Seq<u8>) -> bool {
    &&& s.len() > 0
    &&& forall|i: int| 0 <= i < s.len() ==> is_digit(#[trigger] s[i]) || s[i] == 46
    &&& forall|i: int, j: int| 0 <= i < j < s.len() && s[i] == 46 ==> s[j] != 46
    &&& exists|i: int| 0 <= i < s.len() && is_digit(s[i])
}

/// The position of the decimal point, or the length when there is none.
pub open spec fn point_pos(s: Seq<u8>) -> int {
    if exists|i: int| 0 <= i < s.len() && s[i] == 46 {
        choose|i: int| 0 <= i < s.len() && s[i] == 46
    } else {
        s.len() as int
    }
}

/// The `i`-th digit after the decimal point at position `p`, taking 0 where
/// the literal ends.
pub open spec fn frac_digit(s: Seq<u8>, p: int, i: int) -> int {
    if p + 1 + i < s.len() {
        digit_val(s[p + 1 + i])
    } else {
        0
    }
}

/// The value of the first `n` digits after the decimal point at position
/// `p`, read as an integer (so for `n` of 6, in millionths).
pub open spec fn frac_value(s: Seq<u8>, p: int, n: int) -> int
    decreases n,
{
    if n <= 0 {
        0
    } else {
        frac_value(s, p, n - 1) * 10 + frac_digit(s, p, n - 1)
    }
}

/// The value of the numeral `s` in millionths, truncated beyond the sixth
/// digit after the point.
pub open spec fn prob_millionths(s: Seq<u8>) -> int {
    digits_value(s, point_pos(s)) * 1000000 + frac_value(s, point_pos(s), 6)
}

pub open spec fn pow10(n: int) -> int
    decreases n,
{
    if n <= 0 {
        1
    } else {
        10 * pow10(n - 1)
    }
}

proof fn lemma_pow10_vals()
    ensures
        pow10(0) == 1,
        pow10(1) == 10,
        pow10(2) == 100,
        pow10(3) == 1000,
        pow10(4) == 10000,
        pow10(5) == 100000,
        pow10(6) == 1000000,
{
    assert(pow10(0) == 1);
    assert(pow10(1) == 10);
    assert(pow10(2) == 100);
    assert(pow10(3) == 1000);
    assert(pow10(4) == 10000);
    assert(pow10(5) == 100000);
    assert(pow10(6) == 1000000);
}

proof fn lemma_digits_value_nonneg(s: Seq<u8>, n: int)
    requires
        forall|k: int| 0 <= k < n ==> is_digit(#[trigger] s[k]),
    ensures
        digits_value(s, n) >= 0,
    decreases n,
{
    if n > 0 {
        lemma_digits_value_nonneg(s, n - 1);
    }
}

proof fn lemma_frac_value_bounds(s: Seq<u8>, p: int, n: int)
    requires
        forall|k: int| p < k < s.len() ==> is_digit(#[trigger] s[k]),
        p >= 0,
    ensures
        0 <= frac_value(s, p, n) < pow10(n),
    decreases n,
{
    if n > 0 {
        lemma_frac_value_bounds(s, p, n - 1);
    }
}

/// Reads an inclusion probability written as a decimal numeral, such as
/// `0.25` or `1`, into millionths. A numeral above 1.0, or a literal that
/// is not a plain decimal numeral, is a configuration error.
pub fn parse_probability(s: &[u8]) -> (r: Result<u32, ConfigError>)
    ensures
        prob_literal_ok(s@) && prob_millionths(s@) <= 1000000 ==> r == Ok::<u32, ConfigError>(
            prob_millionths(s@) as u32,
        ),
        !(prob_literal_ok(s@) && prob_millionths(s@) <= 1000000) ==> r == Err::<u32, ConfigError>(
            ConfigError::InvalidProbability,
        ),
{
    let n = s.len();
    if n == 0 {
        return Err(ConfigError::InvalidProbability);
    }
    let mut point: usize = n;
    let mut saw_digit: bool = false;
    let mut i: usize = 0;
    while i < n
        invariant
            n == s@.len(),
            i <= n,
            forall|j: int| 0 <= j < i ==> is_digit(#[trigger] s@[j]) || s@[j] == 46,
            point == n || (point < i && s@[point as int] == 46),
            forall|j: int| 0 <= j < i && j != point ==> s@[j] != 46,
            saw_digit <==> exists|j: int| 0 <= j < i && is_digit(s@[j]),
        decreases n - i,
    {
        let b = s[i];
        if b == 46 {
            if point < n {
                return Err(ConfigError::InvalidProbability);
            }
            point = i;
        } else if 48 <= b && b <= 57 {
            saw_digit = true;
        } else {
            return Err(ConfigError::InvalidProbability);
        }
        i = i + 1;
    }
    if !saw_digit {
        return Err(ConfigError::InvalidProbability);
    }
    proof {
        assert(prob_literal_ok(s@));
        if point < n {
            assert(s@[point as int] == 46);
            assert(point_pos(s@) == point) by {
                let w = choose|k: int| 0 <= k < s@.len() && s@[k] == 46;
                assert(s@[w] == 46);
            }
        } else {
            assert(forall|k: int| 0 <= k < s@.len() ==> s@[k] != 46);
            assert(point_pos(s@) == n);
        }
        assert(forall|k: int| 0 <= k < point_pos(s@) ==> is_digit(#[trigger] s@[k]));
        assert(forall|k: int| point_pos(s@) < k < s@.len() ==> is_digit(#[trigger] s@[k]));
    }
    let ghost p = point_pos(s@);
    // The whole part, capped at 2: any value of 2 or more already puts the
    // numeral above 1.0.
    let mut whole: u32 = 0;
    let mut j: usize = 0;
    while j < point
        invariant
            n == s@.len(),
            point <= n,
            j <= point,
            p == point,
            forall|k: int| 0 <= k < p ==> is_digit(#[trigger] s@[k]),
            whole <= 2,
            digits_value(s@, j as int) >= 2 ==> whole == 2,
            digits_value(s@, j as int) <= 1 ==> whole == digits_value(s@, j as int),
        decreases point - j,
    {
        proof {
            lemma_digits_value_nonneg(s@, j as int);
        }
        let d = (s[j] - 48) as u32;
        let t = 10 * whole + d;
        whole = if t > 2 {
            2
        } else {
            t
        };
        j = j + 1;
    }
    proof {
        lemma_digits_value_nonneg(s@, p);
        lemma_frac_value_bounds(s@, p, 6);
        lemma_pow10_vals();
    }
    if whole >= 2 {
        return Err(ConfigError::InvalidProbability);
    }
    // The first six digits after the point, as millionths.
    let mut frac: u32 = 0;
    let mut k: usize = 0;
    while k < 6
        invariant
            n == s@.len(),
            point <= n,
            p == point,
            k <= 6,
            forall|t: int| p < t < s@.len() ==> is_digit(#[trigger] s@[t]),
            frac == frac_value(s@, p, k as int),
            frac < pow10(k as int),
            frac <= 999999,
        decreases 6 - k,
    {
        proof {
            lemma_pow10_vals();
            assert(pow10(k as int + 1) == 10 * pow10(k as int));
        }
        let d: u32 = if 1 + k < n - point {
            (s[point + 1 + k] - 48) as u32
        } else {
            0
        };
        frac = 10 * frac + d;
        k = k + 1;
    }
    if whole == 1 {
        if frac > 0 {
            Err(ConfigError::InvalidProbability)
        } else {
            Ok(1000000)
        }
    } else {
        Ok(frac)
    }
}

} // verus!
