//! Helpers for reading configuration values given as text.
use crate::num::{u256_bound, U256};
use vstd::prelude::*;

verus! {

/// A span of time in whole seconds and nanoseconds.
#[derive(Clone, Copy, Debug, PartialEq, Eq, Structural)]
pub struct Timespan {
    pub secs: u64,
    /// Always below one billion.
    pub nanos: u32,
}

/// Why a text is not a number of seconds.
#[derive(Clone, Copy, Debug, PartialEq, Eq, Structural)]
pub enum ParseSecondsError {
    /// The text is not digits with at most one decimal point, or has no digit.
    Invalid,
    /// The whole seconds do not fit in 64 bits.
    TooLarge,
}

pub open spec fn is_digit(c: char) -> bool {
    '0' <= c <= '9'
}

pub open spec fn digit_value(c: char) -> nat {
    ((c as u32) - ('0' as u32)) as nat
}

/// The number that a string of decimal digits spells.
pub open spec fn decimal_value(s: Seq<char>) -> nat
    decreases s.len(),
{
    if s.len() == 0 {
        0
    } else {
        decimal_value(s.drop_last()) * 10 + digit_value(s.last())
    }
}

pub open spec fn pow10(n: nat) -> nat
    decreases n,
{
    if n == 0 {
        1
    } else {
        10 * pow10((n - 1) as nat)
    }
}

/// `s` is decimal digits with a point at `p`, or with no point when `p` is
/// its length, and holds at least one digit.
pub open spec fn seconds_text(s: Seq<char>, p: int) -> bool {
    &&& 0 <= p <= s.len()
    &&& forall|i: int| 0 <= i < s.len() && i != p ==> is_digit(#[trigger] s[i])
    &&& p < s.len() ==> s[p] == '.'
    &&& (if p < s.len() {
        s.len() > 1
    } else {
        s.len() > 0
    })
}

/// The digits after the point.
pub open spec fn fraction(s: Seq<char>, p: int) -> Seq<char> {
    if p < s.len() {
        s.skip(p + 1)
    } else {
        Seq::empty()
    }
}

/// Nanoseconds of a fraction: its first nine digits, padded with zeros.
pub open spec fn nanos_of(f: Seq<char>) -> nat {
    let m = if f.len() < 9 {
        f.len()
    } else {
        9
    };
    decimal_value(f.take(m as int)) * pow10((9 - m) as nat)
}

proof fn lemma_decimal_prefix(s: Seq<char>, k: int)
    requires
        0 <= k <= s.len(),
    ensures
        decimal_value(s.take(k)) <= decimal_value(s),
    decreases s.len(),
{
    if k < s.len() {
        lemma_decimal_prefix(s.drop_last(), k);
        assert(s.drop_last().take(k) =~= s.take(k));
    } else {
        assert(s.take(k) =~= s);
    }
}

/// Reads a number of seconds written in decimal, such as `10`, `0.5` or
/// `.25`. Digits past the ninth after the point are dropped.
pub fn duration_from_seconds(s: &str) -> (r: Result<Timespan, ParseSecondsError>)
    ensures
        match r {
            Ok(t) => exists|p: int|
                seconds_text(s@, p) && t.secs == decimal_value(s@.take(p)) && t.nanos == nanos_of(
                    fraction(s@, p),
                ),
            Err(ParseSecondsError::TooLarge) => exists|p: int|
                seconds_text(s@, p) && decimal_value(s@.take(p)) > u64::MAX,
            Err(ParseSecondsError::Invalid) => forall|p: int| !seconds_text(s@, p),
        },
{
    let n = s.unicode_len();
    let mut p = n;
    let mut i: usize = 0;
    while i < n
        invariant
            n == s@.len(),
            i <= n,
            p == n || (p < i && s@[p as int] == '.'),
            p == n ==> forall|j: int| 0 <= j < i ==> s@[j] != '.',
            p < n ==> forall|j: int| 0 <= j < p ==> s@[j] != '.',
        decreases n - i,
    {
        if p == n && s.get_char(i) == '.' {
            p = i;
        }
        i = i + 1;
    }
    let mut i: usize = 0;
    while i < n
        invariant
            n == s@.len(),
            i <= n,
            p == n || (p < n && s@[p as int] == '.'),
            p == n ==> forall|j: int| 0 <= j < n ==> s@[j] != '.',
            forall|j: int| 0 <= j < i && j != p ==> is_digit(#[trigger] s@[j]),
        decreases n - i,
    {
        let c = s.get_char(i);
        if i != p && !('0' <= c && c <= '9') {
            proof {
                assert forall|q: int| !seconds_text(s@, q) by {
                    if seconds_text(s@, q) {
                        if q != i {
                            assert(is_digit(s@[i as int]));
                        } else {
                            assert(s@[q] == '.');
                        }
                    }
                }
            }
            return Err(ParseSecondsError::Invalid);
        }
        i = i + 1;
    }
    if (p < n && n <= 1) || n == 0 {
        proof {
            assert forall|q: int| !seconds_text(s@, q) by {
                if seconds_text(s@, q) && q < n && q != p {
                    assert(is_digit(s@[q]));
                }
            }
        }
        return Err(ParseSecondsError::Invalid);
    }
    assert(seconds_text(s@, p as int));
    let ghost whole = s@.take(p as int);
    let mut secs: u64 = 0;
    let mut i: usize = 0;
    while i < p
        invariant
            n == s@.len(),
            p <= n,
            i <= p,
            seconds_text(s@, p as int),
            whole == s@.take(p as int),
            secs == decimal_value(whole.take(i as int)),
        decreases p - i,
    {
        let c = s.get_char(i);
        let d = (c as u32 - '0' as u32) as u64;
        proof {
            assert(whole.take(i + 1).drop_last() =~= whole.take(i as int));
            assert(is_digit(s@[i as int]));
        }
        let next = match secs.checked_mul(10) {
            Some(v) => v.checked_add(d),
            None => None,
        };
        match next {
            Some(v) => {
                secs = v;
            },
            None => {
                proof {
                    lemma_decimal_prefix(whole, i + 1);
                }
                return Err(ParseSecondsError::TooLarge);
            },
        }
        i = i + 1;
    }
    proof {
        assert(whole.take(p as int) =~= whole);
    }
    let ghost frac = fraction(s@, p as int);
    let start: usize = if p < n {
        p + 1
    } else {
        n
    };
    proof {
        assert(frac =~= s@.skip(start as int));
    }
    let end: usize = if n - start < 9 {
        n
    } else {
        start + 9
    };
    let ghost m = (end - start) as nat;
    let mut nanos: u32 = 0;
    let mut i: usize = start;
    while i < end
        invariant
            n == s@.len(),
            start <= i <= end <= n,
            end - start <= 9,
            m == end - start,
            seconds_text(s@, p as int),
            p < start || p == n,
            frac == s@.skip(start as int),
            nanos == decimal_value(frac.take(i - start)),
            nanos < pow10((i - start) as nat),
        decreases end - i,
    {
        let c = s.get_char(i);
        proof {
            assert(is_digit(s@[i as int]));
            assert(frac.take(i + 1 - start).drop_last() =~= frac.take(i - start));
            assert(pow10((i + 1 - start) as nat) == 10 * pow10((i - start) as nat));
            lemma_pow10_nine();
            lemma_pow10_monotone((i + 1 - start) as nat, 9);
        }
        nanos = nanos * 10 + (c as u32 - '0' as u32);
        i = i + 1;
    }
    let mut k: usize = end - start;
    proof {
        assert(i == end);
        assert(nanos == decimal_value(frac.take(m as int)));
        assert(pow10(0) == 1);
        assert(decimal_value(frac.take(m as int)) * pow10(0) == decimal_value(frac.take(m as int)));
    }
    while k < 9
        invariant
            m <= k <= 9,
            nanos == decimal_value(frac.take(m as int)) * pow10((k - m) as nat),
            nanos < pow10(k as nat),
        decreases 9 - k,
    {
        proof {
            assert(pow10((k + 1 - m) as nat) == 10 * pow10((k - m) as nat));
            assert(pow10((k + 1) as nat) == 10 * pow10(k as nat));
            lemma_pow10_nine();
            lemma_pow10_monotone((k + 1) as nat, 9);
            assert(decimal_value(frac.take(m as int)) * pow10((k + 1 - m) as nat) == 10 * (
            decimal_value(frac.take(m as int)) * pow10((k - m) as nat))) by (nonlinear_arith)
                requires
                    pow10((k + 1 - m) as nat) == 10 * pow10((k - m) as nat),
            ;
        }
        nanos = nanos * 10;
        k = k + 1;
    }
    proof {
        assert(frac.len() == n - start);
        assert(m == (if frac.len() < 9 {
            frac.len()
        } else {
            9
        }));
    }
    Ok(Timespan { secs, nanos })
}

proof fn lemma_pow10_nine()
    ensures
        pow10(9) == 1_000_000_000,
{
    reveal_with_fuel(pow10, 10);
}

proof fn lemma_pow10_monotone(a: nat, b: nat)
    requires
        a <= b,
    ensures
        pow10(a) <= pow10(b),
    decreases b,
{
    if a < b {
        lemma_pow10_monotone(a, (b - 1) as nat);
    }
}

/// Why a text is not an amount of base units.
#[derive(Clone, Copy, Debug, PartialEq, Eq, Structural)]
pub enum ParseAmountError {
    /// The text is not decimal digits, or the number does not fit in 256 bits.
    Invalid,
    /// The amount in wei does not fit in 256 bits.
    TooLarge,
}

pub open spec fn all_digits(s: Seq<char>) -> bool {
    forall|i: int| 0 <= i < s.len() ==> is_digit(#[trigger] s[i])
}

/// Relies on `primitive_types::U256::from_dec_str`: the number that a string
/// of decimal digits spells (zero for the empty string), or `None` for any
/// other character or a number of 2^256 or more.
#[verifier::external_body]
fn parse_u256_decimal(s: &str) -> (r: Option<U256>)
    ensures
        match r {
            Some(v) => all_digits(s@) && v.value() == decimal_value(s@),
            None => !(all_digits(s@) && decimal_value(s@) < u256_bound()),
        },
{
    primitive_types::U256::from_dec_str(s).ok().map(
        |v| U256 { w0: v.0[0], w1: v.0[1], w2: v.0[2], w3: v.0[3] },
    )
}

/// Reads an amount given in whole units of a token with 18 decimals and
/// returns it in the smallest unit (wei).
pub fn wei_from_base_unit(s: &str) -> (r: Result<U256, ParseAmountError>)
    ensures
        match r {
            Ok(v) => all_digits(s@) && v.value() == decimal_value(s@) * 1_000_000_000_000_000_000,
            Err(ParseAmountError::Invalid) => !(all_digits(s@) && decimal_value(s@)
                < u256_bound()),
            Err(ParseAmountError::TooLarge) => all_digits(s@) && decimal_value(s@) < u256_bound()
                && decimal_value(s@) * 1_000_000_000_000_000_000 >= u256_bound(),
        },
{
    let units = match parse_u256_decimal(s) {
        Some(v) => v,
        None => return Err(ParseAmountError::Invalid),
    };
    match units.checked_mul(U256::from_u64(1_000_000_000_000_000_000)) {
        Some(v) => Ok(v),
        None => Err(ParseAmountError::TooLarge),
    }
}

} // verus!
