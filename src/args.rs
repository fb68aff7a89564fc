//! Reading the numeric command-line values: a length range `MIN-MAX` and a
//! decimal step fraction such as `0.5`.

use crate::emit::{DIGIT_ZERO, MINUS};
use crate::placement::Step;
use vstd::prelude::*;

verus! {

pub const DOT: u8 = 46;

/// Most digits after the decimal point that a step may have.
pub const MAX_FRACTION_DIGITS: usize = 9;

/// Why a command-line value was refused.
#[derive(Clone, Copy, Debug, PartialEq, Eq, Structural)]
pub enum ArgError {
    /// The text is not of the expected shape, or a number does not fit.
    Malformed,
    /// The minimum of a length range is not below its maximum.
    EmptyRange,
}

pub open spec fn is_digit(b: u8) -> bool {
    DIGIT_ZERO <= b <= DIGIT_ZERO + 9
}

/// A non-empty run of decimal digits.
pub open spec fn is_number(s: Seq<u8>) -> bool {
    s.len() > 0 && forall|i: int| 0 <= i < s.len() ==> is_digit(#[trigger] s[i])
}

/// The value of a run of decimal digits, most significant first.
pub open spec fn value_of(s: Seq<u8>) -> nat
    decreases s.len(),
{
    if s.len() == 0 {
        0
    } else {
        value_of(s.drop_last()) * 10 + (s.last() - DIGIT_ZERO) as nat
    }
}

pub open spec fn pow10(n: nat) -> nat
    decreases n,
{
    if n == 0 {
        1
    } else {
        10 * pow10((n - 1) as nat)
    }
}

/// `k` is the position of the first `c` in `s`.
pub open spec fn first_at(s: Seq<u8>, c: u8, k: int) -> bool {
    0 <= k < s.len() && s[k] == c && forall|j: int| 0 <= j < k ==> s[j] != c
}

pub open spec fn lacks(s: Seq<u8>, c: u8) -> bool {
    forall|j: int| 0 <= j < s.len() ==> s[j] != c
}

/// The number that the digits `s` denote, if it fits in a `usize`.
pub open spec fn number_of(s: Seq<u8>) -> Option<usize> {
    if is_number(s) && value_of(s) <= usize::MAX {
        Some(value_of(s) as usize)
    } else {
        None
    }
}

/// A prefix of a run of digits never denotes more than the whole run.
proof fn lemma_prefix_value(s: Seq<u8>, i: int)
    requires
        forall|k: int| 0 <= k < s.len() ==> is_digit(#[trigger] s[k]),
        0 <= i <= s.len(),
    ensures
        value_of(s.subrange(0, i)) <= value_of(s),
    decreases s.len(),
{
    if i == s.len() {
        assert(s.subrange(0, i) =~= s);
    } else {
        let d = s.drop_last();
        assert(d.subrange(0, i) =~= s.subrange(0, i));
        lemma_prefix_value(d, i);
    }
}

/// Reads the digits `text[lo..hi]` as a number.
pub fn parse_number(text: &[u8], lo: usize, hi: usize) -> (r: Option<usize>)
    requires
        lo <= hi <= text@.len(),
    ensures
        r == number_of(text@.subrange(lo as int, hi as int)),
{
    let ghost s = text@.subrange(lo as int, hi as int);
    if lo == hi {
        return None;
    }
    let mut acc: usize = 0;
    let mut i: usize = lo;
    while i < hi
        invariant
            lo <= i <= hi <= text@.len(),
            s == text@.subrange(lo as int, hi as int),
            forall|k: int| lo <= k < i ==> is_digit(#[trigger] text@[k]),
            acc == value_of(text@.subrange(lo as int, i as int)),
        decreases hi - i,
    {
        let b = text[i];
        if b < DIGIT_ZERO || b > DIGIT_ZERO + 9 {
            assert(s[i - lo] == b);
            return None;
        }
        let d: usize = (b - DIGIT_ZERO) as usize;
        assert(text@.subrange(lo as int, i + 1).drop_last() =~= text@.subrange(lo as int, i as int));
        if acc > (usize::MAX - d) / 10 {
            proof {
                let p = text@.subrange(lo as int, i + 1);
                assert(value_of(p) == acc * 10 + d);
                assert(acc * 10 + d > usize::MAX) by (nonlinear_arith)
                    requires
                        acc > (usize::MAX - d) / 10,
                        d <= 9,
                ;
                if is_number(s) {
                    assert(s.subrange(0, i + 1 - lo) =~= p);
                    lemma_prefix_value(s, i + 1 - lo);
                }
            }
            return None;
        }
        acc = acc * 10 + d;
        i = i + 1;
    }
    assert(text@.subrange(lo as int, i as int) =~= s);
    Some(acc)
}

/// The first position of `c` in `text`, if any.
pub fn find_first(text: &[u8], c: u8) -> (r: Option<usize>)
    ensures
        match r {
            Some(k) => first_at(text@, c, k as int),
            None => lacks(text@, c),
        },
{
    let mut i: usize = 0;
    while i < text.len()
        invariant
            i <= text@.len(),
            forall|j: int| 0 <= j < i ==> text@[j] != c,
        decreases text@.len() - i,
    {
        if text[i] == c {
            return Some(i);
        }
        i = i + 1;
    }
    None
}

/// The range denoted by `MIN-MAX` when its first `-` stands at `k`.
pub open spec fn range_split_at(s: Seq<u8>, k: int) -> Result<(usize, usize), ArgError> {
    match (number_of(s.subrange(0, k)), number_of(s.subrange(k + 1, s.len() as int))) {
        (Some(a), Some(b)) => if a < b {
            Ok((a, b))
        } else {
            Err(ArgError::EmptyRange)
        },
        _ => Err(ArgError::Malformed),
    }
}

/// Reads a length range written `MIN-MAX`, with `MIN` below `MAX`.
pub fn parse_length_range(text: &[u8]) -> (r: Result<(usize, usize), ArgError>)
    ensures
        lacks(text@, MINUS) ==> r == Err::<(usize, usize), ArgError>(ArgError::Malformed),
        forall|k: int| first_at(text@, MINUS, k) ==> r == range_split_at(text@, k),
{
    match find_first(text, MINUS) {
        None => Err(ArgError::Malformed),
        Some(k) => {
            let n = text.len();
            let lo = parse_number(text, 0, k);
            let hi = parse_number(text, k + 1, n);
            match (lo, hi) {
                (Some(a), Some(b)) => if a < b {
                    Ok((a, b))
                } else {
                    Err(ArgError::EmptyRange)
                },
                _ => Err(ArgError::Malformed),
            }
        },
    }
}

proof fn lemma_pow10_grows(n: nat, m: nat)
    requires
        n <= m,
    ensures
        pow10(n) <= pow10(m),
    decreases m,
{
    if n < m {
        lemma_pow10_grows(n, (m - 1) as nat);
    }
}

/// `10` to the power `n`, for at most `MAX_FRACTION_DIGITS`.
fn power_of_ten(n: usize) -> (r: u64)
    requires
        n <= MAX_FRACTION_DIGITS,
    ensures
        r == pow10(n as nat),
        r <= 1_000_000_000,
{
    assert(pow10(9) == 1_000_000_000) by {
        reveal_with_fuel(pow10, 10);
    }
    let mut r: u64 = 1;
    let mut i: usize = 0;
    while i < n
        invariant
            i <= n <= MAX_FRACTION_DIGITS,
            r == pow10(i as nat),
            pow10(9) == 1_000_000_000,
        decreases n - i,
    {
        proof {
            lemma_pow10_grows((i + 1) as nat, 9);
        }
        r = r * 10;
        i = i + 1;
    }
    proof {
        lemma_pow10_grows(n as nat, 9);
    }
    r
}

/// The step written by decimal digits `whole`, a point, then `frac` digits:
/// the fraction `whole * 10^|frac| + frac` over `10^|frac|`.
pub open spec fn fraction_of(whole: Seq<u8>, frac: Seq<u8>) -> Result<Step, ArgError> {
    if is_number(whole) && is_number(frac) && frac.len() <= MAX_FRACTION_DIGITS && value_of(whole)
        * pow10(frac.len()) + value_of(frac) <= u32::MAX {
        Ok(
            Step::Fraction {
                num: (value_of(whole) * pow10(frac.len()) + value_of(frac)) as u32,
                den: pow10(frac.len()) as u32,
            },
        )
    } else {
        Err(ArgError::Malformed)
    }
}

/// Reads a step fraction written in decimal, `D+` or `D+.D+`, as an exact
/// fraction of the segment length.
pub fn parse_step(text: &[u8]) -> (r: Result<Step, ArgError>)
    ensures
        lacks(text@, DOT) ==> r == (if is_number(text@) && value_of(text@) <= u32::MAX {
            Ok::<Step, ArgError>(Step::Fraction { num: value_of(text@) as u32, den: 1 })
        } else {
            Err::<Step, ArgError>(ArgError::Malformed)
        }),
        forall|k: int|
            first_at(text@, DOT, k) ==> r == fraction_of(
                text@.subrange(0, k),
                text@.subrange(k + 1, text@.len() as int),
            ),
{
    let n = text.len();
    match find_first(text, DOT) {
        None => {
            assert(text@.subrange(0, n as int) =~= text@);
            match parse_number(text, 0, n) {
                Some(a) => if a <= 0xffff_ffff {
                    Ok(Step::Fraction { num: a as u32, den: 1 })
                } else {
                    Err(ArgError::Malformed)
                },
                None => Err(ArgError::Malformed),
            }
        },
        Some(k) => {
            let ghost whole = text@.subrange(0, k as int);
            let ghost frac = text@.subrange(k + 1, n as int);
            proof {
                lemma_pow10_grows(0, frac.len());
                assert(value_of(whole) * pow10(frac.len()) >= value_of(whole)) by (nonlinear_arith)
                    requires
                        pow10(frac.len()) >= 1,
                ;
                assert forall|j: int| first_at(text@, DOT, j) implies j == k by {
                    if j < k {
                        assert(text@[j] != DOT);
                    } else if j > k {
                        assert(text@[k as int] != DOT);
                    }
                }
            }
            let f = n - k - 1;
            if f > MAX_FRACTION_DIGITS {
                return Err(ArgError::Malformed);
            }
            let (a, b) = match (parse_number(text, 0, k), parse_number(text, k + 1, n)) {
                (Some(a), Some(b)) => (a, b),
                _ => {
                    return Err(ArgError::Malformed);
                },
            };
            let den = power_of_ten(f);
            if a > 0xffff_ffff || b > 0xffff_ffff {
                return Err(ArgError::Malformed);
            }
            assert((a as int) * (den as int) <= 0xffff_ffff * 1_000_000_000) by (nonlinear_arith)
                requires
                    a <= 0xffff_ffff,
                    den <= 1_000_000_000,
            ;
            let num: u64 = (a as u64) * den + (b as u64);
            if num > 0xffff_ffff {
                return Err(ArgError::Malformed);
            }
            Ok(Step::Fraction { num: num as u32, den: den as u32 })
        },
    }
}

} // verus!
