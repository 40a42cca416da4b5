//! Approximate equality of two unsigned magnitudes, within a relative
//! difference written as a decimal with up to eighteen fractional digits.

use vstd::prelude::*;

use vstd::arithmetic::div_mod::lemma_fundamental_div_mod_converse;
use vstd::string::{StrSliceExecFns, StringExecFns};

use crate::numeral::{
    decimal, decimal_text, lemma_pow10_mono, lemma_pow10_unit, pow10, push_decimal,
    push_decimal_text, UNIT,
};

verus! {

/// The largest whole part whose decimal fits in a `u128`.
pub const MAX_WHOLE: u128 = 340_282_366_920_938_463_463;

pub open spec fn is_digit(c: char) -> bool {
    48 <= c as u32 <= 57
}

pub open spec fn digit_value(c: char) -> nat {
    (c as u32 - 48) as nat
}

pub open spec fn all_digits(s: Seq<char>) -> bool {
    forall|i: int| 0 <= i < s.len() ==> is_digit(#[trigger] s[i])
}

/// The number that a string of decimal digits denotes.
pub open spec fn digits_value(s: Seq<char>) -> nat
    decreases s.len(),
{
    if s.len() == 0 {
        0
    } else {
        digits_value(s.drop_last()) * 10 + digit_value(s.last())
    }
}

/// `s` is a whole part of digits, a dot at `i`, and one to eighteen fractional digits.
pub open spec fn dot_at(s: Seq<char>, i: int) -> bool {
    &&& 0 < i
    &&& i + 1 < s.len() <= i + 19
    &&& s[i] == '.'
    &&& all_digits(s.subrange(0, i))
    &&& all_digits(s.subrange(i + 1, s.len() as int))
}

/// The value times `UNIT` of a decimal written as digits, optionally followed by a
/// dot and one to eighteen fractional digits; `None` for any other string.
pub open spec fn decimal_atomics(s: Seq<char>) -> Option<nat> {
    if s.len() > 0 && all_digits(s) {
        Some(digits_value(s) * (UNIT as nat))
    } else if exists|i: int| dot_at(s, i) {
        let i = choose|i: int| dot_at(s, i);
        let frac = s.subrange(i + 1, s.len() as int);
        Some(
            digits_value(s.subrange(0, i)) * (UNIT as nat) + digits_value(frac) * pow10(
                (18 - frac.len()) as nat,
            ),
        )
    } else {
        None
    }
}

/// The decimal that `s` denotes, where it is well formed and fits in a `u128`.
pub open spec fn parsed_decimal(s: Seq<char>) -> Option<u128> {
    match decimal_atomics(s) {
        Some(v) => if v <= u128::MAX {
            Some(v as u128)
        } else {
            None
        },
        None => None,
    }
}

pub open spec fn capped(v: nat) -> nat {
    if v <= MAX_WHOLE {
        v
    } else {
        (MAX_WHOLE + 1) as nat
    }
}

proof fn lemma_digits_value_step(s: Seq<char>, from: int, end: int)
    requires
        0 <= from <= end < s.len(),
    ensures
        digits_value(s.subrange(from, end + 1)) == digits_value(s.subrange(from, end)) * 10
            + digit_value(s[end]),
{
    assert(s.subrange(from, end + 1).drop_last() =~= s.subrange(from, end));
}

proof fn lemma_capped_step(v: nat, d: nat)
    ensures
        capped(capped(v) * 10 + d) == capped(v * 10 + d),
{
    if v > MAX_WHOLE {
        assert(v * 10 + d > MAX_WHOLE) by (nonlinear_arith)
            requires
                v > MAX_WHOLE,
        ;
    }
}

proof fn lemma_digits_value_bound(s: Seq<char>)
    requires
        all_digits(s),
    ensures
        digits_value(s) < pow10(s.len()),
    decreases s.len(),
{
    if s.len() > 0 {
        assert(is_digit(s[s.len() - 1]));
        assert forall|k: int| 0 <= k < s.len() - 1 implies is_digit(#[trigger] s.drop_last()[k]) by {
            assert(is_digit(s[k]));
        }
        lemma_digits_value_bound(s.drop_last());
        let v = digits_value(s.drop_last());
        let p = pow10(s.drop_last().len());
        assert(v * 10 + digit_value(s.last()) < 10 * p) by (nonlinear_arith)
            requires
                v < p,
                digit_value(s.last()) < 10,
        ;
    }
}

proof fn lemma_digits_value_prefix(s: Seq<char>, k: int)
    requires
        0 <= k <= s.len(),
    ensures
        digits_value(s.subrange(0, k)) <= digits_value(s),
    decreases s.len(),
{
    if k < s.len() {
        assert(s.drop_last().subrange(0, k) =~= s.subrange(0, k));
        lemma_digits_value_prefix(s.drop_last(), k);
    } else {
        assert(s.subrange(0, k) =~= s);
    }
}

fn digit_at(s: &str, i: usize) -> (r: Option<u128>)
    requires
        i < s@.len(),
    ensures
        r == (if is_digit(s@[i as int]) {
            Some(digit_value(s@[i as int]) as u128)
        } else {
            None
        }),
{
    let c = s.get_char(i) as u32;
    if 48 <= c && c <= 57 {
        Some((c - 48) as u128)
    } else {
        None
    }
}

/// Reads the run of digits that starts at `from`: where it ends, and its value
/// capped at one above `MAX_WHOLE`.
fn scan_digits(s: &str, from: usize) -> (r: (usize, u128))
    requires
        from <= s@.len(),
    ensures
        from <= r.0 <= s@.len(),
        all_digits(s@.subrange(from as int, r.0 as int)),
        r.0 == s@.len() || !is_digit(s@[r.0 as int]),
        r.1 == capped(digits_value(s@.subrange(from as int, r.0 as int))),
{
    let n = s.unicode_len();
    let mut end = from;
    let mut value: u128 = 0;
    let mut more = end < n;
    while more
        invariant
            n == s@.len(),
            from <= end <= n,
            all_digits(s@.subrange(from as int, end as int)),
            value == capped(digits_value(s@.subrange(from as int, end as int))),
            more ==> end < n,
            !more ==> end == n || !is_digit(s@[end as int]),
        decreases n - end + (if more { 1int } else { 0int }),
    {
        match digit_at(s, end) {
            Some(d) => {
                proof {
                    lemma_digits_value_step(s@, from as int, end as int);
                    lemma_capped_step(
                        digits_value(s@.subrange(from as int, end as int)),
                        d as nat,
                    );
                    assert forall|k: int| 0 <= k < end + 1 - from implies is_digit(
                        #[trigger] s@.subrange(from as int, end + 1)[k],
                    ) by {
                        if k < end - from {
                            assert(s@.subrange(from as int, end as int)[k] == s@[from + k]);
                        }
                    }
                }
                let next = value * 10 + d;
                value = if next > MAX_WHOLE {
                    MAX_WHOLE + 1
                } else {
                    next
                };
                end = end + 1;
                more = end < n;
            },
            None => {
                more = false;
            },
        }
    }
    (end, value)
}

/// Parses a decimal: its value times `UNIT`, or `None` where `s` is not digits,
/// optionally followed by a dot and one to eighteen fractional digits, or where the
/// value does not fit in a `u128`.
pub fn parse_decimal(s: &str) -> (r: Option<u128>)
    ensures
        r == parsed_decimal(s@),
{
    let n = s.unicode_len();
    let (i, whole) = scan_digits(s, 0);
    proof {
        assert(s@.subrange(0, n as int) =~= s@);
    }
    if i == 0 {
        proof {
            assert(!all_digits(s@) || s@.len() == 0 ) by {
                if n > 0 {
                    assert(!is_digit(s@[0]));
                }
            }
            assert forall|k: int| !dot_at(s@, k) by {
                if dot_at(s@, k) {
                    assert(s@.subrange(0, k)[0] == s@[0]);
                }
            }
        }
        return None;
    }
    if i == n {
        if whole > MAX_WHOLE {
            proof {
                assert(digits_value(s@) * UNIT > u128::MAX) by (nonlinear_arith)
                    requires
                        digits_value(s@) > MAX_WHOLE,
                ;
            }
            return None;
        }
        proof {
            assert(whole * UNIT <= u128::MAX) by (nonlinear_arith)
                requires
                    whole <= MAX_WHOLE,
            ;
        }
        return Some(whole * UNIT);
    }
    proof {
        assert(!all_digits(s@));
        assert forall|k: int| dot_at(s@, k) implies k == i by {
            if k < i {
                assert(s@.subrange(0, i as int)[k] == s@[k]);
            }
            if k > i {
                assert(s@.subrange(0, k)[i as int] == s@[i as int]);
            }
        }
    }
    if s.get_char(i) != '.' {
        return None;
    }
    let (j, frac) = scan_digits(s, i + 1);
    if j != n || j == i + 1 || j - i - 1 > 18 {
        proof {
            if j != n {
                assert(!is_digit(s@.subrange(i + 1, n as int)[j - i - 1]));
            }
        }
        return None;
    }
    let ghost whole_digits = s@.subrange(0, i as int);
    let ghost frac_digits = s@.subrange(i + 1, n as int);
    proof {
        assert(dot_at(s@, i as int));
        lemma_digits_value_bound(frac_digits);
        lemma_digits_value_prefix(whole_digits, i as int);
        assert(whole_digits.subrange(0, i as int) =~= whole_digits);
    }
    if whole > MAX_WHOLE {
        proof {
            assert(digits_value(whole_digits) * UNIT > u128::MAX) by (nonlinear_arith)
                requires
                    digits_value(whole_digits) > MAX_WHOLE,
            ;
        }
        return None;
    }
    proof {
        lemma_pow10_unit();
        lemma_pow10_mono(frac_digits.len(), 18);
        assert(pow10(0) == 1);
        assert(frac_digits.len() == j - i - 1);
        assert(digits_value(frac_digits) < UNIT);
        assert(frac == digits_value(frac_digits));
        assert(digits_value(frac_digits) * pow10(0) == digits_value(frac_digits));
    }
    let mut scaled: u128 = frac;
    let mut k: usize = j - i - 1;
    while k < 18
        invariant
            k <= 18,
            scaled == digits_value(frac_digits) * pow10((k - frac_digits.len()) as nat),
            scaled < pow10(k as nat),
            frac_digits.len() <= k,
        decreases 18 - k,
    {
        proof {
            assert(pow10((k + 1) as nat) == 10 * pow10(k as nat));
            assert(pow10((k + 1 - frac_digits.len()) as nat) == 10 * pow10(
                (k - frac_digits.len()) as nat,
            ));
            lemma_pow10_unit();
            lemma_pow10_mono(k as nat, 17);
            let v = digits_value(frac_digits);
            let p = pow10((k - frac_digits.len()) as nat);
            assert(scaled * 10 == v * (10 * p)) by (nonlinear_arith)
                requires
                    scaled == v * p,
            ;
        }
        scaled = scaled * 10;
        k = k + 1;
    }
    proof {
        lemma_pow10_unit();
        assert(whole * UNIT <= u128::MAX) by (nonlinear_arith)
            requires
                whole <= MAX_WHOLE,
        ;
    }
    let base = whole * UNIT;
    if scaled > u128::MAX - base {
        return None;
    }
    Some(base + scaled)
}

/// Why two magnitudes were not found approximately equal.
#[derive(Debug)]
pub enum ApproxEqError {
    /// The allowed relative difference is not a decimal that fits in a `u128`.
    InvalidMaxRelDiff,
    /// Both magnitudes are zero, so their relative difference has no denominator.
    ZeroMagnitudes,
    /// The relative difference exceeds the allowed one. Both are decimals, held as
    /// their value times `UNIT`.
    NotApproxEqual {
        left: u128,
        right: u128,
        rel_diff: u128,
        max_rel_diff: u128,
        panic_msg: Option<String>,
    },
}

/// The report of a relative difference that is too large, without the caller's
/// own message.
pub open spec fn failure_text(left: u128, right: u128, rel_diff: u128, max_rel_diff: u128) -> Seq<
    char,
> {
    "assertion failed: `(left \u{2248} right)`\nleft: "@ + decimal(left as nat) + "\nright: "@
        + decimal(right as nat) + "\nrelative difference: "@ + decimal_text(rel_diff as nat)
        + "\nmax allowed relative difference: "@ + decimal_text(max_rel_diff as nat) + "\n"@
}

/// The message of each error, as a failed assertion reports it.
pub open spec fn approx_message(e: ApproxEqError) -> Seq<char> {
    match e {
        ApproxEqError::InvalidMaxRelDiff => "Invalid maximum relative difference"@,
        ApproxEqError::ZeroMagnitudes => "Denominator must not be zero"@,
        ApproxEqError::NotApproxEqual { left, right, rel_diff, max_rel_diff, panic_msg } => {
            let text = failure_text(left, right, rel_diff, max_rel_diff);
            match panic_msg {
                Some(m) => text + ": "@ + m@,
                None => text,
            }
        },
    }
}

impl ApproxEqError {
    /// The message of this error, as a failed assertion reports it.
    pub fn message(&self) -> (r: String)
        ensures
            r@ == approx_message(*self),
    {
        match self {
            ApproxEqError::InvalidMaxRelDiff => {
                String::from_str("Invalid maximum relative difference")
            },
            ApproxEqError::ZeroMagnitudes => String::from_str("Denominator must not be zero"),
            ApproxEqError::NotApproxEqual { left, right, rel_diff, max_rel_diff, panic_msg } => {
                let mut r = String::from_str("assertion failed: `(left \u{2248} right)`\nleft: ");
                push_decimal(&mut r, *left);
                r.append("\nright: ");
                push_decimal(&mut r, *right);
                r.append("\nrelative difference: ");
                push_decimal_text(&mut r, *rel_diff);
                r.append("\nmax allowed relative difference: ");
                push_decimal_text(&mut r, *max_rel_diff);
                r.append("\n");
                assert(r@ =~= failure_text(*left, *right, *rel_diff, *max_rel_diff));
                match panic_msg {
                    Some(m) => {
                        r.append(": ");
                        r.append(m.as_str());
                    },
                    None => {},
                }
                r
            },
        }
    }
}

pub open spec fn abs_diff(a: u128, b: u128) -> nat {
    if a >= b {
        (a - b) as nat
    } else {
        (b - a) as nat
    }
}

pub open spec fn larger(a: u128, b: u128) -> nat {
    if a >= b {
        a as nat
    } else {
        b as nat
    }
}

/// How far apart `left` and `right` are relative to the larger of them, as a
/// decimal held times `UNIT` and rounded down.
pub open spec fn relative_difference(left: u128, right: u128) -> nat
    recommends
        left > 0 || right > 0,
{
    (abs_diff(left, right) * (UNIT as nat)) / larger(left, right)
}

/// What comparing `left` with `right` within the decimal `max_rel_diff` comes to.
pub open spec fn approx_outcome(
    left: u128,
    right: u128,
    max_rel_diff: Seq<char>,
    panic_msg: Option<String>,
) -> Result<(), ApproxEqError> {
    match parsed_decimal(max_rel_diff) {
        None => Err(ApproxEqError::InvalidMaxRelDiff),
        Some(m) => if left == 0 && right == 0 {
            Err(ApproxEqError::ZeroMagnitudes)
        } else if relative_difference(left, right) > m {
            Err(
                ApproxEqError::NotApproxEqual {
                    left,
                    right,
                    rel_diff: relative_difference(left, right) as u128,
                    max_rel_diff: m,
                    panic_msg,
                },
            )
        } else {
            Ok(())
        },
    }
}

/// Ten times `rem`, divided by `den`: quotient and remainder, without overflow.
fn times_ten_div(rem: u128, den: u128) -> (r: (u128, u128))
    requires
        rem < den,
    ensures
        r.0 * den + r.1 == 10 * rem,
        r.1 < den,
        r.0 <= 10,
{
    let mut quot: u128 = 0;
    let mut acc: u128 = 0;
    let mut k: u128 = 0;
    while k < 10
        invariant
            k <= 10,
            rem < den,
            acc < den,
            quot <= k,
            quot * den + acc == k * rem,
        decreases 10 - k,
    {
        if acc >= den - rem {
            proof {
                assert((quot + 1) * den == quot * den + den) by (nonlinear_arith);
            }
            acc = acc - (den - rem);
            quot = quot + 1;
        } else {
            acc = acc + rem;
        }
        proof {
            assert((k + 1) * rem == k * rem + rem) by (nonlinear_arith);
        }
        k = k + 1;
    }
    (quot, acc)
}

/// `num / den` as a decimal held times `UNIT`, rounded down.
fn ratio_atomics(num: u128, den: u128) -> (r: u128)
    requires
        0 < den,
        num <= den,
    ensures
        r == (num as nat * (UNIT as nat)) / (den as nat),
{
    proof {
        lemma_pow10_unit();
    }
    if num == den {
        proof {
            lemma_fundamental_div_mod_converse(num * UNIT, den as int, UNIT as int, 0);
            assert(num * UNIT == UNIT * den) by (nonlinear_arith)
                requires
                    num == den,
            ;
        }
        return UNIT;
    }
    let mut quot: u128 = 0;
    let mut rem: u128 = num;
    let mut i: usize = 0;
    proof {
        assert(pow10(0) == 1);
    }
    while i < 18
        invariant
            i <= 18,
            num < den,
            rem < den,
            quot * den + rem == num * pow10(i as nat),
            quot < pow10(i as nat),
        decreases 18 - i,
    {
        let (digit, next) = times_ten_div(rem, den);
        proof {
            let p = pow10(i as nat);
            assert(pow10((i + 1) as nat) == 10 * p);
            assert((quot * 10 + digit) * den + next == num * (10 * p)) by (nonlinear_arith)
                requires
                    quot * den + rem == num * p,
                    digit * den + next == 10 * rem,
            ;
            assert(quot * 10 + digit < 10 * p) by (nonlinear_arith)
                requires
                    quot * den + rem == num * p,
                    num < den,
                    0 <= rem,
                    0 <= next < den,
                    digit * den + next == 10 * rem,
                    rem < den,
                    0 < p,
            ;
            lemma_pow10_mono((i + 1) as nat, 18);
            lemma_pow10_unit();
        }
        quot = quot * 10 + digit;
        rem = next;
        i = i + 1;
    }
    proof {
        lemma_fundamental_div_mod_converse(num * UNIT, den as int, quot as int, rem as int);
    }
    quot
}

/// Compares `left` and `right`: `Ok` where their relative difference is at most
/// `max_rel_diff`, a decimal such as `"0.12"`; otherwise the error says why, and the
/// one for a difference that is too large carries both magnitudes, both relative
/// differences and `panic_msg`.
pub fn assert_approx_eq_impl(
    left: u128,
    right: u128,
    max_rel_diff: &str,
    panic_msg: Option<String>,
) -> (r: Result<(), ApproxEqError>)
    ensures
        r == approx_outcome(left, right, max_rel_diff@, panic_msg),
{
    let max_rel_diff = match parse_decimal(max_rel_diff) {
        Some(m) => m,
        None => {
            return Err(ApproxEqError::InvalidMaxRelDiff);
        },
    };
    let (largest, diff) = if left >= right {
        (left, left - right)
    } else {
        (right, right - left)
    };
    if largest == 0 {
        return Err(ApproxEqError::ZeroMagnitudes);
    }
    let rel_diff = ratio_atomics(diff, largest);
    if rel_diff > max_rel_diff {
        Err(ApproxEqError::NotApproxEqual { left, right, rel_diff, max_rel_diff, panic_msg })
    } else {
        Ok(())
    }
}

} // verus!
