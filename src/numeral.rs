//! Decimal numerals: of whole numbers, and of fixed-point decimals with eighteen
//! fractional digits.

use vstd::prelude::*;

use vstd::string::{StrSliceExecFns, StringExecFns};

verus! {

/// One, as a decimal with eighteen fractional digits holds it.
pub const UNIT: u128 = 1_000_000_000_000_000_000;

pub open spec fn pow10(n: nat) -> nat
    decreases n,
{
    if n == 0 {
        1
    } else {
        10 * pow10((n - 1) as nat)
    }
}

/// The decimal digit `d` as a character.
pub open spec fn digit_char(d: nat) -> char {
    "0123456789"@[d as int]
}

/// The decimal numeral of `n`, without leading zeros.
pub open spec fn decimal(n: nat) -> Seq<char>
    decreases n,
{
    if n < 10 {
        seq![digit_char(n)]
    } else {
        decimal(n / 10) + seq![digit_char(n % 10)]
    }
}

/// The last `width` decimal digits of `n`, with leading zeros.
pub open spec fn padded(n: nat, width: nat) -> Seq<char>
    decreases width,
{
    if width == 0 {
        Seq::empty()
    } else {
        padded(n / 10, (width - 1) as nat) + seq![digit_char(n % 10)]
    }
}

/// `s` without its trailing zeros.
pub open spec fn trim_zeros(s: Seq<char>) -> Seq<char>
    decreases s.len(),
{
    if s.len() > 0 && s.last() == '0' {
        trim_zeros(s.drop_last())
    } else {
        s
    }
}

/// The numeral of the decimal whose value times `UNIT` is `atomics`: its whole
/// part and, where the rest is not zero, a dot and the fractional digits without
/// trailing zeros.
pub open spec fn decimal_text(atomics: nat) -> Seq<char> {
    let whole = atomics / (UNIT as nat);
    let frac = atomics % (UNIT as nat);
    if frac == 0 {
        decimal(whole)
    } else {
        decimal(whole) + seq!['.'] + trim_zeros(padded(frac, 18))
    }
}

pub proof fn lemma_pow10_unit()
    ensures
        pow10(18) == UNIT,
{
    reveal_with_fuel(pow10, 19);
}

pub proof fn lemma_pow10_mono(a: nat, b: nat)
    requires
        a <= b,
    ensures
        pow10(a) <= pow10(b),
    decreases b,
{
    if a < b {
        lemma_pow10_mono(a, (b - 1) as nat);
    }
}

proof fn lemma_digit_chars()
    ensures
        digit_char(0) == '0',
        forall|d: nat| 0 < d < 10 ==> #[trigger] digit_char(d) != '0',
{
    reveal_strlit("0123456789");
}

fn digit_str(d: u128) -> (r: &'static str)
    requires
        d < 10,
    ensures
        r@ == seq![digit_char(d as nat)],
{
    let digits: &'static str = "0123456789";
    proof {
        reveal_strlit("0123456789");
    }
    let r = digits.substring_char(d as usize, d as usize + 1);
    assert(r@ =~= seq![digit_char(d as nat)]);
    r
}

/// Appends the decimal numeral of `n`.
pub fn push_decimal(s: &mut String, n: u128)
    ensures
        final(s)@ == old(s)@ + decimal(n as nat),
    decreases n,
{
    let ghost start = s@;
    if n >= 10 {
        push_decimal(s, n / 10);
    }
    s.append(digit_str(n % 10));
    assert(s@ =~= start + decimal(n as nat));
}

fn push_padded(s: &mut String, n: u128, width: u32)
    ensures
        final(s)@ == old(s)@ + padded(n as nat, width as nat),
    decreases width,
{
    let ghost start = s@;
    if width > 0 {
        push_padded(s, n / 10, width - 1);
        s.append(digit_str(n % 10));
    }
    assert(s@ =~= start + padded(n as nat, width as nat));
}

/// Appends the numeral of the decimal whose value times `UNIT` is `atomics`.
pub fn push_decimal_text(s: &mut String, atomics: u128)
    ensures
        final(s)@ == old(s)@ + decimal_text(atomics as nat),
{
    let ghost start = s@;
    let whole = atomics / UNIT;
    let frac = atomics % UNIT;
    push_decimal(s, whole);
    if frac != 0 {
        s.append(".");
        proof {
            reveal_strlit(".");
        }
        let mut digits = frac;
        let mut width: u32 = 18;
        proof {
            lemma_pow10_unit();
        }
        while digits % 10 == 0
            invariant
                0 < digits < pow10(width as nat),
                width <= 18,
                trim_zeros(padded(digits as nat, width as nat)) == trim_zeros(
                    padded(frac as nat, 18),
                ),
            decreases width,
        {
            proof {
                lemma_digit_chars();
                assert(width > 0);
                let p = padded(digits as nat, width as nat);
                assert(p.drop_last() =~= padded((digits / 10) as nat, (width - 1) as nat));
                assert(digits / 10 < pow10((width - 1) as nat)) by (nonlinear_arith)
                    requires
                        digits < 10 * pow10((width - 1) as nat),
                ;
                assert(0 < digits / 10);
            }
            digits = digits / 10;
            width = width - 1;
        }
        proof {
            lemma_digit_chars();
            assert(width > 0) by {
                if width == 0 {
                    assert(pow10(0) == 1);
                }
            }
        }
        push_padded(s, digits, width);
        assert(s@ =~= start + decimal_text(atomics as nat));
    }
}

} // verus!
