//! Field values as the decoder hands them over, and exact integer parts of
//! binary floating-point values.

use vstd::prelude::*;
use vstd::arithmetic::power2::{pow2, lemma_pow2_adds, lemma_pow2_pos, lemma_pow2_unfold, lemma2_to64};
use vstd::arithmetic::div_mod::{
    lemma_div_denominator, lemma_fundamental_div_mod, lemma_fundamental_div_mod_converse,
};

verus! {

/// One decoded field value.
#[derive(Clone, Debug)]
pub enum FieldValue {
    /// An integer-typed value, signed or unsigned.
    Integer(i128),
    /// A finite floating-point value, held exactly as `mantissa * 2^exponent`.
    Float { mantissa: i64, exponent: i32 },
    /// A string: text, a timestamp, or an enumeration label.
    Text(String),
    /// An array, or a value the decoder marked invalid (a non-finite float among them).
    Other,
}

/// A field value with the units the decoder gives it.
#[derive(Clone, Debug)]
pub struct ValueWithUnits {
    pub value: FieldValue,
    pub units: String,
}

/// The value as a count: an integer that fits in `u32`.
pub open spec fn count_of(v: &FieldValue) -> Option<u32> {
    match v {
        FieldValue::Integer(i) => if 0 <= *i <= u32::MAX {
            Some(*i as u32)
        } else {
            None
        },
        _ => None,
    }
}

/// Reads a value as a count.
pub fn count_value(v: &FieldValue) -> (r: Option<u32>)
    ensures
        r == count_of(v),
{
    match v {
        FieldValue::Integer(i) => if 0 <= *i && *i <= u32::MAX as i128 {
            Some(*i as u32)
        } else {
            None
        },
        _ => None,
    }
}

/// Reads a value as a number `m * 2^e`.
pub fn real_value(v: &FieldValue) -> (r: Option<(i128, i32)>)
    ensures
        match r {
            Some((m, e)) => real_parts(v) == Some((m as int, e as int)) && -0x1_0000_0000_0000_0000
                <= m <= 0x1_0000_0000_0000_0000,
            None => real_parts(v) is None,
        },
{
    match v {
        FieldValue::Integer(i) => if -0x1_0000_0000_0000_0000 <= *i && *i <= 0x1_0000_0000_0000_0000 {
            Some((*i, 0))
        } else {
            None
        },
        FieldValue::Float { mantissa, exponent } => Some((*mantissa as i128, *exponent)),
        _ => None,
    }
}

/// The largest magnitude that `whole_part` accepts for its operands.
pub open spec fn operand_bound() -> int {
    0x1_0000_0000_0000_0000_0000
}

/// `x` limited to the range `lo ..= hi`.
pub open spec fn clamp(x: int, lo: int, hi: int) -> int {
    if x < lo {
        lo
    } else if x > hi {
        hi
    } else {
        x
    }
}

/// The value `m * 2^e` truncated toward zero.
pub open spec fn trunc_scaled(m: int, e: int) -> int {
    if e >= 0 {
        m * pow2(e as nat)
    } else if m >= 0 {
        m / (pow2((-e) as nat) as int)
    } else {
        -((-m) / (pow2((-e) as nat) as int))
    }
}

/// The value `m * 2^e` rounded down to a whole number.
pub open spec fn floor_scaled(m: int, e: int) -> int {
    if e >= 0 {
        m * pow2(e as nat)
    } else {
        m / (pow2((-e) as nat) as int)
    }
}

/// The value as a pair `(m, e)` standing for `m * 2^e`, where it is a number
/// (an integer of at most 64 bits, or a float).
pub open spec fn real_parts(v: &FieldValue) -> Option<(int, int)> {
    match v {
        FieldValue::Integer(i) => if -0x1_0000_0000_0000_0000 <= *i <= 0x1_0000_0000_0000_0000 {
            Some((*i as int, 0))
        } else {
            None
        },
        FieldValue::Float { mantissa, exponent } => Some((*mantissa as int, *exponent as int)),
        _ => None,
    }
}

/// Once a quotient by a power of two is zero, so is every quotient by a larger one.
proof fn lemma_quotient_vanishes(x: int, k: nat, n: nat)
    requires
        0 <= x,
        k <= n,
        x / (pow2(k) as int) == 0,
    ensures
        x / (pow2(n) as int) == 0,
{
    lemma_pow2_pos(k);
    lemma_pow2_pos((n - k) as nat);
    lemma_pow2_adds(k, (n - k) as nat);
    lemma_div_denominator(x, pow2(k) as int, pow2((n - k) as nat) as int);
}

/// `m * 2^e` truncated toward zero, then limited to `lo ..= hi`.
pub fn whole_part(m: i128, e: i32, lo: i128, hi: i128) -> (r: i128)
    requires
        -operand_bound() <= m <= operand_bound(),
        -operand_bound() <= lo <= 0 <= hi <= operand_bound(),
    ensures
        r == clamp(trunc_scaled(m as int, e as int), lo as int, hi as int),
{
    if e >= 0 {
        let mut acc: i128 = m;
        let mut k: i32 = 0;
        proof {
            lemma2_to64();
            assert((m as int) * pow2(0) == m as int) by (nonlinear_arith)
                requires
                    pow2(0) == 1,
            ;
        }
        while k < e
            invariant
                0 <= k <= e,
                -operand_bound() <= lo <= 0 <= hi <= operand_bound(),
                acc as int == (m as int) * pow2(k as nat),
                -2 * operand_bound() <= acc <= 2 * operand_bound(),
                -operand_bound() <= m <= operand_bound(),
            decreases e - k,
        {
            if acc > hi || acc < lo {
                proof {
                    let rest = (e - k) as nat;
                    lemma_pow2_adds(k as nat, rest);
                    lemma_pow2_pos(rest);
                    let p = pow2(rest) as int;
                    assert((m as int) * pow2(e as nat) == (acc as int) * p) by (nonlinear_arith)
                        requires
                            acc as int == (m as int) * pow2(k as nat),
                            pow2(e as nat) == pow2(k as nat) * pow2(rest),
                            p == pow2(rest),
                    ;
                    assert(acc > hi ==> (acc as int) * p >= acc as int) by (nonlinear_arith)
                        requires
                            p >= 1,
                            hi >= 0,
                    ;
                    assert(acc < lo ==> (acc as int) * p <= acc as int) by (nonlinear_arith)
                        requires
                            p >= 1,
                            lo <= 0,
                    ;
                }
                if acc > hi {
                    return hi;
                } else {
                    return lo;
                }
            }
            proof {
                lemma_pow2_unfold((k + 1) as nat);
                assert((m as int) * pow2((k + 1) as nat) == (acc as int) * 2) by (nonlinear_arith)
                    requires
                        acc as int == (m as int) * pow2(k as nat),
                        pow2((k + 1) as nat) == 2 * pow2(k as nat),
                ;
            }
            acc = acc * 2;
            k = k + 1;
        }
        if acc > hi {
            hi
        } else if acc < lo {
            lo
        } else {
            acc
        }
    } else {
        let neg = m < 0;
        let mag: i128 = if neg {
            -m
        } else {
            m
        };
        let n: i64 = -(e as i64);
        let mut a: i128 = mag;
        let mut k: i64 = 0;
        proof {
            lemma2_to64();
            assert((mag as int) / (pow2(0) as int) == mag as int);
        }
        while k < n && a > 0
            invariant
                0 <= k <= n,
                n == -(e as int),
                0 <= mag,
                0 <= a <= mag,
                a as int == (mag as int) / (pow2(k as nat) as int),
            decreases n - k,
        {
            proof {
                lemma_pow2_pos(k as nat);
                lemma_pow2_unfold((k + 1) as nat);
                lemma_div_denominator(mag as int, pow2(k as nat) as int, 2);
                assert(pow2(k as nat) * 2 == pow2((k + 1) as nat));
            }
            a = a / 2;
            k = k + 1;
        }
        proof {
            if k < n {
                lemma_quotient_vanishes(mag as int, k as nat, n as nat);
            }
        }
        let v: i128 = if neg {
            -a
        } else {
            a
        };
        if v > hi {
            hi
        } else if v < lo {
            lo
        } else {
            v
        }
    }
}

/// Rounding down a negative `m / p` is truncating `(m + 1) / p` toward zero,
/// less one.
proof fn lemma_floor_negative(m: int, p: int)
    requires
        m < 0,
        p > 0,
    ensures
        m / p == -((-m - 1) / p) - 1,
{
    let x = -m - 1;
    lemma_fundamental_div_mod(x, p);
    let q = x / p;
    let r = x % p;
    assert(m == (-q - 1) * p + (p - r - 1)) by (nonlinear_arith)
        requires
            x == p * q + r,
            x == -m - 1,
    ;
    lemma_fundamental_div_mod_converse(m, p, -q - 1, p - r - 1);
}

/// `m * 2^e` rounded down to a whole number, then limited to `lo ..= hi`.
pub fn floor_part(m: i128, e: i32, lo: i128, hi: i128) -> (r: i128)
    requires
        -operand_bound() < m <= operand_bound(),
        -operand_bound() <= lo < 0 <= hi < operand_bound(),
    ensures
        r == clamp(floor_scaled(m as int, e as int), lo as int, hi as int),
{
    if e >= 0 || m >= 0 {
        whole_part(m, e, lo, hi)
    } else {
        let t = whole_part(m + 1, e, lo + 1, hi + 1);
        proof {
            let p = pow2((-e) as nat) as int;
            lemma_pow2_pos((-e) as nat);
            lemma_floor_negative(m as int, p);
        }
        t - 1
    }
}

} // verus!
