//! The single-precision number of a decimal literal.
//!
//! A literal has digits and a power of ten. Its number is the nearest
//! single-precision number to the digits times that power; of two that are
//! equally near, the one whose last bit is zero. A literal beyond the
//! largest single-precision number by half a step or more is infinite.
//!
//! The literal is first brought to units of 2^-150, half the smallest step
//! of single precision, noting whether anything is left below one unit; then
//! it is rounded to 24 bits.

use crate::float32::{lemma_top_bit_bounds, lemma_top_bit_range, top_bit, Float32};
use crate::text::{lemma_pow10_grows, pow10};
use crate::wide::{
    div_rem, is_normal, lemma_normal_is_large, mul_add, small, times_pow2, to_small, value_of,
};
use vstd::arithmetic::div_mod::*;
use vstd::arithmetic::mul::*;
use vstd::arithmetic::power2::*;
use vstd::prelude::*;

verus! {

/// The bits of positive infinity.
pub const INFINITY_BITS: u32 = 0x7F80_0000;

/// The largest power of ten that a literal is given: with a larger one
/// the number is infinite, or zero, just the same.
pub const MAX_EXPONENT: u128 = 0x10_0000_0000_0000_0000_0000_0000;

/// The bits of the magnitude of the single-precision number nearest to
/// `units` times 2^-150, or to a little more if not `exact`: less than one
/// unit more.
pub open spec fn rounded_bits(units: nat, exact: bool) -> u32 {
    if units < 0x100_0000 {
        let kept = units / 2;
        let up = units % 2 == 1 && (!exact || kept % 2 == 1);
        (kept + (if up {
            1nat
        } else {
            0nat
        })) as u32
    } else {
        let shift = (top_bit(units) - 23) as nat;
        let kept = units / pow2(shift);
        let rest = units % pow2(shift);
        let half = pow2((shift - 1) as nat);
        let up = rest > half || (rest == half && (!exact || kept % 2 == 1));
        let raw = shift * 0x80_0000 + (kept - 0x80_0000) + (if up {
            1nat
        } else {
            0nat
        });
        if raw >= INFINITY_BITS {
            INFINITY_BITS
        } else {
            raw as u32
        }
    }
}

/// The digits times ten to the exponent, in units of 2^-150 and cut to a
/// whole number of units, and whether nothing was cut.
pub open spec fn scaled_decimal(digits: nat, exponent: int) -> (nat, bool) {
    let units = digits * pow2(150);
    if exponent >= 0 {
        (units * pow10(exponent as nat), true)
    } else {
        (units / pow10((-exponent) as nat), units % pow10((-exponent) as nat) == 0)
    }
}

/// The single-precision number nearest to the digits times ten to the
/// exponent, with a sign.
pub open spec fn decimal_float(negative: bool, digits: nat, exponent: int) -> Float32 {
    let scaled = scaled_decimal(digits, exponent);
    Float32 {
        bits: ((if negative {
            0x8000_0000nat
        } else {
            0nat
        }) + rounded_bits(scaled.0, scaled.1)) as u32,
    }
}

/// A number of 2^320 units or more is infinite.
pub proof fn lemma_huge_is_infinite(units: nat, exact: bool)
    requires
        units >= pow2(320),
    ensures
        rounded_bits(units, exact) == INFINITY_BITS,
{
    lemma2_to64();
    lemma_pow2_pos(320);
    lemma_pow2_strictly_increases(24, 320);
    lemma_top_bit_bounds(units);
    let top = top_bit(units);
    if top < 320 {
        if top + 1 < 320 {
            lemma_pow2_strictly_increases(top + 1, 320);
        }
        assert(false);
    }
    let shift = (top - 23) as nat;
    let kept = units / pow2(shift);
    lemma_pow2_pos(shift);
    lemma_pow2_adds(23, shift);
    assert(pow2(23) * pow2(shift) == pow2(shift) * pow2(23)) by (nonlinear_arith);
    lemma_div_is_ordered((pow2(shift) * pow2(23)) as int, units as int, pow2(shift) as int);
    lemma_div_multiples_vanish(pow2(23) as int, pow2(shift) as int);
    assert(kept >= 0x80_0000);
    assert(shift * 0x80_0000 >= 297 * 0x80_0000) by (nonlinear_arith)
        requires
            shift >= 297,
    ;
}

/// The bits of the magnitude of the single-precision number nearest to a
/// whole number of units of 2^-150, or to a little more if not `exact`.
#[verifier::rlimit(40)]
pub fn round_units(units: Vec<u32>, exact: bool) -> (bits: u32)
    requires
        is_normal(units@),
    ensures
        bits == rounded_bits(value_of(units@), exact),
        bits <= INFINITY_BITS,
{
    let ghost total = value_of(units@);
    if units.len() > 10 {
        proof {
            lemma_normal_is_large(units@);
            if units@.len() > 11 {
                lemma_pow2_strictly_increases(320, (32 * (units@.len() - 1)) as nat);
            }
            lemma_huge_is_infinite(total, exact);
        }
        return INFINITY_BITS;
    }
    let mut current = units;
    let mut shift: u32 = 0;
    let mut last = false;
    let mut lower = false;
    let mut small: u32 = 0;
    let mut done = false;
    proof {
        lemma2_to64();
        assert(total / pow2(0) == total);
        crate::wide::lemma_value_bound(units@);
        if units@.len() < 10 {
            lemma_pow2_strictly_increases((32 * units@.len()) as nat, 320);
        }
    }
    while !done
        invariant
            is_normal(current@),
            total < pow2(320),
            value_of(current@) == total / pow2(shift as nat),
            shift <= 296,
            shift == 0 ==> !last && !lower,
            shift >= 1 ==> last == (total % pow2(shift as nat) >= pow2((shift - 1) as nat)),
            shift >= 1 ==> lower == (total % pow2((shift - 1) as nat) != 0),
            shift >= 1 ==> value_of(current@) >= 0x80_0000,
            done ==> small == value_of(current@) && small < 0x100_0000,
        decreases value_of(current@) + (if done { 0nat } else { 1nat }),
    {
        let fits = match to_small(&current) {
            Some(v) => if v < 0x100_0000 {
                small = v;
                true
            } else {
                false
            },
            None => false,
        };
        if fits {
            done = true;
        } else {
            let ghost before = value_of(current@);
            let (half, bit) = div_rem(&current, 2);
            proof {
                let low = pow2(shift as nat);
                lemma_pow2_pos(shift as nat);
                lemma_pow2_unfold((shift + 1) as nat);
                assert(before >= 0x100_0000);
                assert(value_of(half@) == before / 2);
                assert(bit == before % 2);
                lemma_div_denominator(total as int, low as int, 2);
                assert(low * 2 == pow2((shift + 1) as nat));
                lemma_breakdown(total as int, low as int, 2);
                assert(total % pow2((shift + 1) as nat) == low * ((total / low) % 2) + total % low);
                lemma_mod_bound(total as int, low as int);
                if bit == 1 {
                    assert(low * 1 == low) by (nonlinear_arith);
                } else {
                    assert(low * 0 == 0) by (nonlinear_arith);
                }
                if shift >= 1 {
                    let lowest = pow2((shift - 1) as nat);
                    lemma_pow2_pos((shift - 1) as nat);
                    lemma_pow2_unfold(shift as nat);
                    lemma_breakdown(total as int, lowest as int, 2);
                    lemma_mod_bound(total as int, lowest as int);
                    let b = (total / lowest) % 2;
                    assert(total % low == lowest * b + total % lowest);
                    if b == 1 {
                        assert(lowest * 1 == lowest) by (nonlinear_arith);
                    } else {
                        assert(lowest * 0 == 0) by (nonlinear_arith);
                    }
                } else {
                    lemma2_to64();
                    assert(low == 1);
                    assert(total % low == 0);
                }
                // The number has at least 25 bits above the shift.
                lemma2_to64();
                lemma_pow2_adds(24, shift as nat);
                lemma_fundamental_div_mod(total as int, low as int);
                assert(pow2(24) * low <= total) by (nonlinear_arith)
                    requires
                        total == low * (total / low) + total % low,
                        total / low >= pow2(24),
                        total % low >= 0,
                        low > 0,
                ;
                if shift + 24 >= 320 {
                    if shift + 24 > 320 {
                        lemma_pow2_strictly_increases(320, (24 + shift) as nat);
                    }
                    assert(false);
                }
            }
            lower = lower || last;
            last = bit == 1;
            current = half;
            shift = shift + 1;
        }
    }
    let up_if = last && (lower || !exact || small % 2 == 1);
    if shift == 0 {
        let kept: u32 = small / 2;
        let up = small % 2 == 1 && (!exact || kept % 2 == 1);
        if up {
            kept + 1
        } else {
            kept
        }
    } else {
        proof {
            let low = pow2(shift as nat);
            lemma2_to64();
            lemma_pow2_pos(shift as nat);
            lemma_pow2_adds(23, shift as nat);
            lemma_pow2_adds(24, shift as nat);
            lemma_fundamental_div_mod(total as int, low as int);
            lemma_mod_bound(total as int, low as int);
            assert(pow2(23) * low <= total) by (nonlinear_arith)
                requires
                    total == low * (total / low) + total % low,
                    total / low >= pow2(23),
                    total % low >= 0,
                    low > 0,
            ;
            assert(total < pow2(24) * low) by (nonlinear_arith)
                requires
                    total == low * (total / low) + total % low,
                    total / low < pow2(24),
                    total % low < low,
                    low > 0,
            ;
            lemma_top_bit_range(total, (23 + shift) as nat);
            assert(total >= 0x100_0000) by {
                lemma_pow2_strictly_increases(24, (23 + shift) as nat + 1);
                if shift > 1 {
                    lemma_pow2_strictly_increases(24, (23 + shift) as nat);
                }
            }
            let lowest = pow2((shift - 1) as nat);
            lemma_pow2_pos((shift - 1) as nat);
            lemma_pow2_unfold(shift as nat);
            lemma_breakdown(total as int, lowest as int, 2);
            lemma_mod_bound(total as int, lowest as int);
            let b = (total / lowest) % 2;
            if b == 1 {
                assert(lowest * 1 == lowest) by (nonlinear_arith);
            } else {
                assert(lowest * 0 == 0) by (nonlinear_arith);
            }
        }
        let raw: u64 = (shift as u64) * 0x80_0000 + ((small - 0x80_0000) as u64) + (if up_if {
            1
        } else {
            0
        });
        if raw >= INFINITY_BITS as u64 {
            INFINITY_BITS
        } else {
            raw as u32
        }
    }
}

/// A number below a power of ten leaves nothing when it is divided by a
/// larger power of ten, and is itself what is left.
pub proof fn lemma_small_over_power(a: nat, j: nat, k: nat)
    requires
        a < pow10(j),
        j <= k,
    ensures
        a / pow10(k) == 0,
        a % pow10(k) == a,
{
    lemma_pow10_grows(j, k);
    lemma_basic_div(a as int, pow10(k) as int);
    lemma_small_mod(a, pow10(k));
}

/// The bits of the magnitude of the single-precision number nearest to
/// the digits times ten to the exponent.
#[verifier::rlimit(40)]
pub fn decimal_bits(digits: Vec<u32>, exponent: i128) -> (bits: u32)
    requires
        is_normal(digits@),
        -0x4000_0000_0000_0000_0000_0000_0000_0000 < exponent
            < 0x4000_0000_0000_0000_0000_0000_0000_0000,
    ensures
        bits == rounded_bits(
            scaled_decimal(value_of(digits@), exponent as int).0,
            scaled_decimal(value_of(digits@), exponent as int).1,
        ),
        bits <= INFINITY_BITS,
{
    let ghost number = value_of(digits@);
    // Bring the digits to units of 2^-150: five times 2^30.
    let mut units = digits;
    let mut step: u32 = 0;
    proof {
        lemma2_to64();
        assert(number * pow2(0) == number);
    }
    while step < 5
        invariant
            step <= 5,
            is_normal(units@),
            value_of(units@) == number * pow2((30 * step) as nat),
        decreases 5 - step,
    {
        proof {
            lemma2_to64();
            lemma_pow2_adds((30 * step) as nat, 30);
            assert((number * pow2((30 * step) as nat)) * 0x4000_0000 + 0 == number * (pow2(
                (30 * step) as nat,
            ) * 0x4000_0000)) by (nonlinear_arith);
        }
        units = mul_add(&units, 0x4000_0000, 0);
        step = step + 1;
    }
    let ghost base = number * pow2(150);
    assert(value_of(units@) == base);
    proof {
        lemma_pow10_grows(0, 0);
    }
    if exponent >= 0 {
        let mut done: i128 = 0;
        proof {
            assert(base * pow10(0) == base) by (nonlinear_arith)
                requires
                    pow10(0) == 1,
            ;
        }
        while done < exponent && units.len() <= 10 && units.len() > 0
            invariant
                0 <= done <= exponent,
                is_normal(units@),
                value_of(units@) == base * pow10(done as nat),
            decreases exponent - done,
        {
            proof {
                assert((base * pow10(done as nat)) * 10 + 0 == base * pow10((done + 1) as nat))
                    by (nonlinear_arith)
                    requires
                        pow10((done + 1) as nat) == 10 * pow10(done as nat),
                ;
            }
            units = mul_add(&units, 10, 0);
            done = done + 1;
        }
        proof {
            let last = base * pow10(exponent as nat);
            if done < exponent {
                lemma_pow10_grows(done as nat, exponent as nat);
                assert(base * pow10(done as nat) <= base * pow10(exponent as nat))
                    by (nonlinear_arith)
                    requires
                        pow10(done as nat) <= pow10(exponent as nat),
                        base >= 0,
                ;
                if units@.len() == 0 {
                    assert(value_of(units@) == 0);
                    lemma_pow10_grows(done as nat, done as nat);
                    assert(base == 0) by (nonlinear_arith)
                        requires
                            base * pow10(done as nat) == 0,
                            pow10(done as nat) >= 1,
                            base >= 0,
                    ;
                    assert(last == 0) by (nonlinear_arith)
                        requires
                            base == 0,
                            last == base * pow10(exponent as nat),
                    ;
                } else {
                    lemma_normal_is_large(units@);
                    if units@.len() > 11 {
                        lemma_pow2_strictly_increases(320, (32 * (units@.len() - 1)) as nat);
                    }
                    lemma_huge_is_infinite(last, true);
                }
            }
        }
        if done < exponent {
            if units.len() == 0 {
                0
            } else {
                INFINITY_BITS
            }
        } else {
            round_units(units, true)
        }
    } else {
        let count: i128 = -exponent;
        let mut done: i128 = 0;
        let mut exact = true;
        proof {
            assert(base / pow10(0) == base);
            assert(base % pow10(0) == 0);
        }
        while done < count && units.len() > 0
            invariant
                0 <= done <= count,
                is_normal(units@),
                value_of(units@) == base / pow10(done as nat),
                exact == (base % pow10(done as nat) == 0),
            decreases count - done,
        {
            let (quotient, left) = div_rem(&units, 10);
            proof {
                let power = pow10(done as nat);
                lemma_pow10_grows(done as nat, done as nat);
                assert(pow10((done + 1) as nat) == power * 10) by (nonlinear_arith)
                    requires
                        pow10((done + 1) as nat) == 10 * power,
                ;
                lemma_div_denominator(base as int, power as int, 10);
                lemma_breakdown(base as int, power as int, 10);
                lemma_mod_bound(base as int, power as int);
                lemma_fundamental_div_mod((base / power) as int, 10);
                assert(value_of(units@) == 10 * value_of(quotient@) + left) by (nonlinear_arith)
                    requires
                        value_of(units@) == value_of(quotient@) * 10 + left,
                ;
                lemma_fundamental_div_mod_converse(
                    (base / power) as int,
                    10,
                    value_of(quotient@) as int,
                    left as int,
                );
                assert(power * left == 0 <==> left == 0) by (nonlinear_arith)
                    requires
                        power >= 1,
                        left >= 0,
                ;
                assert(power * ((base / power) % 10) >= 0) by (nonlinear_arith)
                    requires
                        power >= 1,
                        (base / power) % 10 >= 0,
                ;
            }
            units = quotient;
            exact = exact && left == 0;
            done = done + 1;
        }
        proof {
            if done < count {
                assert(value_of(units@) == 0);
                let power = pow10(done as nat);
                lemma_pow10_grows(done as nat, done as nat);
                lemma_small_div_converse(base as int, power as int);
                assert(base < power);
                lemma_small_over_power(base, done as nat, count as nat);
                lemma_small_mod(base, power);
            }
        }
        round_units(units, exact)
    }
}

impl Float32 {
    /// The single-precision number nearest to digits times ten to an
    /// exponent, with a sign: `decimal(false, 4, -1)` is the number of the
    /// literal `0.4`.
    pub open spec fn decimal(negative: bool, digits: nat, exponent: int) -> Float32 {
        decimal_float(negative, digits, exponent)
    }

    /// The single-precision number nearest to digits times ten to an
    /// exponent, with a sign.
    pub fn from_decimal(negative: bool, digits: u64, exponent: i32) -> (f: Float32)
        ensures
            f == Float32::decimal(negative, digits as nat, exponent as int),
    {
        let high: u32 = (digits / 0x1_0000_0000) as u32;
        let low: u32 = (digits % 0x1_0000_0000) as u32;
        let upper = mul_add(&small(high), 0x1_0000, 0);
        let all = mul_add(&upper, 0x1_0000, low);
        proof {
            assert((high * 0x1_0000 + 0) * 0x1_0000 + low == digits) by (nonlinear_arith)
                requires
                    digits == high * 0x1_0000_0000 + low,
            ;
        }
        let bits = decimal_bits(all, exponent as i128);
        let sign: u32 = if negative {
            0x8000_0000
        } else {
            0
        };
        Float32 { bits: sign + bits }
    }

    /// One divided by the number, rounded to the nearest single-precision
    /// number: infinite for a zero, zero for an infinity, and a NaN for a NaN.
    pub open spec fn reciprocal_of(self) -> Float32 {
        if self.is_nan() {
            Float32 {
                bits: (if self.fraction_field() < 0x40_0000 {
                    self.bits + 0x40_0000
                } else {
                    self.bits as int
                }) as u32,
            }
        } else {
            let sign: nat = if self.negative() {
                0x8000_0000
            } else {
                0
            };
            let one = pow2((299 - self.weight()) as nat);
            let size: nat = if !self.is_finite() {
                0
            } else if self.significand() == 0 {
                INFINITY_BITS as nat
            } else {
                rounded_bits(one / self.significand(), one % self.significand() == 0) as nat
            };
            Float32 { bits: (sign + size) as u32 }
        }
    }

    /// One divided by the number.
    pub fn reciprocal(self) -> (f: Float32)
        ensures
            f == self.reciprocal_of(),
    {
        let e = self.exponent();
        let m = self.fraction();
        let sign: u32 = if self.is_negative() {
            0x8000_0000
        } else {
            0
        };
        if e == 255 {
            if m != 0 {
                return Float32 {
                    bits: if m < 0x40_0000 {
                        proof {
                            crate::float32::lemma_fields_of(sign as nat, 255, m as nat);
                            lemma_fundamental_div_mod(self.bits as int, 0x80_0000);
                        }
                        self.bits + 0x40_0000
                    } else {
                        self.bits
                    },
                };
            }
            return Float32 { bits: sign };
        }
        let significand: u32 = if e == 0 {
            m
        } else {
            m + 0x80_0000
        };
        if significand == 0 {
            return Float32 { bits: sign + INFINITY_BITS };
        }
        let w: u32 = if e == 0 {
            0
        } else {
            e - 1
        };
        let one = times_pow2(small(1), 299 - w);
        let (quotient, left) = div_rem(&one, significand);
        proof {
            let total = pow2((299 - w) as nat);
            assert(1 * total == total) by (nonlinear_arith);
            assert(value_of(one@) == significand * value_of(quotient@) + left) by (nonlinear_arith)
                requires
                    value_of(one@) == value_of(quotient@) * significand + left,
            ;
            lemma_fundamental_div_mod_converse(
                total as int,
                significand as int,
                value_of(quotient@) as int,
                left as int,
            );
        }
        let bits = round_units(quotient, left == 0);
        Float32 { bits: sign + bits }
    }
}

} // verus!
