//! Single-precision numbers as bit patterns, and their conversion to and from
//! the fixed-point formats of the instruction words.
//!
//! A number is held as its IEEE 754 binary32 bit pattern. Its mathematical
//! model is an integer: every finite binary32 value is a multiple of 2^-149,
//! so `scaled` gives the value times 2^149.

use vstd::arithmetic::div_mod::*;
use vstd::arithmetic::mul::*;
use vstd::arithmetic::power2::*;
use vstd::prelude::*;
use vstd::std_specs::cmp::PartialEqSpecImpl;

verus! {

/// A single-precision number, held as its IEEE 754 bit pattern.
#[derive(Clone, Copy, Debug)]
pub struct Float32 {
    pub bits: u32,
}

impl Float32 {
    /// The sign bit is set.
    pub open spec fn negative(self) -> bool {
        self.bits >= 0x8000_0000
    }

    /// The eight exponent bits.
    pub open spec fn exponent_field(self) -> nat {
        ((self.bits as nat) / 0x80_0000) % 256
    }

    /// The twenty-three fraction bits.
    pub open spec fn fraction_field(self) -> nat {
        (self.bits as nat) % 0x80_0000
    }

    /// Neither an infinity nor a NaN.
    pub open spec fn is_finite(self) -> bool {
        self.exponent_field() < 255
    }

    /// Not a number.
    pub open spec fn is_nan(self) -> bool {
        self.exponent_field() == 255 && self.fraction_field() != 0
    }

    /// The significand as an integer, with the hidden bit of a normal number.
    pub open spec fn significand(self) -> nat {
        if self.exponent_field() == 0 {
            self.fraction_field()
        } else {
            0x80_0000 + self.fraction_field()
        }
    }

    /// The weight of the significand's last bit, as a power of two over 2^-149.
    pub open spec fn weight(self) -> nat {
        if self.exponent_field() == 0 {
            0
        } else {
            (self.exponent_field() - 1) as nat
        }
    }

    /// The absolute value times 2^149 (of a finite number).
    pub open spec fn magnitude(self) -> nat {
        self.significand() * pow2(self.weight())
    }

    /// The value times 2^149 (of a finite number).
    pub open spec fn scaled(self) -> int {
        if self.negative() {
            -(self.magnitude() as int)
        } else {
            self.magnitude() as int
        }
    }

    /// Equality of the values: a NaN equals nothing, and the two zeros are equal.
    pub open spec fn same_value(self, other: Float32) -> bool {
        &&& !self.is_nan()
        &&& !other.is_nan()
        &&& (self.bits == other.bits || (self.bits % 0x8000_0000 == 0 && other.bits % 0x8000_0000
            == 0))
    }

    /// The value is finite and lies in `[-2^log2_bound, 2^log2_bound)`.
    pub open spec fn within(self, log2_bound: nat) -> bool {
        &&& self.is_finite()
        &&& -(pow2(149 + log2_bound) as int) <= self.scaled()
        &&& self.scaled() < pow2(149 + log2_bound)
    }

    /// The value times `2^frac_bits`, rounded to the nearest integer, halves
    /// away from zero.
    pub open spec fn quantized(self, frac_bits: nat) -> int
        recommends
            frac_bits <= 148,
    {
        if self.negative() {
            -(self.rounded_magnitude(frac_bits) as int)
        } else {
            self.rounded_magnitude(frac_bits) as int
        }
    }

    /// The absolute value times `2^frac_bits`, rounded to the nearest integer,
    /// halves upwards.
    pub open spec fn rounded_magnitude(self, frac_bits: nat) -> nat
        recommends
            frac_bits <= 148,
    {
        (self.magnitude() + pow2((148 - frac_bits) as nat)) / pow2((149 - frac_bits) as nat)
    }

    /// The number `k / 2^frac_bits`, for `k` of at most 24 significant bits:
    /// such a number is exactly representable. Zero is the positive zero.
    pub open spec fn of_fixed(k: int, frac_bits: nat) -> Float32
        recommends
            frac_bits <= 127,
    {
        if k == 0 {
            Float32 { bits: 0 }
        } else {
            let n = (if k < 0 {
                -k
            } else {
                k
            }) as nat;
            let p = top_bit(n);
            let sign: int = if k < 0 {
                0x8000_0000
            } else {
                0
            };
            let significand = if p <= 23 {
                n * pow2((23 - p) as nat)
            } else {
                n / pow2((p - 23) as nat)
            };
            Float32 {
                bits: (sign + (p + 127 - frac_bits) * 0x80_0000 + (significand - 0x80_0000)) as u32,
            }
        }
    }

    /// The value cut to a whole number towards zero (of a finite number).
    pub open spec fn truncated(self) -> int {
        if self.negative() {
            -((self.magnitude() / pow2(149)) as int)
        } else {
            (self.magnitude() / pow2(149)) as int
        }
    }

    /// The value as an integer in `[low, high]`: cut towards zero and
    /// brought into the range; zero for a NaN.
    pub open spec fn cast_to(self, low: int, high: int) -> int {
        if self.is_nan() {
            0
        } else if !self.is_finite() {
            if self.negative() {
                low
            } else {
                high
            }
        } else if self.truncated() < low {
            low
        } else if self.truncated() > high {
            high
        } else {
            self.truncated()
        }
    }

    /// The nearest single-precision number to a whole number that was first
    /// rounded to double precision: twice rounded to the nearest, halves to
    /// the even neighbour.
    pub open spec fn of_integer(i: int) -> Float32 {
        let n = (if i < 0 {
            -i
        } else {
            i
        }) as nat;
        let rounded = round_even(round_even(n, 53), 24);
        Float32::of_fixed(
            if i < 0 {
                -(rounded as int)
            } else {
                rounded as int
            },
            0,
        )
    }

    /// The value as an integer in `[low, high]`: cut towards zero and
    /// brought into the range; zero for a NaN.
    #[verifier::rlimit(40)]
    pub fn to_integer(self, low: i64, high: i64) -> (r: i64)
        requires
            low <= 0 <= high,
        ensures
            r == self.cast_to(low as int, high as int),
    {
        let e = self.exponent();
        let m = self.fraction();
        let negative = self.is_negative();
        if e == 255 {
            return if m != 0 {
                0
            } else if negative {
                low
            } else {
                high
            };
        }
        proof {
            lemma2_to64();
            lemma2_to64_rest();
        }
        if e < 127 {
            proof {
                if e >= 1 {
                    lemma_magnitude_bounds(self);
                    if e + 23 < 149 {
                        lemma_pow2_strictly_increases((e + 23) as nat, 149);
                    }
                } else {
                    lemma_pow2_strictly_increases(23, 149);
                    assert(self.magnitude() == m * pow2(0));
                }
                lemma_basic_div(self.magnitude() as int, pow2(149) as int);
            }
            return 0;
        }
        let sig: u64 = (m as u64) + 0x80_0000;
        let w: u32 = e - 1;
        let ghost whole = self.magnitude() / pow2(149);
        let size: u64 = if w >= 149 {
            if w - 149 >= 40 {
                proof {
                    lemma_pow2_adds((w - 149) as nat, 149);
                    lemma_pow2_pos(149);
                    lemma_div_multiples_vanish_quotient(
                        pow2(149) as int,
                        (sig * pow2((w - 149) as nat)) as int,
                        1,
                    );
                    assert(self.magnitude() == pow2(149) * (sig * pow2((w - 149) as nat)))
                        by (nonlinear_arith)
                        requires
                            self.magnitude() == sig * pow2(w as nat),
                            pow2(w as nat) == pow2((w - 149) as nat) * pow2(149),
                    ;
                    if w - 149 > 40 {
                        lemma_pow2_strictly_increases(40, (w - 149) as nat);
                    }
                    assert(sig * pow2((w - 149) as nat) >= 0x80_0000 * 0x100_0000_0000)
                        by (nonlinear_arith)
                        requires
                            sig >= 0x80_0000,
                            pow2((w - 149) as nat) >= 0x100_0000_0000,
                    ;
                    assert(whole >= 0x8000_0000_0000_0000);
                }
                0x8000_0000_0000_0000
            } else {
                let up = power_of_two(w - 149);
                proof {
                    lemma_pow2_adds((w - 149) as nat, 149);
                    lemma_pow2_pos(149);
                    lemma_pow2_strictly_increases((w - 149) as nat, 40);
                    lemma_div_multiples_vanish_quotient(pow2(149) as int, (sig * up) as int, 1);
                    assert(self.magnitude() == pow2(149) * (sig * up)) by (nonlinear_arith)
                        requires
                            self.magnitude() == sig * pow2(w as nat),
                            pow2(w as nat) == up * pow2(149),
                    ;
                    assert(sig * up < 0x100_0000 * 0x100_0000_0000) by (nonlinear_arith)
                        requires
                            sig < 0x100_0000,
                            up < 0x100_0000_0000,
                    ;
                }
                sig * up
            }
        } else {
            let down = power_of_two(149 - w);
            proof {
                lemma_pow2_adds((149 - w) as nat, w as nat);
                lemma_pow2_pos(w as nat);
                lemma_div_multiples_vanish_quotient(pow2(w as nat) as int, sig as int, down as int);
                assert(sig * pow2(w as nat) == pow2(w as nat) * sig) by (nonlinear_arith);
                assert(down * pow2(w as nat) == pow2(w as nat) * down) by (nonlinear_arith);
            }
            sig / down
        };
        proof {
            assert(size >= 0x8000_0000_0000_0000 ==> whole >= 0x8000_0000_0000_0000);
            assert(size < 0x8000_0000_0000_0000 ==> whole == size);
        }
        if negative {
            if size >= 0x8000_0000_0000_0000 || -(size as i64) < low {
                low
            } else {
                -(size as i64)
            }
        } else {
            if size >= 0x8000_0000_0000_0000 || (size as i64) > high {
                high
            } else {
                size as i64
            }
        }
    }

    /// The single-precision number of a whole number of at most 64 bits,
    /// divided by `2^frac_bits`: its 24 highest bits, the lower ones cut off.
    #[verifier::rlimit(40)]
    fn from_wide(n: u64, negative: bool, frac_bits: u32) -> (f: Float32)
        requires
            n >= 1,
            frac_bits <= 126,
        ensures
            f == Float32::of_fixed(
                if negative {
                    -(n as int)
                } else {
                    n as int
                },
                frac_bits as nat,
            ),
    {
        let p = highest_bit(n);
        proof {
            lemma2_to64();
            lemma2_to64_rest();
        }
        let sig: u64 = if p <= 23 {
            let up = power_of_two(23 - p);
            proof {
                lemma_pow2_adds(p as nat, (23 - p) as nat);
                lemma_pow2_adds((p + 1) as nat, (23 - p) as nat);
                lemma_pow2_pos((23 - p) as nat);
                assert(pow2(p as nat) * up <= n * up) by (nonlinear_arith)
                    requires
                        pow2(p as nat) <= n,
                        up > 0,
                ;
                assert(n * up < pow2((p + 1) as nat) * up) by (nonlinear_arith)
                    requires
                        n < pow2((p + 1) as nat),
                        up > 0,
                ;
            }
            n * up
        } else {
            let down = power_of_two(p - 23);
            proof {
                lemma_pow2_adds(23, (p - 23) as nat);
                lemma_pow2_adds(24, (p - 23) as nat);
                lemma_pow2_pos((p - 23) as nat);
                assert(0x80_0000 * down == down * 0x80_0000) by (nonlinear_arith);
                assert(0x100_0000 * down == down * 0x100_0000) by (nonlinear_arith);
                lemma_div_is_ordered((down * 0x80_0000) as int, n as int, down as int);
                lemma_div_multiples_vanish(0x80_0000, down as int);
                lemma_multiply_divide_lt(n as int, down as int, 0x100_0000);
            }
            n / down
        };
        let sign: u32 = if negative {
            0x8000_0000
        } else {
            0
        };
        Float32 { bits: sign + (p + 127 - frac_bits) * 0x80_0000 + ((sig as u32) - 0x80_0000) }
    }

    /// The nearest single-precision number to `k / 2^frac_bits`, the one
    /// with an even last bit if two are equally near.
    pub open spec fn nearest_fixed(k: int, frac_bits: nat) -> Float32 {
        let n = (if k < 0 {
            -k
        } else {
            k
        }) as nat;
        let rounded = round_even(n, 24);
        Float32::of_fixed(
            if k < 0 {
                -(rounded as int)
            } else {
                rounded as int
            },
            frac_bits,
        )
    }

    /// The nearest single-precision number to `k / 2^frac_bits`.
    pub fn from_nearest_fixed(k: i64, frac_bits: u32) -> (f: Float32)
        requires
            frac_bits <= 126,
        ensures
            f == Float32::nearest_fixed(k as int, frac_bits as nat),
    {
        if k == 0 {
            proof {
                assert(top_bit(0) == 0);
                assert(round_even(0, 24) == 0);
            }
            return Float32 { bits: 0 };
        }
        let n: u64 = if k == i64::MIN {
            0x8000_0000_0000_0000
        } else if k < 0 {
            (-k) as u64
        } else {
            k as u64
        };
        let rounded = round_to_bits(n, 24);
        Float32::from_wide(rounded, k < 0, frac_bits)
    }

    /// The single-precision number of a whole number, as a conversion to
    /// double precision and then to single precision gives it.
    pub fn from_integer(i: i64) -> (f: Float32)
        ensures
            f == Float32::of_integer(i as int),
    {
        if i == 0 {
            proof {
                assert(top_bit(0) == 0);
                assert(round_even(0, 53) == 0);
                assert(round_even(0, 24) == 0);
            }
            return Float32 { bits: 0 };
        }
        let n: u64 = if i == i64::MIN {
            0x8000_0000_0000_0000
        } else if i < 0 {
            (-i) as u64
        } else {
            i as u64
        };
        let double = round_to_bits(n, 53);
        let single = round_to_bits(double, 24);
        Float32::from_wide(single, i < 0, 0)
    }

    /// The number with the given bit pattern.
    pub fn from_bits(bits: u32) -> (f: Float32)
        ensures
            f.bits == bits,
    {
        Float32 { bits }
    }

    /// The bit pattern.
    pub fn to_bits(self) -> (bits: u32)
        ensures
            bits == self.bits,
    {
        self.bits
    }

    /// Whether the sign bit is set.
    pub fn is_negative(self) -> (b: bool)
        ensures
            b == self.negative(),
    {
        self.bits >= 0x8000_0000
    }

    /// The exponent bits.
    pub fn exponent(self) -> (e: u32)
        ensures
            e == self.exponent_field(),
            e < 256,
    {
        proof {
            lemma_fields(self.bits);
        }
        (self.bits >> 23) & 0xFF
    }

    /// The fraction bits.
    pub fn fraction(self) -> (m: u32)
        ensures
            m == self.fraction_field(),
            m < 0x80_0000,
    {
        proof {
            lemma_fields(self.bits);
        }
        self.bits & 0x7F_FFFF
    }

    /// Whether the value is finite and lies in `[-2^log2_bound, 2^log2_bound)`.
    pub fn is_within(self, log2_bound: u32) -> (b: bool)
        requires
            log2_bound <= 64,
        ensures
            b == self.within(log2_bound as nat),
            b ==> self.exponent_field() <= 127 + log2_bound,
    {
        let e = self.exponent();
        let m = self.fraction();
        let neg = self.is_negative();
        proof {
            let b = log2_bound as nat;
            let limit = pow2(149 + b);
            lemma_pow2_pos(149 + b);
            if e >= 1 {
                lemma_magnitude_bounds(self);
                if e <= 126 + b {
                    if e < 126 + b {
                        lemma_pow2_strictly_increases((e + 23) as nat, 149 + b);
                    } else {
                        assert((e + 23) as nat == 149 + b);
                    }
                    assert(self.magnitude() < limit);
                } else if e > 127 + b {
                    lemma_pow2_strictly_increases(149 + b, (e + 22) as nat);
                    assert(self.magnitude() > limit);
                } else {
                    assert((e + 22) as nat == 149 + b);
                    assert(self.magnitude() >= limit);
                    assert(self.magnitude() == limit <==> m == 0);
                }
            } else {
                lemma2_to64();
                lemma_pow2_strictly_increases(23, 149 + b);
                assert(self.magnitude() == m * pow2(0));
                assert(self.magnitude() < limit);
            }
        }
        e <= 126 + log2_bound || (neg && e == 127 + log2_bound && m == 0)
    }

    /// The value times `2^frac_bits`, rounded to the nearest integer, halves
    /// away from zero. The value must be small enough for the result to have
    /// at most 24 bits.
    #[verifier::rlimit(40)]
    pub fn quantize(self, frac_bits: u32) -> (q: i32)
        requires
            frac_bits <= 16,
            self.weight() + frac_bits <= 149,
        ensures
            q == self.quantized(frac_bits as nat),
            -0x100_0000 < q < 0x100_0000,
    {
        let e = self.exponent();
        let m = self.fraction();
        let sig: u64 = if e == 0 {
            m as u64
        } else {
            (m as u64) + 0x80_0000
        };
        let w: u32 = if e == 0 {
            0
        } else {
            e - 1
        };
        let s: u32 = 149 - frac_bits - w;
        let mag: u64 = if s > 25 {
            0
        } else if s == 0 {
            sig
        } else {
            proof {
                lemma2_to64();
                lemma_pow2_strictly_increases((s - 1) as nat, 25);
                vstd::bits::lemma_u64_shl_is_mul(1, (s - 1) as u64);
            }
            let half: u64 = 1u64 << (s - 1);
            (sig + half) >> s
        };
        proof {
            lemma2_to64();
            if s == 0 {
                lemma_round_exact(self, frac_bits as nat);
            } else {
                lemma_round_shift(self, frac_bits as nat);
                let half = pow2((s - 1) as nat);
                lemma_pow2_unfold(s as nat);
                if s > 25 {
                    lemma_pow2_strictly_increases(24, (s - 1) as nat);
                    lemma_basic_div((sig + half) as int, pow2(s as nat) as int);
                } else {
                    lemma_pow2_strictly_increases((s - 1) as nat, 25);
                    vstd::bits::lemma_u64_shl_is_mul(1, (s - 1) as u64);
                    vstd::bits::lemma_u64_shr_is_div((sig + half) as u64, s as u64);
                    lemma_pow2_pos((s - 1) as nat);
                    let h = half as int;
                    assert((sig + h) / (2 * h) < 0x100_0000) by (nonlinear_arith)
                        requires
                            0 <= sig < 0x100_0000,
                            h >= 1,
                    ;
                }
            }
        }
        if self.is_negative() {
            -(mag as i32)
        } else {
            mag as i32
        }
    }
}

impl PartialEq for Float32 {
    fn eq(&self, other: &Float32) -> (r: bool) {
        let self_nan = self.exponent() == 255 && self.fraction() != 0;
        let other_nan = other.exponent() == 255 && other.fraction() != 0;
        !self_nan && !other_nan && (self.bits == other.bits || (self.bits % 0x8000_0000 == 0
            && other.bits % 0x8000_0000 == 0))
    }
}

impl PartialEqSpecImpl for Float32 {
    open spec fn obeys_eq_spec() -> bool {
        true
    }

    open spec fn eq_spec(&self, other: &Float32) -> bool {
        self.same_value(*other)
    }
}

/// The position of the highest set bit of `n`: the largest `t` with `2^t <= n`.
pub open spec fn top_bit(n: nat) -> nat
    decreases n,
{
    if n <= 1 {
        0
    } else {
        1 + top_bit(n / 2)
    }
}

/// A whole number rounded to its `bits` highest bits: to the nearest such
/// number, and to the one with an even last kept bit if two are equally near.
pub open spec fn round_even(n: nat, bits: nat) -> nat {
    let p = top_bit(n);
    if n == 0 || p < bits {
        n
    } else {
        let s = (p + 1 - bits) as nat;
        let kept = n / pow2(s);
        let rest = n % pow2(s);
        let half = pow2((s - 1) as nat);
        if rest > half || (rest == half && kept % 2 == 1) {
            (kept + 1) * pow2(s)
        } else {
            kept * pow2(s)
        }
    }
}

/// A number that has no more bits than are kept is not changed by rounding.
pub proof fn lemma_round_even_small(n: nat, bits: nat)
    requires
        n < pow2(bits),
    ensures
        round_even(n, bits) == n,
{
    if n >= 1 {
        lemma_top_bit_bounds(n);
        if top_bit(n) >= bits {
            if top_bit(n) > bits {
                lemma_pow2_strictly_increases(bits, top_bit(n));
            }
            assert(false);
        }
    }
}

/// The nearest number to a fixed-point number of less than 24 bits is
/// the number itself.
pub proof fn lemma_nearest_fixed_small(k: int, frac_bits: nat)
    requires
        -0x100_0000 < k < 0x100_0000,
    ensures
        Float32::nearest_fixed(k, frac_bits) == Float32::of_fixed(k, frac_bits),
{
    lemma2_to64();
    let n = (if k < 0 {
        -k
    } else {
        k
    }) as nat;
    lemma_round_even_small(n, 24);
}

/// The position of the highest set bit.
pub(crate) fn highest_bit(n: u64) -> (p: u32)
    requires
        n >= 1,
    ensures
        p == top_bit(n as nat),
        p <= 63,
        pow2(p as nat) <= n < pow2((p + 1) as nat),
{
    let mut p: u32 = 0;
    let mut t: u64 = n;
    proof {
        lemma2_to64();
        assert(t * pow2(0) == t);
    }
    while t > 1
        invariant
            1 <= t <= n,
            top_bit(n as nat) == p + top_bit(t as nat),
            p <= 63,
            t * pow2(p as nat) <= n,
        decreases t,
    {
        proof {
            lemma2_to64();
            lemma2_to64_rest();
            lemma_pow2_unfold((p + 1) as nat);
            assert((t / 2) * (2 * pow2(p as nat)) <= t * pow2(p as nat)) by (nonlinear_arith)
                requires
                    t >= 0,
            ;
            if p == 63 {
                assert((t / 2) * pow2(64) >= pow2(64)) by (nonlinear_arith)
                    requires
                        t / 2 >= 1,
                ;
                assert(false);
            }
        }
        t = t / 2;
        p = p + 1;
    }
    proof {
        lemma_top_bit_bounds(n as nat);
    }
    p
}

/// Two to the power `e`.
pub(crate) fn power_of_two(e: u32) -> (r: u64)
    requires
        e < 64,
    ensures
        r == pow2(e as nat),
{
    proof {
        vstd::bits::lemma_u64_pow2_no_overflow(e as nat);
        vstd::bits::lemma_u64_shl_is_mul(1, e as u64);
    }
    1u64 << e
}

/// A whole number rounded to its `bits` highest bits, halves to even.
#[verifier::rlimit(40)]
pub(crate) fn round_to_bits(n: u64, bits: u32) -> (r: u64)
    requires
        1 <= n <= 0x8000_0000_0000_0000,
        24 <= bits <= 63,
    ensures
        r == round_even(n as nat, bits as nat),
        1 <= r <= 0x8000_0000_0000_0000,
{
    let p = highest_bit(n);
    if p < bits {
        return n;
    }
    let s: u32 = p + 1 - bits;
    let unit = power_of_two(s);
    let half = power_of_two(s - 1);
    proof {
        lemma_pow2_pos(s as nat);
    }
    let kept = n / unit;
    let rest = n % unit;
    proof {
        let base = pow2((bits - 1) as nat);
        lemma2_to64();
        lemma2_to64_rest();
        lemma_pow2_adds(bits as nat, s as nat);
        lemma_pow2_adds((bits - 1) as nat, s as nat);
        lemma_pow2_pos((bits - 1) as nat);
        assert((bits - 1) as nat + s as nat == p as nat);
        assert(bits as nat + s as nat == (p + 1) as nat);
        assert(pow2(p as nat) == base * unit);
        assert(base * unit == unit * base) by (nonlinear_arith);
        assert(pow2((p + 1) as nat) == pow2(bits as nat) * unit);
        assert(pow2(bits as nat) * unit == unit * pow2(bits as nat)) by (nonlinear_arith);
        lemma_multiply_divide_lt(n as int, unit as int, pow2(bits as nat) as int);
        lemma_div_is_ordered((unit * base) as int, n as int, unit as int);
        lemma_div_multiples_vanish(base as int, unit as int);
        lemma_fundamental_div_mod(n as int, unit as int);
        assert(kept < pow2(bits as nat));
        assert(kept >= base);
        assert(kept >= 1);
        if p <= 62 {
            if p < 62 {
                lemma_pow2_strictly_increases((p + 1) as nat, 63);
            }
            assert((kept + 1) * unit <= pow2(bits as nat) * unit) by (nonlinear_arith)
                requires
                    kept + 1 <= pow2(bits as nat),
                    unit > 0,
            ;
        } else {
            assert(n == 0x8000_0000_0000_0000);
            assert(pow2(63) == 0x8000_0000_0000_0000);
            assert(base * unit == n);
            assert(kept == base);
            assert(unit * kept == n) by (nonlinear_arith)
                requires
                    kept * unit == n,
            ;
            assert(rest == 0);
        }
        assert(kept * unit <= n) by (nonlinear_arith)
            requires
                n == unit * kept + rest,
                rest >= 0,
        ;
        assert(kept * unit >= 1) by (nonlinear_arith)
            requires
                kept >= 1,
                unit >= 1,
        ;
        lemma_pow2_pos((s - 1) as nat);
        assert(kept * unit <= 0x8000_0000_0000_0000);
        if p <= 62 {
            assert((kept + 1) * unit <= 0x8000_0000_0000_0000);
        } else {
            assert(rest < half);
        }
        assert((kept + 1) * unit >= 1) by (nonlinear_arith)
            requires
                kept >= 1,
                unit >= 1,
        ;
    }
    if rest > half || (rest == half && kept % 2 == 1) {
        (kept + 1) * unit
    } else {
        kept * unit
    }
}

/// A number in `[2^t, 2^(t+1))` has its highest set bit at `t`.
pub proof fn lemma_top_bit_range(n: nat, t: nat)
    requires
        pow2(t) <= n < pow2(t + 1),
    ensures
        top_bit(n) == t,
    decreases t,
{
    lemma2_to64();
    if t == 0 {
        assert(n == 1);
    } else {
        lemma_pow2_unfold(t);
        lemma_pow2_unfold(t + 1);
        lemma_pow2_pos((t - 1) as nat);
        lemma_top_bit_range(n / 2, (t - 1) as nat);
    }
}

/// Shifts and masks read the same fields as division and remainder.
pub proof fn lemma_fields(bits: u32)
    by (bit_vector)
    ensures
        (bits >> 23) & 0xFF == (bits / 0x80_0000) % 256,
        (bits >> 23) & 0xFF < 256,
        bits & 0x7F_FFFF == bits % 0x80_0000,
        bits & 0x7F_FFFF < 0x80_0000,
{
}

/// A normal number with exponent bits `e` has a magnitude in `[2^(e+22), 2^(e+23))`.
pub proof fn lemma_magnitude_bounds(f: Float32)
    requires
        f.exponent_field() >= 1,
    ensures
        pow2(f.exponent_field() + 22) <= f.magnitude(),
        f.magnitude() < pow2(f.exponent_field() + 23),
        f.magnitude() == pow2(f.exponent_field() + 22) <==> f.fraction_field() == 0,
{
    let e = f.exponent_field();
    let w = (e - 1) as nat;
    let p = pow2(w);
    let m = f.fraction_field();
    lemma2_to64();
    lemma_pow2_pos(w);
    lemma_pow2_adds(23, w);
    lemma_pow2_adds(24, w);
    assert(pow2(e + 22) == 0x80_0000 * p);
    assert(pow2(e + 23) == 0x100_0000 * p);
    assert(f.magnitude() == (0x80_0000 + m) * p);
    assert((0x80_0000 + m) * p == 0x80_0000 * p + m * p) by (nonlinear_arith);
    assert(0x100_0000 * p == 0x80_0000 * p + 0x80_0000 * p) by (nonlinear_arith);
    assert(m * p < 0x80_0000 * p) by (nonlinear_arith)
        requires
            m < 0x80_0000,
            p > 0,
    ;
    assert(m == 0 <==> m * p == 0) by (nonlinear_arith)
        requires
            p > 0,
            m >= 0,
    ;
}

} // verus!

verus! {

/// A number whose last significand bit has the weight `2^-frac_bits` is a
/// whole number of such units: rounding changes nothing.
pub proof fn lemma_round_exact(f: Float32, frac_bits: nat)
    requires
        frac_bits <= 148,
        frac_bits + f.weight() == 149,
    ensures
        f.rounded_magnitude(frac_bits) == f.significand(),
{
    let unit = pow2(f.weight());
    let half = pow2((148 - frac_bits) as nat);
    lemma_pow2_pos((148 - frac_bits) as nat);
    lemma_pow2_unfold(f.weight());
    assert(unit == 2 * half);
    lemma_fundamental_div_mod_converse(
        (f.significand() * unit + half) as int,
        unit as int,
        f.significand() as int,
        half as int,
    );
}

/// Rounding at `frac_bits` only needs the significand: with `s` the distance
/// from the significand's last bit up to the rounding position, the rounded
/// magnitude is `(significand + 2^(s-1)) / 2^s`.
pub proof fn lemma_round_shift(f: Float32, frac_bits: nat)
    requires
        frac_bits + f.weight() <= 148,
    ensures
        f.rounded_magnitude(frac_bits) == (f.significand() + pow2(
            (148 - frac_bits - f.weight()) as nat,
        )) / pow2((149 - frac_bits - f.weight()) as nat),
{
    let w = f.weight();
    let s = (149 - frac_bits - w) as nat;
    let p = pow2(w);
    let sig = f.significand();
    let half = pow2((s - 1) as nat);
    lemma_pow2_pos(w);
    lemma_pow2_pos(s);
    lemma_pow2_pos((s - 1) as nat);
    lemma_pow2_adds((s - 1) as nat, w);
    lemma_pow2_adds(s, w);
    assert(pow2((148 - frac_bits) as nat) == half * p);
    assert(pow2((149 - frac_bits) as nat) == pow2(s) * p);
    assert(f.magnitude() + half * p == p * (sig + half)) by (nonlinear_arith)
        requires
            f.magnitude() == sig * p,
    ;
    assert(pow2(s) * p == p * pow2(s)) by (nonlinear_arith);
    lemma_div_multiples_vanish_quotient(p as int, (sig + half) as int, pow2(s) as int);
}

/// The highest set bit of a positive number brackets it between two powers of two.
pub proof fn lemma_top_bit_bounds(n: nat)
    requires
        n >= 1,
    ensures
        pow2(top_bit(n)) <= n < pow2(top_bit(n) + 1),
    decreases n,
{
    lemma2_to64();
    if n > 1 {
        lemma_top_bit_bounds(n / 2);
        lemma_pow2_unfold(top_bit(n));
        lemma_pow2_unfold(top_bit(n) + 1);
    }
}

/// The fields of a bit pattern that is put together from a sign, an
/// exponent and a fraction.
pub proof fn lemma_fields_of(sign: nat, exponent: nat, fraction: nat)
    requires
        sign == 0 || sign == 0x8000_0000,
        exponent <= 255,
        fraction < 0x80_0000,
    ensures
        sign + exponent * 0x80_0000 + fraction <= u32::MAX,
        (Float32 { bits: (sign + exponent * 0x80_0000 + fraction) as u32 }).exponent_field()
            == exponent,
        (Float32 { bits: (sign + exponent * 0x80_0000 + fraction) as u32 }).fraction_field()
            == fraction,
        (Float32 { bits: (sign + exponent * 0x80_0000 + fraction) as u32 }).negative() == (sign
            != 0),
{
    let bits = sign + exponent * 0x80_0000 + fraction;
    let upper = if sign == 0 {
        exponent
    } else {
        256 + exponent
    };
    assert(bits == upper * 0x80_0000 + fraction);
    lemma_fundamental_div_mod_converse(bits as int, 0x80_0000, upper as int, fraction as int);
}

/// The magnitude of `of_fixed(k, frac_bits)` is `|k|` times the unit `2^(149
/// - frac_bits)`, and its sign is that of `k`.
#[verifier::rlimit(40)]
pub proof fn lemma_of_fixed_magnitude(k: int, frac_bits: nat)
    requires
        -0x100_0000 < k < 0x100_0000,
        k != 0,
        frac_bits <= 126,
    ensures
        Float32::of_fixed(k, frac_bits).is_finite(),
        Float32::of_fixed(k, frac_bits).negative() == (k < 0),
        Float32::of_fixed(k, frac_bits).magnitude() == (if k < 0 {
            -k
        } else {
            k
        }) * pow2((149 - frac_bits) as nat),
        Float32::of_fixed(k, frac_bits).weight() + frac_bits <= 149,
{
    let f = Float32::of_fixed(k, frac_bits);
    let unit = pow2((149 - frac_bits) as nat);
    lemma2_to64();
    let n = (if k < 0 {
        -k
    } else {
        k
    }) as nat;
    let p = top_bit(n);
    lemma_top_bit_bounds(n);
    if p > 23 {
        lemma_pow2_strictly_increases(24, p);
        assert(false);
    }
    assert(p <= 23);
    let up = pow2((23 - p) as nat);
    lemma_pow2_pos((23 - p) as nat);
    lemma_pow2_adds(p, (23 - p) as nat);
    lemma_pow2_adds(p + 1, (23 - p) as nat);
    assert(pow2(p) * up <= n * up) by (nonlinear_arith)
        requires
            pow2(p) <= n,
            up > 0,
    ;
    assert(n * up < pow2(p + 1) * up) by (nonlinear_arith)
        requires
            n < pow2(p + 1),
            up > 0,
    ;
    let frac = (n * up - 0x80_0000) as nat;
    let e = (p + 127 - frac_bits) as nat;
    let sign: nat = if k < 0 {
        0x8000_0000
    } else {
        0
    };
    assert(0 <= frac < 0x80_0000);
    assert(1 <= e <= 150);
    lemma_fields_of(sign, e, frac);
    assert(f.bits == (sign + e * 0x80_0000 + frac) as u32);
    assert(f.significand() == n * up);
    let w = (e - 1) as nat;
    lemma_pow2_adds((23 - p) as nat, w);
    assert((23 - p) as nat + w == (149 - frac_bits) as nat);
    assert(f.magnitude() == n * unit) by (nonlinear_arith)
        requires
            f.magnitude() == (n * up) * pow2(w),
            unit == up * pow2(w),
    ;
}

/// `of_fixed(k, frac_bits)` is the number `k / 2^frac_bits`, and quantising it
/// at `frac_bits` gives `k` back.
#[verifier::rlimit(40)]
pub proof fn lemma_of_fixed_exact(k: int, frac_bits: nat)
    requires
        -0x100_0000 < k < 0x100_0000,
        frac_bits <= 126,
    ensures
        Float32::of_fixed(k, frac_bits).is_finite(),
        Float32::of_fixed(k, frac_bits).scaled() == k * pow2((149 - frac_bits) as nat),
        Float32::of_fixed(k, frac_bits).quantized(frac_bits) == k,
        Float32::of_fixed(k, frac_bits).weight() + frac_bits <= 149,
{
    let f = Float32::of_fixed(k, frac_bits);
    let unit = pow2((149 - frac_bits) as nat);
    let half = pow2((148 - frac_bits) as nat);
    lemma_pow2_pos((148 - frac_bits) as nat);
    lemma_pow2_unfold((149 - frac_bits) as nat);
    assert(unit == 2 * half);
    if k == 0 {
        lemma_fields_of(0, 0, 0);
        assert(f.bits == 0);
        assert(f.magnitude() == 0) by (nonlinear_arith)
            requires
                f.magnitude() == 0 * pow2(0),
        ;
        lemma_basic_div(half as int, unit as int);
    } else {
        lemma_of_fixed_magnitude(k, frac_bits);
        let n = (if k < 0 {
            -k
        } else {
            k
        }) as nat;
        lemma_fundamental_div_mod_converse(
            (n * unit + half) as int,
            unit as int,
            n as int,
            half as int,
        );
        assert(f.rounded_magnitude(frac_bits) == n);
        assert(f.scaled() == k * unit) by (nonlinear_arith)
            requires
                f.scaled() == (if k < 0 {
                    -((n * unit) as int)
                } else {
                    (n * unit) as int
                }),
                n == (if k < 0 {
                    -k
                } else {
                    k
                }),
        ;
    }
}

} // verus!
