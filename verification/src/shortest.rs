//! Single-precision numbers as decimal text.
//!
//! The text of a number is the shortest decimal that names it: the decimal
//! with the fewest digits that lies nearer to the number than to either of
//! its neighbours in single precision, and of two such decimals the nearer
//! one (the larger if they are equally near). A decimal exactly between the
//! number and a neighbour counts as near enough if the number has an even
//! last bit or is subnormal.
//!
//! The search works in units of 2^-151 and goes down the decimal places
//! from 10^39, a power of ten above every single-precision number.

use crate::float32::Float32;
use crate::text::{
    decimal_text, lemma_pow10_grows, padded_decimal_text, pow10, push_char, push_decimal,
    push_padded_decimal, push_signed_decimal, push_text, signed_decimal_text,
};
use crate::wide::{
    compare, is_normal, mul_add, small, subtract, times_pow10, times_pow2, value_of,
};
use vstd::arithmetic::div_mod::*;
use vstd::arithmetic::mul::*;
use vstd::arithmetic::power2::*;
use vstd::prelude::*;

verus! {

/// The decimal place at which the search begins.
pub const TOP_PLACE: i32 = 39;

/// One at the top place, in units of 2^-151.
pub open spec fn top_unit() -> nat {
    pow10(39) * pow2(151)
}

/// The magnitude in units of 2^-151.
pub open spec fn fine_units(f: Float32) -> nat {
    f.magnitude() * 4
}

/// Half the distance to the next number above, in units of 2^-151.
pub open spec fn gap_above(f: Float32) -> nat {
    2 * pow2(f.weight())
}

/// Half the distance to the next number below, in units of 2^-151: below
/// a power of two the numbers lie twice as close.
pub open spec fn gap_below(f: Float32) -> nat {
    if f.exponent_field() >= 1 && f.fraction_field() == 0 {
        pow2(f.weight())
    } else {
        2 * pow2(f.weight())
    }
}

/// Whether a decimal exactly between the number and a neighbour names the number.
pub open spec fn closed_bounds(f: Float32) -> bool {
    f.exponent_field() == 0 || f.significand() % 2 == 0
}

/// The decimal next below, at a distance of `rest`, is near enough.
pub open spec fn low_fits(rest: nat, low: nat, closed: bool) -> bool {
    rest < low || (closed && rest == low)
}

/// The decimal next above, at a distance of `unit - rest`, is near enough.
pub open spec fn high_fits(rest: nat, high: nat, unit: nat, closed: bool) -> bool {
    unit - rest < high || (closed && unit - rest == high)
}

/// The digits and the place of the last digit of the shortest decimal,
/// searched from a place on: `digits` are the digits of the number above
/// that place, `rest` is what is left of it below, in units of which `unit`
/// make one at that place, and `low` and `high` are the distances within
/// which a decimal below or above is near enough.
pub open spec fn search(
    rest: nat,
    low: nat,
    high: nat,
    unit: nat,
    digits: nat,
    place: int,
    closed: bool,
) -> (nat, int)
    decreases
            (if low < unit {
                (unit - low) as nat
            } else {
                0nat
            }),
{
    if low_fits(rest, low, closed) || high_fits(rest, high, unit, closed) || low == 0 || low
        >= unit {
        (
            if high_fits(rest, high, unit, closed) && (!low_fits(rest, low, closed) || 2 * rest
                >= unit) {
                digits + 1
            } else {
                digits
            },
            place,
        )
    } else {
        search(
            (rest * 10) % unit,
            low * 10,
            high * 10,
            unit,
            digits * 10 + (rest * 10) / unit,
            place - 1,
            closed,
        )
    }
}

/// The digits of the shortest decimal of a finite number other than zero,
/// and the place of the last digit.
pub open spec fn shortest(f: Float32) -> (nat, int) {
    search(fine_units(f), gap_below(f), gap_above(f), top_unit(), 0, 39, closed_bounds(f))
}

/// The digits without zeros at their end, and the place of the last digit left.
pub open spec fn trimmed(digits: nat, place: int) -> (nat, int)
    decreases digits,
{
    if digits > 0 && digits % 10 == 0 {
        trimmed(digits / 10, place + 1)
    } else {
        (digits, place)
    }
}

/// A run of zeros.
pub open spec fn zeros(count: nat) -> Seq<char> {
    Seq::new(count, |i: int| '0')
}

/// The digits with their last digit at a place, written without an
/// exponent: zeros after them down to the units, or a point among or
/// before them.
pub open spec fn plain_text(digits: nat, place: int) -> Seq<char> {
    if place >= 0 {
        decimal_text(digits) + zeros(place as nat)
    } else {
        decimal_text(digits / pow10((-place) as nat)) + seq!['.'] + padded_decimal_text(
            digits % pow10((-place) as nat),
            (-place) as nat,
        )
    }
}

/// The text of a number: `NaN`, or a minus sign if the sign bit is set and
/// then `inf`, `0` or the shortest decimal.
pub open spec fn display_text(f: Float32) -> Seq<char> {
    if f.is_nan() {
        "NaN"@
    } else {
        (if f.negative() {
            seq!['-']
        } else {
            Seq::empty()
        }) + (if !f.is_finite() {
            "inf"@
        } else if f.magnitude() == 0 {
            seq!['0']
        } else {
            plain_text(
                trimmed(shortest(f).0, shortest(f).1).0,
                trimmed(shortest(f).0, shortest(f).1).1,
            )
        })
    }
}

/// The number of decimal digits of a number.
pub open spec fn digit_count(digits: nat) -> nat
    decreases digits,
{
    if digits < 10 {
        1
    } else {
        1 + digit_count(digits / 10)
    }
}

/// The digits with their last digit at a place, written with an exponent:
/// the first digit, a point and the other digits if there are any, and
/// `e` with the place of the first digit.
pub open spec fn exponent_text(digits: nat, place: int) -> Seq<char> {
    let count = digit_count(digits);
    let lead = pow10((count - 1) as nat);
    decimal_text(digits / lead) + (if count > 1 {
        seq!['.'] + padded_decimal_text(digits % lead, (count - 1) as nat)
    } else {
        Seq::empty()
    }) + seq!['e'] + signed_decimal_text(place + count - 1)
}

/// Whether the number is written with an exponent where both forms are
/// possible: if it is smaller than the single-precision number of 0.0001
/// and not zero, or not smaller than that of ten to the sixteenth.
pub open spec fn uses_exponent(f: Float32) -> bool {
    let size = f.bits % 0x8000_0000;
    (size != 0 && size < 0x38D1_B717) || size >= 0x5A0E_1BCA
}

/// The text of a number with a point or an exponent in it: as
/// `display_text`, but a whole number has `.0` after it, and a very
/// small or very large number has an exponent.
pub open spec fn debug_text(f: Float32) -> Seq<char> {
    if f.is_nan() {
        "NaN"@
    } else {
        (if f.negative() {
            seq!['-']
        } else {
            Seq::empty()
        }) + (if !f.is_finite() {
            "inf"@
        } else if f.magnitude() == 0 {
            "0.0"@
        } else {
            let short = trimmed(shortest(f).0, shortest(f).1);
            if uses_exponent(f) {
                exponent_text(short.0, short.1)
            } else if short.1 >= 0 {
                plain_text(short.0, short.1) + ".0"@
            } else {
                plain_text(short.0, short.1)
            }
        })
    }
}

/// A power of ten is at least the same power of two.
pub proof fn lemma_pow10_over_pow2(n: nat)
    ensures
        pow10(n) >= pow2(n),
    decreases n,
{
    lemma2_to64();
    if n > 0 {
        lemma_pow10_over_pow2((n - 1) as nat);
        lemma_pow2_unfold(n);
    }
}

/// A power of ten is at most the fourfold power of two.
pub proof fn lemma_pow10_under_pow2(n: nat)
    ensures
        pow10(n) <= pow2(4 * n),
    decreases n,
{
    lemma2_to64();
    if n > 0 {
        lemma_pow10_under_pow2((n - 1) as nat);
        lemma_pow2_adds(4, (4 * (n - 1)) as nat);
    }
}

/// One at the top place is at least 2^279 units, more than any
/// single-precision number, and less than 2^307 units.
pub proof fn lemma_top_unit_is_large()
    ensures
        pow2(279) <= top_unit() < pow2(307),
{
    lemma_pow10_under_pow2(39);
    lemma_pow2_adds(156, 151);
    assert(pow10(39) * pow2(151) <= pow2(156) * pow2(151)) by (nonlinear_arith)
        requires
            pow10(39) <= pow2(156),
            pow2(151) >= 0,
    ;
    lemma_top_unit_below();
    lemma_pow2_pos(151);
    assert(pow10(39) * pow2(151) < pow2(156) * pow2(151)) by (nonlinear_arith)
        requires
            pow10(39) < pow2(156),
            pow2(151) > 0,
    ;
    reveal_with_fuel(pow10, 40);
    assert(pow10(39) == 1_000_000_000_000_000_000_000_000_000_000_000_000_000);
    lemma2_to64();
    lemma_pow2_adds(64, 64);
    assert(pow2(128) == 0x1_0000_0000_0000_0000_0000_0000_0000_0000) by (nonlinear_arith)
        requires
            pow2(128) == 0x1_0000_0000_0000_0000 * 0x1_0000_0000_0000_0000,
    ;
    lemma_pow2_adds(128, 151);
    lemma_pow2_pos(151);
    assert(pow2(128) * pow2(151) <= pow10(39) * pow2(151)) by (nonlinear_arith)
        requires
            pow2(128) <= pow10(39),
            pow2(151) >= 0,
    ;
}

/// Ten to the 39 is less than 2^156.
proof fn lemma_top_unit_below()
    ensures
        pow10(39) < pow2(156),
{
    reveal_with_fuel(pow10, 40);
    assert(pow10(39) == 1_000_000_000_000_000_000_000_000_000_000_000_000_000);
    lemma2_to64();
    lemma_pow2_adds(64, 64);
    assert(pow2(128) == 0x1_0000_0000_0000_0000_0000_0000_0000_0000) by (nonlinear_arith)
        requires
            pow2(128) == 0x1_0000_0000_0000_0000 * 0x1_0000_0000_0000_0000,
    ;
    lemma_pow2_adds(128, 28);
    assert(pow2(156) == 0x1_0000_0000_0000_0000_0000_0000_0000_0000 * 0x1000_0000);
}

/// While the search goes on, the digits found so far are a small number:
/// at most four times the significand.
proof fn lemma_digits_are_few(
    digits: nat,
    unit: nat,
    rest: nat,
    low: nat,
    total: nat,
    gap: nat,
    scale: nat,
    significand: nat,
    weight: nat,
)
    requires
        digits * unit + rest == total * scale,
        low == gap * scale,
        low <= rest < unit,
        scale >= 1,
        total == significand * weight * 4,
        gap >= weight,
        weight >= 1,
    ensures
        digits <= 4 * significand,
{
    if digits > 4 * significand {
        assert(digits * low <= digits * unit) by (nonlinear_arith)
            requires
                low <= unit,
                digits >= 0,
        ;
        assert(digits * (gap * scale) == (digits * gap) * scale) by (nonlinear_arith);
        assert((digits * gap) * scale <= total * scale);
        assert(digits * gap <= total) by (nonlinear_arith)
            requires
                (digits * gap) * scale <= total * scale,
                scale >= 1,
        ;
        assert(digits * weight <= digits * gap) by (nonlinear_arith)
            requires
                weight <= gap,
                digits >= 0,
        ;
        assert((4 * significand + 1) * weight <= digits * weight) by (nonlinear_arith)
            requires
                4 * significand + 1 <= digits,
                weight >= 0,
        ;
        assert((4 * significand + 1) * weight == significand * weight * 4 + weight)
            by (nonlinear_arith);
        assert(false);
    }
}

/// The digits of the shortest decimal of a finite number other than zero,
/// and the place of the last digit.
#[verifier::rlimit(40)]
pub fn shortest_digits(f: Float32) -> (r: (u64, i32))
    requires
        f.is_finite(),
        f.magnitude() > 0,
    ensures
        r.0 == shortest(f).0,
        r.1 == shortest(f).1,
        r.0 <= 0x4000_0000_0001,
        -268 <= r.1 <= 39,
{
    let e = f.exponent();
    let m = f.fraction();
    let significand: u32 = if e == 0 {
        m
    } else {
        m + 0x80_0000
    };
    let w: u32 = if e == 0 {
        0
    } else {
        e - 1
    };
    let closed = e == 0 || significand % 2 == 0;
    let ghost weight = pow2(w as nat);
    proof {
        lemma2_to64();
        lemma_pow2_pos(w as nat);
        lemma_pow2_adds(w as nat, 2);
        lemma_pow2_adds(w as nat, 1);
        assert(significand * pow2((w + 2) as nat) == (significand * weight) * 4)
            by (nonlinear_arith)
            requires
                pow2((w + 2) as nat) == weight * 4,
        ;
        if significand == 0 {
            assert(f.magnitude() == 0) by (nonlinear_arith)
                requires
                    f.magnitude() == 0 * weight,
            ;
        }
        assert(1 * pow2((w + 1) as nat) == 2 * weight) by (nonlinear_arith)
            requires
                pow2((w + 1) as nat) == weight * 2,
        ;
        assert(1 * pow2(w as nat) == weight) by (nonlinear_arith)
            requires
                pow2(w as nat) == weight,
        ;
    }
    let mut rest = times_pow2(small(significand), w + 2);
    let mut high = times_pow2(small(1), w + 1);
    let mut low = if e >= 1 && m == 0 {
        times_pow2(small(1), w)
    } else {
        times_pow2(small(1), w + 1)
    };
    let unit = times_pow2(times_pow10(small(1), 39), 151);
    let ghost total = fine_units(f);
    let ghost gap = gap_below(f);
    let ghost top = top_unit();
    proof {
        assert(value_of(unit@) == top) by (nonlinear_arith)
            requires
                value_of(unit@) == (1 * pow10(39)) * pow2(151),
                top == pow10(39) * pow2(151),
        ;
        // The number lies below one at the top place.
        lemma_top_unit_is_large();
        lemma_pow2_adds(24, (w + 2) as nat);
        lemma_pow2_pos((w + 2) as nat);
        assert(total < pow2(24) * pow2((w + 2) as nat)) by (nonlinear_arith)
            requires
                total == significand * pow2((w + 2) as nat),
                significand < pow2(24),
                pow2((w + 2) as nat) > 0,
        ;
        if w + 26 < 279 {
            lemma_pow2_strictly_increases((w + 26) as nat, 279);
        }
        assert(total < top);
    }
    let mut digits: u64 = 0;
    let mut place: i32 = TOP_PLACE;
    let mut found = false;
    let mut steps: u32 = 0;
    let ghost mut scale: nat = 1;
    proof {
        lemma_pow10_grows(0, 0);
        assert(total * 1 == total) by (nonlinear_arith);
        assert(gap * 1 == gap) by (nonlinear_arith);
        assert(0 * top == 0) by (nonlinear_arith);
    }
    while !found
        invariant
            is_normal(rest@),
            is_normal(low@),
            is_normal(high@),
            is_normal(unit@),
            value_of(unit@) == top,
            top < pow2(307),
            value_of(rest@) < top,
            value_of(low@) >= 1,
            scale == pow10(steps as nat),
            scale >= 1,
            steps <= 307,
            place == 39 - steps,
            value_of(low@) == gap * scale,
            !found ==> digits * top + value_of(rest@) == total * scale,
            total == (significand as nat) * weight * 4,
            gap >= weight,
            weight >= 1,
            significand < 0x100_0000,
            !found ==> digits <= 0x4000_0000_0000,
            !found ==> search(
                value_of(rest@),
                value_of(low@),
                value_of(high@),
                top,
                digits as nat,
                place as int,
                closed,
            ) == shortest(f),
            found ==> digits == shortest(f).0 && place == shortest(f).1,
            found ==> digits <= 0x4000_0000_0001,
        decreases
                (if found {
                    0nat
                } else if value_of(low@) < top {
                    (top - value_of(low@) + 1) as nat
                } else {
                    1nat
                }),
    {
        let below = compare(&rest, &low);
        let fits_low = below < 0 || (closed && below == 0);
        let room = subtract(&unit, &rest);
        let above = compare(&room, &high);
        let fits_high = above < 0 || (closed && above == 0);
        let past = compare(&low, &unit) >= 0;
        if fits_low || fits_high || past {
            let twice = mul_add(&rest, 2, 0);
            let up = fits_high && (!fits_low || compare(&twice, &unit) >= 0);
            if up {
                digits = digits + 1;
            }
            found = true;
        } else {
            let ghost old_rest = value_of(rest@);
            let ghost old_low = value_of(low@);
            proof {
                lemma_digits_are_few(
                    digits as nat,
                    top,
                    old_rest,
                    old_low,
                    total,
                    gap,
                    scale,
                    significand as nat,
                    weight,
                );
                // The places left are few: the distance grows tenfold at each.
                lemma_pow10_over_pow2(steps as nat);
                assert(gap * scale >= scale) by (nonlinear_arith)
                    requires
                        gap >= 1,
                        scale >= 0,
                ;
                if steps >= 307 {
                    assert(false);
                }
            }
            let mut next = mul_add(&rest, 10, 0);
            let mut digit: u64 = 0;
            proof {
                assert(0 * top == 0) by (nonlinear_arith);
            }
            while compare(&next, &unit) >= 0
                invariant
                    is_normal(next@),
                    is_normal(unit@),
                    value_of(unit@) == top,
                    digit * top + value_of(next@) == old_rest * 10,
                    old_rest < top,
                    digit <= 9,
                decreases value_of(next@),
            {
                proof {
                    if digit == 9 {
                        assert(9 * top + value_of(next@) >= 10 * top);
                        assert(false);
                    }
                    assert((digit + 1) * top == digit * top + top) by (nonlinear_arith);
                }
                next = subtract(&next, &unit);
                digit = digit + 1;
            }
            proof {
                lemma_fundamental_div_mod_converse(
                    (old_rest * 10) as int,
                    top as int,
                    digit as int,
                    value_of(next@) as int,
                );
                assert((digits * 10 + digit) * top + value_of(next@) == (total * scale) * 10)
                    by (nonlinear_arith)
                    requires
                        digits * top + old_rest == total * scale,
                        digit * top + value_of(next@) == old_rest * 10,
                ;
                assert((total * scale) * 10 == total * (10 * scale)) by (nonlinear_arith);
                assert((gap * scale) * 10 + 0 == gap * (10 * scale)) by (nonlinear_arith);
                assert(old_low * 10 > old_low);
            }
            rest = next;
            digits = digits * 10 + digit;
            low = mul_add(&low, 10, 0);
            high = mul_add(&high, 10, 0);
            place = place - 1;
            steps = steps + 1;
            proof {
                scale = 10 * scale;
            }
        }
    }
    (digits, place)
}

/// Appends a run of zeros.
fn push_zeros(s: &mut String, count: u32)
    ensures
        final(s)@ == old(s)@ + zeros(count as nat),
{
    let mut done: u32 = 0;
    proof {
        assert(old(s)@ + zeros(0) =~= old(s)@);
    }
    while done < count
        invariant
            done <= count,
            s@ == old(s)@ + zeros(done as nat),
        decreases count - done,
    {
        push_char(s, '0');
        done = done + 1;
        proof {
            assert(s@ =~= old(s)@ + zeros(done as nat));
        }
    }
}

/// Appends digits with their last digit at a place, without an exponent.
#[verifier::rlimit(40)]
fn push_plain(s: &mut String, digits: u64, place: i32)
    requires
        -1000 <= place <= 1000,
    ensures
        final(s)@ == old(s)@ + plain_text(digits as nat, place as int),
{
    let ghost before = s@;
    if place >= 0 {
        push_decimal(s, digits as u128);
        push_zeros(s, place as u32);
        proof {
            assert(s@ =~= before + plain_text(digits as nat, place as int));
        }
    } else {
        let places: u32 = (-place) as u32;
        let mut unit: u128 = 1;
        let mut done: u32 = 0;
        proof {
            lemma_pow10_grows(0, 0);
        }
        while done < places && done < 20
            invariant
                done <= places,
                done <= 20,
                unit == pow10(done as nat),
                1 <= unit <= 100_000_000_000_000_000_000,
            decreases 20 - done,
        {
            proof {
                lemma_pow10_grows((done + 1) as nat, 20);
                reveal_with_fuel(pow10, 21);
                assert(pow10(20) == 100_000_000_000_000_000_000);
            }
            unit = unit * 10;
            done = done + 1;
        }
        proof {
            if done < places {
                // Ten to the twentieth and more is beyond 64 bits.
                reveal_with_fuel(pow10, 21);
                assert(pow10(20) == 100_000_000_000_000_000_000);
                lemma_pow10_grows(20, places as nat);
                crate::literal::lemma_small_over_power(digits as nat, 20, places as nat);
            }
        }
        let whole: u128 = if done < places {
            0
        } else {
            (digits as u128) / unit
        };
        let part: u128 = if done < places {
            digits as u128
        } else {
            (digits as u128) % unit
        };
        push_decimal(s, whole);
        push_char(s, '.');
        push_padded_decimal(s, part, places as usize);
        proof {
            assert(s@ =~= before + plain_text(digits as nat, place as int));
        }
    }
}

/// The digits without zeros at their end.
fn trim(digits: u64, place: i32) -> (r: (u64, i32))
    requires
        -1000 <= place <= 900,
    ensures
        r.0 == trimmed(digits as nat, place as int).0,
        r.1 == trimmed(digits as nat, place as int).1,
        place <= r.1 <= place + 64,
{
    let mut d = digits;
    let mut p = place;
    let mut count: u32 = 0;
    proof {
        lemma2_to64();
        assert(d * pow2(0) == d);
    }
    while d > 0 && d % 10 == 0
        invariant
            trimmed(d as nat, p as int) == trimmed(digits as nat, place as int),
            p == place + count,
            -1000 <= place <= 900,
            count <= 64,
            d * pow2(count as nat) <= u64::MAX,
        decreases d,
    {
        proof {
            lemma_pow2_unfold((count + 1) as nat);
            assert((d / 10) * (2 * pow2(count as nat)) <= d * pow2(count as nat))
                by (nonlinear_arith)
                requires
                    d >= 10,
                    pow2(count as nat) >= 0,
            ;
            if count == 64 {
                lemma2_to64();
                assert(d * pow2(64) >= pow2(64)) by (nonlinear_arith)
                    requires
                        d >= 1,
                ;
                assert(false);
            }
        }
        d = d / 10;
        p = p + 1;
        count = count + 1;
    }
    (d, p)
}

/// Appends the text of a number.
pub fn push_float(s: &mut String, f: Float32)
    ensures
        final(s)@ == old(s)@ + display_text(f),
{
    let ghost before = s@;
    let e = f.exponent();
    let m = f.fraction();
    if e == 255 && m != 0 {
        push_text(s, "NaN");
        return ;
    }
    if f.is_negative() {
        push_char(s, '-');
    }
    let ghost signed = s@;
    proof {
        lemma2_to64();
        if e >= 1 {
            crate::float32::lemma_magnitude_bounds(f);
            lemma_pow2_pos((e + 22) as nat);
        } else {
            assert(f.magnitude() == m * pow2(0));
            assert(m * 1 == m);
            assert(f.magnitude() == m);
        }
    }
    if e == 255 {
        push_text(s, "inf");
    } else if e == 0 && m == 0 {
        push_char(s, '0');
        proof {
            assert(s@ =~= signed + seq!['0']);
        }
    } else {
        let (digits, place) = shortest_digits(f);
        let (digits, place) = trim(digits, place);
        push_plain(s, digits, place);
    }
    proof {
        assert(s@ =~= before + display_text(f));
    }
}

/// The text of a number.
pub fn float_text(f: Float32) -> (s: String)
    ensures
        s@ == display_text(f),
{
    let mut s = String::new();
    push_float(&mut s, f);
    proof {
        assert(Seq::<char>::empty() + display_text(f) =~= display_text(f));
    }
    s
}

/// Appends digits with their last digit at a place, with an exponent.
#[verifier::rlimit(40)]
fn push_with_exponent(s: &mut String, digits: u64, place: i32)
    requires
        -1000 <= place <= 1000,
    ensures
        final(s)@ == old(s)@ + exponent_text(digits as nat, place as int),
{
    let ghost before = s@;
    let mut count: u32 = 1;
    let mut lead: u64 = 1;
    let mut left: u64 = digits;
    proof {
        lemma_pow10_grows(0, 0);
        assert(lead * left == digits) by (nonlinear_arith)
            requires
                lead == 1,
                left == digits,
        ;
    }
    while left >= 10
        invariant
            1 <= count <= 20,
            lead == pow10((count - 1) as nat),
            lead * left <= digits,
            lead >= 1,
            digit_count(digits as nat) == (count - 1) + digit_count(left as nat),
        decreases left,
    {
        proof {
            assert((lead * 10) * (left / 10) <= lead * left) by (nonlinear_arith)
                requires
                    lead >= 0,
                    left >= 0,
            ;
            assert(lead * 10 <= lead * left) by (nonlinear_arith)
                requires
                    lead >= 0,
                    left >= 10,
            ;
            if count == 20 {
                reveal_with_fuel(pow10, 21);
                assert(pow10(19) == 10_000_000_000_000_000_000);
                assert(false);
            }
        }
        lead = lead * 10;
        left = left / 10;
        count = count + 1;
    }
    push_decimal(s, (digits / lead) as u128);
    if count > 1 {
        push_char(s, '.');
        push_padded_decimal(s, (digits % lead) as u128, (count - 1) as usize);
    }
    push_char(s, 'e');
    push_signed_decimal(s, (place as i64) + (count as i64) - 1);
    proof {
        assert(s@ =~= before + exponent_text(digits as nat, place as int));
    }
}

/// Appends the text of a number with a point or an exponent in it.
pub fn push_float_debug(s: &mut String, f: Float32)
    ensures
        final(s)@ == old(s)@ + debug_text(f),
{
    let ghost before = s@;
    let e = f.exponent();
    let m = f.fraction();
    if e == 255 && m != 0 {
        push_text(s, "NaN");
        return ;
    }
    if f.is_negative() {
        push_char(s, '-');
    }
    let ghost signed = s@;
    proof {
        lemma2_to64();
        if e >= 1 {
            crate::float32::lemma_magnitude_bounds(f);
            lemma_pow2_pos((e + 22) as nat);
        } else {
            assert(f.magnitude() == m * pow2(0));
            assert(m * 1 == m);
            assert(f.magnitude() == m);
        }
    }
    if e == 255 {
        push_text(s, "inf");
    } else if e == 0 && m == 0 {
        push_text(s, "0.0");
    } else {
        let (digits, place) = shortest_digits(f);
        let (digits, place) = trim(digits, place);
        let size: u32 = f.to_bits() % 0x8000_0000;
        if (size != 0 && size < 0x38D1_B717) || size >= 0x5A0E_1BCA {
            push_with_exponent(s, digits, place);
        } else {
            push_plain(s, digits, place);
            if place >= 0 {
                push_text(s, ".0");
            }
        }
    }
    proof {
        assert(s@ =~= before + debug_text(f));
    }
}

} // verus!
