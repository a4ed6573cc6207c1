//! Whole numbers of any size, as lists of 32-bit limbs.
//!
//! The limbs are in order from the least significant. A number has many
//! lists: zero limbs at the end change nothing. A list without them is
//! normal.

use vstd::arithmetic::div_mod::*;
use vstd::arithmetic::mul::*;
use vstd::arithmetic::power2::*;
use crate::text::pow10;
use vstd::prelude::*;

verus! {

/// The base of the limbs.
pub const BASE: u64 = 0x1_0000_0000;

/// The number that the limbs hold.
pub open spec fn value_of(limbs: Seq<u32>) -> nat
    decreases limbs.len(),
{
    if limbs.len() == 0 {
        0
    } else {
        value_of(limbs.drop_last()) + (limbs.last() as nat) * pow2((32 * (limbs.len() - 1)) as nat)
    }
}

/// The list has no zero limb at its end.
pub open spec fn is_normal(limbs: Seq<u32>) -> bool {
    limbs.len() == 0 || limbs.last() != 0
}

/// The number is its lowest limb plus the base times the number of the rest.
pub proof fn lemma_value_front(limbs: Seq<u32>)
    requires
        limbs.len() > 0,
    ensures
        value_of(limbs) == limbs[0] + BASE * value_of(limbs.skip(1)),
    decreases limbs.len(),
{
    lemma2_to64();
    let n = limbs.len();
    if n == 1 {
        assert(limbs.drop_last().len() == 0);
        assert(limbs.skip(1).len() == 0);
        assert(value_of(limbs.drop_last()) == 0);
        assert(value_of(limbs.skip(1)) == 0);
        assert(value_of(limbs) == limbs[0] * pow2(0));
    } else {
        let body = limbs.drop_last();
        lemma_value_front(body);
        assert(body.skip(1) =~= limbs.skip(1).drop_last());
        assert(limbs.skip(1).last() == limbs.last());
        assert(body[0] == limbs[0]);
        let high = pow2((32 * (n - 2)) as nat);
        lemma_pow2_adds(32, (32 * (n - 2)) as nat);
        assert(pow2((32 * (n - 1)) as nat) == BASE * high);
        let rest = value_of(body.skip(1));
        let last = limbs.last() as nat;
        assert(value_of(limbs.skip(1)) == rest + last * high);
        assert(BASE * (rest + last * high) == BASE * rest + last * (BASE * high))
            by (nonlinear_arith);
    }
}

/// A limb at the end adds its multiple of a power of the base.
pub proof fn lemma_value_push(limbs: Seq<u32>, limb: u32)
    ensures
        value_of(limbs.push(limb)) == value_of(limbs) + limb * pow2((32 * limbs.len()) as nat),
{
    assert(limbs.push(limb).drop_last() =~= limbs);
}

/// A normal list of limbs holds a number of at least the power of the
/// base of its last limb.
pub proof fn lemma_normal_is_large(limbs: Seq<u32>)
    requires
        limbs.len() > 0,
        is_normal(limbs),
    ensures
        value_of(limbs) >= pow2((32 * (limbs.len() - 1)) as nat),
{
    let high = pow2((32 * (limbs.len() - 1)) as nat);
    assert(limbs.last() * high >= high) by (nonlinear_arith)
        requires
            limbs.last() >= 1,
            high >= 0,
    ;
}

/// A list of limbs holds a number below the power of the base of its length.
pub proof fn lemma_value_bound(limbs: Seq<u32>)
    ensures
        value_of(limbs) < pow2((32 * limbs.len()) as nat),
    decreases limbs.len(),
{
    lemma2_to64();
    if limbs.len() > 0 {
        lemma_value_bound(limbs.drop_last());
        let high = pow2((32 * (limbs.len() - 1)) as nat);
        lemma_pow2_adds(32, (32 * (limbs.len() - 1)) as nat);
        assert(limbs.last() * high <= (BASE - 1) * high) by (nonlinear_arith)
            requires
                limbs.last() <= BASE - 1,
                high >= 0,
        ;
        assert((BASE - 1) * high + high == BASE * high) by (nonlinear_arith);
    }
}

/// Zero limbs at the end change nothing.
pub proof fn lemma_value_zero_end(limbs: Seq<u32>)
    requires
        limbs.len() > 0,
        limbs.last() == 0,
    ensures
        value_of(limbs) == value_of(limbs.drop_last()),
{
    assert(0 * pow2((32 * (limbs.len() - 1)) as nat) == 0) by (nonlinear_arith);
}

/// The number times `m` plus `a`, as a normal list if the limbs are normal.
#[verifier::rlimit(40)]
pub fn mul_add(limbs: &Vec<u32>, m: u32, a: u32) -> (out: Vec<u32>)
    requires
        m >= 1,
    ensures
        value_of(out@) == value_of(limbs@) * m + a,
        is_normal(limbs@) ==> is_normal(out@),
        out@.len() <= limbs@.len() + 1,
{
    let mut out: Vec<u32> = Vec::new();
    let mut carry: u64 = a as u64;
    let mut i: usize = 0;
    proof {
        lemma2_to64();
        assert(limbs@.take(0).len() == 0);
        assert(value_of(limbs@.take(0)) == 0);
        assert(value_of(out@) == 0);
        assert(carry * pow2(0) == carry);
        assert(0 * m == 0) by (nonlinear_arith);
    }
    while i < limbs.len()
        invariant
            i <= limbs@.len(),
            out@.len() == i,
            m >= 1,
            carry < BASE,
            value_of(out@) + carry * pow2((32 * i) as nat) == value_of(limbs@.take(i as int)) * m
                + a,
            i > 0 && carry == 0 && limbs@[i - 1] != 0 ==> out@[i - 1] != 0,
        decreases limbs@.len() - i,
    {
        let limb = limbs[i];
        assert(limb * m + carry < BASE * BASE) by (nonlinear_arith)
            requires
                limb < BASE,
                m < BASE,
                carry < BASE,
        ;
        let total: u64 = (limb as u64) * (m as u64) + carry;
        let low: u32 = (total % BASE) as u32;
        let next: u64 = total / BASE;
        proof {
            let weight = pow2((32 * i) as nat);
            let before = value_of(out@);
            lemma2_to64();
            lemma_pow2_adds(32, (32 * i) as nat);
            assert(pow2((32 * (i + 1)) as nat) == BASE * weight);
            lemma_value_push(out@, low);
            assert(limbs@.take(i + 1).drop_last() =~= limbs@.take(i as int));
            assert(limbs@.take(i + 1).last() == limb);
            assert(total == low + BASE * next);
            let old_part = value_of(limbs@.take(i as int));
            assert((old_part + limb * weight) * m + a == before + low * weight + next * (BASE
                * weight)) by (nonlinear_arith)
                requires
                    before + carry * weight == old_part * m + a,
                    limb * m + carry == low + BASE * next,
            ;
            assert(next < BASE) by (nonlinear_arith)
                requires
                    total < BASE * BASE,
                    next == total / BASE,
                    BASE == 0x1_0000_0000,
            ;
            if next == 0 && limb != 0 {
                assert(limb * m >= 1) by (nonlinear_arith)
                    requires
                        limb >= 1,
                        m >= 1,
                ;
            }
        }
        out.push(low);
        carry = next;
        i += 1;
    }
    proof {
        assert(limbs@.take(i as int) =~= limbs@);
    }
    if carry != 0 {
        proof {
            lemma_value_push(out@, carry as u32);
        }
        out.push(carry as u32);
    } else {
        proof {
            assert(0 * pow2((32 * i) as nat) == 0) by (nonlinear_arith);
        }
    }
    out
}

/// The number divided by `d`, as a normal list, and what is left.
#[verifier::rlimit(40)]
pub fn div_rem(limbs: &Vec<u32>, d: u32) -> (r: (Vec<u32>, u32))
    requires
        d >= 1,
    ensures
        value_of(limbs@) == value_of(r.0@) * d + r.1,
        r.1 < d,
        is_normal(r.0@),
        r.0@.len() <= limbs@.len(),
{
    let n = limbs.len();
    let mut quotient: Vec<u32> = Vec::new();
    let mut k: usize = 0;
    while k < n
        invariant
            k <= n,
            n == limbs@.len(),
            quotient@.len() == k,
        decreases n - k,
    {
        quotient.push(0);
        k += 1;
    }
    let mut rest: u64 = 0;
    let mut i: usize = n;
    proof {
        assert(limbs@.skip(n as int).len() == 0);
        assert(quotient@.skip(n as int).len() == 0);
        assert(0 * d == 0) by (nonlinear_arith);
    }
    while i > 0
        invariant
            i <= n,
            n == limbs@.len(),
            quotient@.len() == n,
            d >= 1,
            rest < d,
            value_of(limbs@.skip(i as int)) == value_of(quotient@.skip(i as int)) * d + rest,
        decreases i,
    {
        i -= 1;
        let limb = limbs[i];
        let ghost upper = value_of(quotient@.skip(i + 1));
        let ghost tail = quotient@.skip(i + 1);
        assert(rest * BASE + limb < BASE * BASE) by (nonlinear_arith)
            requires
                rest < d,
                d < BASE,
                limb < BASE,
                BASE == 0x1_0000_0000,
        ;
        let total: u64 = rest * BASE + (limb as u64);
        let digit: u64 = total / (d as u64);
        let left: u64 = total % (d as u64);
        proof {
            lemma_fundamental_div_mod(total as int, d as int);
            assert(digit < BASE) by (nonlinear_arith)
                requires
                    total == rest * BASE + limb,
                    rest <= d - 1,
                    limb < BASE,
                    digit == total / (d as u64),
                    d >= 1,
                    total == d * digit + left,
                    left >= 0,
                    BASE == 0x1_0000_0000,
            ;
        }
        quotient.set(i, digit as u32);
        proof {
            assert(quotient@.skip(i + 1) =~= tail);
            lemma_value_front(limbs@.skip(i as int));
            lemma_value_front(quotient@.skip(i as int));
            assert(limbs@.skip(i as int).skip(1) =~= limbs@.skip(i + 1));
            assert(quotient@.skip(i as int).skip(1) =~= quotient@.skip(i + 1));
            let lower = value_of(limbs@.skip(i + 1));
            assert(limb + BASE * lower == (digit + BASE * upper) * d + left) by (nonlinear_arith)
                requires
                    lower == upper * d + rest,
                    rest * BASE + limb == d * digit + left,
            ;
        }
        rest = left;
    }
    proof {
        assert(limbs@.skip(0) =~= limbs@);
        assert(quotient@.skip(0) =~= quotient@);
    }
    while quotient.len() > 0 && quotient[quotient.len() - 1] == 0
        invariant
            value_of(limbs@) == value_of(quotient@) * d + rest,
            quotient@.len() <= n,
        decreases quotient@.len(),
    {
        proof {
            lemma_value_zero_end(quotient@);
        }
        quotient.pop();
    }
    (quotient, rest as u32)
}

/// The number, if it has fewer than 32 bits.
pub fn to_small(limbs: &Vec<u32>) -> (small: Option<u32>)
    requires
        is_normal(limbs@),
    ensures
        match small {
            Some(v) => v == value_of(limbs@),
            None => value_of(limbs@) >= BASE,
        },
{
    proof {
        lemma2_to64();
    }
    if limbs.len() == 0 {
        Some(0)
    } else if limbs.len() == 1 {
        proof {
            assert(limbs@.drop_last().len() == 0);
            assert(value_of(limbs@.drop_last()) == 0);
            assert(limbs@.last() == limbs@[0]);
            assert(value_of(limbs@) == limbs@[0] * pow2(0));
        }
        Some(limbs[0])
    } else {
        proof {
            lemma_normal_is_large(limbs@);
            if limbs@.len() > 2 {
                lemma_pow2_strictly_increases(32, (32 * (limbs@.len() - 1)) as nat);
            }
        }
        None
    }
}

/// Of two lists of the same length that agree above a limb in which the
/// first is smaller, the first holds the smaller number.
pub proof fn lemma_smaller_limb(a: Seq<u32>, b: Seq<u32>, i: int)
    requires
        a.len() == b.len(),
        0 <= i < a.len(),
        a[i] < b[i],
        forall|j: int| i < j < a.len() ==> a[j] == b[j],
    ensures
        value_of(a) < value_of(b),
    decreases a.len(),
{
    let n = a.len();
    let high = pow2((32 * (n - 1)) as nat);
    if i == n - 1 {
        lemma_value_bound(a.drop_last());
        assert((a[i] + 1) * high <= b[i] * high) by (nonlinear_arith)
            requires
                a[i] + 1 <= b[i],
                high >= 0,
        ;
        assert((a[i] + 1) * high == a[i] * high + high) by (nonlinear_arith);
    } else {
        assert(a.drop_last()[i] == a[i] && b.drop_last()[i] == b[i]);
        assert forall|j: int| i < j < a.drop_last().len() implies a.drop_last()[j] == b.drop_last()[j] by {
            assert(a.drop_last()[j] == a[j] && b.drop_last()[j] == b[j]);
        }
        lemma_smaller_limb(a.drop_last(), b.drop_last(), i);
        assert(a.last() == b.last());
    }
}

/// A normal list holds a smaller number than a longer normal list.
pub proof fn lemma_shorter_is_smaller(a: Seq<u32>, b: Seq<u32>)
    requires
        a.len() < b.len(),
        is_normal(b),
    ensures
        value_of(a) < value_of(b),
{
    lemma_value_bound(a);
    lemma_normal_is_large(b);
    if a.len() < b.len() - 1 {
        lemma_pow2_strictly_increases((32 * a.len()) as nat, (32 * (b.len() - 1)) as nat);
    }
}

/// How two numbers compare: `-1` if the first is smaller, `0` if they are
/// equal, `1` if the first is larger.
pub fn compare(a: &Vec<u32>, b: &Vec<u32>) -> (order: i8)
    requires
        is_normal(a@),
        is_normal(b@),
    ensures
        order == (if value_of(a@) < value_of(b@) {
            -1i8
        } else if value_of(a@) == value_of(b@) {
            0i8
        } else {
            1i8
        }),
{
    if a.len() < b.len() {
        proof {
            lemma_shorter_is_smaller(a@, b@);
        }
        return -1;
    }
    if a.len() > b.len() {
        proof {
            lemma_shorter_is_smaller(b@, a@);
        }
        return 1;
    }
    let mut i: usize = a.len();
    while i > 0
        invariant
            i <= a@.len(),
            a@.len() == b@.len(),
            forall|j: int| i <= j < a@.len() ==> a@[j] == b@[j],
        decreases i,
    {
        i -= 1;
        if a[i] < b[i] {
            proof {
                lemma_smaller_limb(a@, b@, i as int);
            }
            return -1;
        }
        if a[i] > b[i] {
            proof {
                lemma_smaller_limb(b@, a@, i as int);
            }
            return 1;
        }
    }
    proof {
        assert(a@ =~= b@);
    }
    0
}

/// The difference of two numbers, the first of which is not the smaller,
/// as a normal list.
#[verifier::rlimit(40)]
pub fn subtract(a: &Vec<u32>, b: &Vec<u32>) -> (out: Vec<u32>)
    requires
        is_normal(a@),
        is_normal(b@),
        value_of(a@) >= value_of(b@),
    ensures
        value_of(out@) == value_of(a@) - value_of(b@),
        is_normal(out@),
        out@.len() <= a@.len(),
{
    let n = a.len();
    proof {
        if b@.len() > a@.len() {
            lemma_shorter_is_smaller(a@, b@);
        }
    }
    let mut out: Vec<u32> = Vec::new();
    let mut borrow: u64 = 0;
    let mut i: usize = 0;
    let ghost mut taken: Seq<u32> = Seq::empty();
    proof {
        lemma2_to64();
        assert(a@.take(0).len() == 0);
        assert(value_of(a@.take(0)) == 0);
        assert(value_of(out@) == 0);
        assert(value_of(taken) == 0);
        assert(0 * pow2(0) == 0) by (nonlinear_arith);
    }
    while i < n
        invariant
            i <= n,
            n == a@.len(),
            b@.len() <= n,
            out@.len() == i,
            taken.len() == i,
            forall|j: int|
                0 <= j < i ==> #[trigger] taken[j] == (if j < b@.len() {
                    b@[j]
                } else {
                    0u32
                }),
            borrow <= 1,
            value_of(out@) + value_of(taken) == value_of(a@.take(i as int)) + borrow * pow2(
                (32 * i) as nat,
            ),
        decreases n - i,
    {
        let x: u64 = a[i] as u64;
        let y: u64 = if i < b.len() {
            b[i] as u64
        } else {
            0
        };
        let need: u64 = y + borrow;
        let (limb, next): (u32, u64) = if x >= need {
            ((x - need) as u32, 0)
        } else {
            ((x + BASE - need) as u32, 1)
        };
        proof {
            let weight = pow2((32 * i) as nat);
            lemma2_to64();
            lemma_pow2_adds(32, (32 * i) as nat);
            assert(pow2((32 * (i + 1)) as nat) == BASE * weight);
            lemma_value_push(out@, limb);
            lemma_value_push(taken, y as u32);
            assert(a@.take(i + 1).drop_last() =~= a@.take(i as int));
            assert(a@.take(i + 1).last() == a@[i as int]);
            assert(limb + y + borrow == x + next * BASE);
            let before = value_of(out@);
            let took = value_of(taken);
            let part = value_of(a@.take(i as int));
            assert(before + limb * weight + took + y * weight == part + x * weight + next * (BASE
                * weight)) by (nonlinear_arith)
                requires
                    before + took == part + borrow * weight,
                    limb + y + borrow == x + next * BASE,
            ;
            taken = taken.push(y as u32);
        }
        out.push(limb);
        borrow = next;
        i += 1;
    }
    proof {
        assert(a@.take(n as int) =~= a@);
        lemma_padded_value(b@, taken);
        lemma_value_bound(out@);
        if borrow == 1 {
            assert(1 * pow2((32 * n) as nat) == pow2((32 * n) as nat)) by (nonlinear_arith);
            assert(false);
        }
        assert(0 * pow2((32 * n) as nat) == 0) by (nonlinear_arith);
    }
    while out.len() > 0 && out[out.len() - 1] == 0
        invariant
            value_of(out@) == value_of(a@) - value_of(b@),
            out@.len() <= n,
        decreases out@.len(),
    {
        proof {
            lemma_value_zero_end(out@);
        }
        out.pop();
    }
    out
}

/// Zero limbs after the limbs of a list change nothing.
pub proof fn lemma_padded_value(limbs: Seq<u32>, padded: Seq<u32>)
    requires
        limbs.len() <= padded.len(),
        forall|j: int|
            0 <= j < padded.len() ==> #[trigger] padded[j] == (if j < limbs.len() {
                limbs[j]
            } else {
                0u32
            }),
    ensures
        value_of(padded) == value_of(limbs),
    decreases padded.len(),
{
    if padded.len() > limbs.len() {
        lemma_value_zero_end(padded);
        assert forall|j: int| 0 <= j < padded.drop_last().len() implies #[trigger] padded.drop_last()[j]
            == (if j < limbs.len() {
            limbs[j]
        } else {
            0u32
        }) by {
            assert(padded.drop_last()[j] == padded[j]);
        }
        lemma_padded_value(limbs, padded.drop_last());
    } else {
        assert(padded =~= limbs);
    }
}

/// The number times a power of two.
pub fn times_pow2(limbs: Vec<u32>, shift: u32) -> (out: Vec<u32>)
    requires
        is_normal(limbs@),
        shift <= 512,
    ensures
        value_of(out@) == value_of(limbs@) * pow2(shift as nat),
        is_normal(out@),
{
    let ghost start = value_of(limbs@);
    let mut out = limbs;
    let mut done: u32 = 0;
    proof {
        lemma2_to64();
        assert(start * pow2(0) == start);
    }
    while done < shift
        invariant
            done <= shift <= 512,
            is_normal(out@),
            value_of(out@) == start * pow2(done as nat),
        decreases shift - done,
    {
        let step: u32 = if shift - done >= 30 {
            30
        } else {
            shift - done
        };
        proof {
            lemma2_to64();
            lemma_pow2_adds(done as nat, step as nat);
            lemma_pow2_strictly_increases(step as nat, 31);
            vstd::bits::lemma_u32_shl_is_mul(1, step);
            assert((start * pow2(done as nat)) * pow2(step as nat) + 0 == start * (pow2(
                done as nat,
            ) * pow2(step as nat))) by (nonlinear_arith);
            lemma_pow2_pos(step as nat);
        }
        let factor: u32 = 1u32 << step;
        out = mul_add(&out, factor, 0);
        done = done + step;
    }
    out
}

/// The number times a power of ten.
pub fn times_pow10(limbs: Vec<u32>, power: u32) -> (out: Vec<u32>)
    requires
        is_normal(limbs@),
    ensures
        value_of(out@) == value_of(limbs@) * pow10(power as nat),
        is_normal(out@),
{
    let ghost start = value_of(limbs@);
    let mut out = limbs;
    let mut done: u32 = 0;
    proof {
        assert(start * pow10(0) == start) by (nonlinear_arith)
            requires
                pow10(0) == 1,
        ;
    }
    while done < power
        invariant
            done <= power,
            is_normal(out@),
            value_of(out@) == start * pow10(done as nat),
        decreases power - done,
    {
        proof {
            assert((start * pow10(done as nat)) * 10 + 0 == start * pow10((done + 1) as nat))
                by (nonlinear_arith)
                requires
                    pow10((done + 1) as nat) == 10 * pow10(done as nat),
            ;
        }
        out = mul_add(&out, 10, 0);
        done = done + 1;
    }
    out
}

/// A small number as a list of limbs.
pub fn small(value: u32) -> (out: Vec<u32>)
    ensures
        value_of(out@) == value,
        is_normal(out@),
{
    let empty: Vec<u32> = Vec::new();
    proof {
        assert(value_of(empty@) == 0);
        assert(0 * 1 == 0) by (nonlinear_arith);
    }
    if value == 0 {
        empty
    } else {
        mul_add(&empty, 1, value)
    }
}

} // verus!
