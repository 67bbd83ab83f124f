//! Natural numbers of any size, held as little-endian 32-bit limbs.

use vstd::arithmetic::power::*;
use vstd::arithmetic::power2::*;
use vstd::prelude::*;

verus! {

/// The weight of limb `index`: the radix to that power.
pub open spec fn weight(index: int) -> nat
    decreases index,
{
    if index <= 0 {
        1
    } else {
        0x1_0000_0000 * weight(index - 1)
    }
}

/// Limb `index`, with zeros behind the last one.
pub open spec fn limb(limbs: Seq<u32>, index: int) -> nat {
    if 0 <= index < limbs.len() {
        limbs[index] as nat
    } else {
        0
    }
}

/// The number that the first `count` limbs stand for.
pub open spec fn low(limbs: Seq<u32>, count: int) -> nat
    decreases count,
{
    if count <= 0 {
        0
    } else {
        low(limbs, count - 1) + limb(limbs, count - 1) * weight(count - 1)
    }
}

/// The number that the limbs stand for.
pub open spec fn natural(limbs: Seq<u32>) -> nat {
    low(limbs, limbs.len() as int)
}

proof fn lemma_low_ext(a: Seq<u32>, b: Seq<u32>, count: int)
    requires
        forall|i: int| 0 <= i < count ==> limb(a, i) == limb(b, i),
    ensures
        low(a, count) == low(b, count),
    decreases count,
{
    if count > 0 {
        lemma_low_ext(a, b, count - 1);
    }
}

/// Limbs past the end add nothing.
proof fn lemma_low_beyond(limbs: Seq<u32>, count: int)
    requires
        count >= limbs.len(),
    ensures
        low(limbs, count) == natural(limbs),
    decreases count,
{
    if count > limbs.len() {
        lemma_low_beyond(limbs, count - 1);
        assert(limb(limbs, count - 1) * weight(count - 1) == 0) by (nonlinear_arith)
            requires
                limb(limbs, count - 1) == 0,
        ;
    }
}

proof fn lemma_weight_pos(index: int)
    ensures
        weight(index) > 0,
    decreases index,
{
    if index > 0 {
        lemma_weight_pos(index - 1);
    }
}

proof fn lemma_low_bound(limbs: Seq<u32>, count: int)
    requires
        count >= 0,
    ensures
        low(limbs, count) < weight(count),
    decreases count,
{
    if count > 0 {
        lemma_low_bound(limbs, count - 1);
        let l = limb(limbs, count - 1);
        let w = weight(count - 1);
        assert(l <= 0xFFFF_FFFF);
        assert(l * w + w <= 0x1_0000_0000 * w) by (nonlinear_arith)
            requires
                l <= 0xFFFF_FFFF,
                w >= 0,
        ;
    }
}

/// A number of `n` limbs has at most `32 n` bits.
pub proof fn lemma_natural_bits(limbs: Seq<u32>)
    ensures
        natural(limbs) < pow2((32 * limbs.len()) as nat),
{
    lemma_low_bound(limbs, limbs.len() as int);
    lemma_weight_bits(limbs.len());
}

proof fn lemma_weight_bits(count: nat)
    ensures
        weight(count as int) == pow2((32 * count) as nat),
    decreases count,
{
    lemma2_to64();
    if count > 0 {
        lemma_weight_bits((count - 1) as nat);
        lemma_pow2_adds(32, (32 * (count - 1)) as nat);
    }
}

/// A last limb that the number is too small for is zero.
pub proof fn lemma_natural_trim(limbs: Seq<u32>, bound: Seq<u32>)
    requires
        natural(limbs) <= natural(bound),
        limbs.len() > bound.len(),
    ensures
        natural(limbs.drop_last()) == natural(limbs),
{
    let last = limbs.len() - 1;
    lemma_low_bound(bound, last);
    lemma_low_beyond(bound, last);
    let w = weight(last);
    assert(limb(limbs, last) == 0) by {
        if limb(limbs, last) > 0 {
            assert(limb(limbs, last) * w >= w) by (nonlinear_arith)
                requires
                    limb(limbs, last) >= 1,
            ;
        }
    }
    assert(limb(limbs, last) * w == 0) by (nonlinear_arith)
        requires
            limb(limbs, last) == 0,
    ;
    lemma_low_ext(limbs, limbs.drop_last(), last);
}

/// The limbs of a small number.
pub fn small(value: u64) -> (limbs: Vec<u32>)
    ensures
        natural(limbs@) == value,
{
    let mut limbs: Vec<u32> = Vec::new();
    let low_part: u32 = (value % 0x1_0000_0000) as u32;
    let high_part: u32 = (value / 0x1_0000_0000) as u32;
    limbs.push(low_part);
    limbs.push(high_part);
    proof {
        reveal_with_fuel(low, 3);
        reveal_with_fuel(weight, 3);
        assert(limb(limbs@, 0) == low_part);
        assert(limb(limbs@, 1) == high_part);
        assert(weight(0) == 1);
        assert(weight(1) == 0x1_0000_0000);
        assert(low(limbs@, 0) == 0);
        assert(low(limbs@, 1) == low_part) by (nonlinear_arith)
            requires
                low(limbs@, 1) == 0 + low_part * weight(0),
                weight(0) == 1,
        ;
        assert(low(limbs@, 2) == low(limbs@, 1) + limb(limbs@, 1) * weight(1));
        assert(high_part * weight(1) == high_part * 0x1_0000_0000) by (nonlinear_arith)
            requires
                weight(1) == 0x1_0000_0000,
        ;
    }
    limbs
}

/// A copy of the limbs.
pub fn copied(limbs: &Vec<u32>) -> (copy: Vec<u32>)
    ensures
        copy@ == limbs@,
{
    let mut copy: Vec<u32> = Vec::new();
    let mut at: usize = 0;
    while at < limbs.len()
        invariant
            at <= limbs.len(),
            copy@ == limbs@.take(at as int),
        decreases limbs.len() - at,
    {
        copy.push(limbs[at]);
        proof {
            assert(limbs@.take(at + 1) =~= limbs@.take(at as int).push(limbs@[at as int]));
        }
        at += 1;
    }
    proof {
        assert(limbs@.take(at as int) =~= limbs@);
    }
    copy
}

/// Multiplies by `factor` and adds `term`.
pub fn multiply_add(limbs: &mut Vec<u32>, factor: u32, term: u32)
    ensures
        natural(final(limbs)@) == natural(old(limbs)@) * factor + term,
        final(limbs)@.len() >= old(limbs)@.len(),
{
    let ghost before = limbs@;
    let count: usize = limbs.len();
    let mut carry: u32 = term;
    let mut at: usize = 0;
    proof {
        assert(carry * weight(0) == term) by (nonlinear_arith)
            requires
                carry == term,
                weight(0) == 1,
        ;
        assert(low(before, 0) * factor == 0) by (nonlinear_arith)
            requires
                low(before, 0) == 0,
        ;
    }
    while at < count
        invariant
            at <= count,
            count == before.len(),
            limbs@.len() == before.len(),
            forall|i: int| at <= i < count ==> limbs@[i] == before[i],
            low(limbs@, at as int) + carry * weight(at as int) == low(before, at as int) * factor
                + term,
        decreases count - at,
    {
        let ghost held = limbs@;
        let digit_before: u32 = limbs[at];
        assert(digit_before * factor <= 0xFFFF_FFFF * 0xFFFF_FFFF) by (nonlinear_arith)
            requires
                digit_before <= 0xFFFF_FFFF,
                factor <= 0xFFFF_FFFF,
        ;
        let product: u64 = (digit_before as u64) * (factor as u64) + (carry as u64);
        let digit: u32 = (product % 0x1_0000_0000) as u32;
        let over: u32 = (product / 0x1_0000_0000) as u32;
        limbs.set(at, digit);
        proof {
            lemma_low_ext(held, limbs@, at as int);
            let w = weight(at as int);
            let x = before[at as int] as int;
            let f = factor as int;
            let c = carry as int;
            let dg = digit as int;
            let ov = over as int;
            let pl = low(before, at as int) as int;
            let ol = low(limbs@, at as int) as int;
            assert(limb(limbs@, at as int) == dg);
            assert(limb(before, at as int) == x);
            assert(dg + 0x1_0000_0000 * ov == x * f + c);
            assert(weight(at + 1) == 0x1_0000_0000 * w);
            assert(low(limbs@, at + 1) == ol + dg * w);
            assert(low(before, at + 1) == pl + x * w);
            assert(ol + dg * w + ov * (0x1_0000_0000 * w) == (pl + x * w) * f + term)
                by (nonlinear_arith)
                requires
                    dg + 0x1_0000_0000 * ov == x * f + c,
                    ol + c * w == pl * f + term,
            ;
        }
        carry = over;
        at += 1;
    }
    if carry != 0 {
        let ghost held = limbs@;
        limbs.push(carry);
        proof {
            lemma_low_ext(held, limbs@, count as int);
            assert(limb(limbs@, count as int) == carry);
        }
    } else {
        proof {
            assert(carry * weight(at as int) == 0) by (nonlinear_arith)
                requires
                    carry == 0,
            ;
        }
    }
}

fn limb_at(limbs: &Vec<u32>, index: usize) -> (value: u32)
    ensures
        value == limb(limbs@, index as int),
{
    if index < limbs.len() {
        limbs[index]
    } else {
        0
    }
}

/// Whether the first number is below the second.
pub fn below(a: &Vec<u32>, b: &Vec<u32>) -> (less: bool)
    ensures
        less == (natural(a@) < natural(b@)),
{
    let mut at: usize = if a.len() < b.len() {
        b.len()
    } else {
        a.len()
    };
    proof {
        lemma_low_beyond(a@, at as int);
        lemma_low_beyond(b@, at as int);
    }
    while at > 0
        invariant
            natural(a@) - low(a@, at as int) == natural(b@) - low(b@, at as int),
        decreases at,
    {
        at -= 1;
        let x: u32 = limb_at(a, at);
        let y: u32 = limb_at(b, at);
        proof {
            lemma_low_bound(a@, at as int);
            lemma_low_bound(b@, at as int);
            let w = weight(at as int);
            if x < y {
                assert(x * w + w <= y * w) by (nonlinear_arith)
                    requires
                        x + 1 <= y,
                        w >= 0,
                ;
            }
            if y < x {
                assert(y * w + w <= x * w) by (nonlinear_arith)
                    requires
                        y + 1 <= x,
                        w >= 0,
                ;
            }
        }
        if x != y {
            return x < y;
        }
    }
    false
}

/// Takes `b` from `a`.
pub fn subtract(a: &mut Vec<u32>, b: &Vec<u32>)
    requires
        natural(b@) <= natural(old(a)@),
        b@.len() <= old(a)@.len(),
    ensures
        natural(final(a)@) == natural(old(a)@) - natural(b@),
        final(a)@.len() == old(a)@.len(),
{
    let ghost before = a@;
    let count: usize = a.len();
    let mut borrow: u64 = 0;
    let mut at: usize = 0;
    while at < count
        invariant
            at <= count,
            count == before.len(),
            a@.len() == before.len(),
            borrow <= 1,
            forall|i: int| at <= i < count ==> a@[i] == before[i],
            low(a@, at as int) + low(b@, at as int) == low(before, at as int) + borrow * weight(
                at as int,
            ),
        decreases count - at,
    {
        let ghost held = a@;
        let x: u64 = a[at] as u64;
        let y: u64 = limb_at(b, at) as u64 + borrow;
        let next: u64 = if x < y {
            1
        } else {
            0
        };
        let digit: u32 = (x + next * 0x1_0000_0000 - y) as u32;
        a.set(at, digit);
        proof {
            lemma_low_ext(held, a@, at as int);
            let w = weight(at as int) as int;
            let xi = x as int;
            let yi = limb(b@, at as int) as int;
            let bo = borrow as int;
            let nx = next as int;
            let dg = digit as int;
            let al = low(a@, at as int) as int;
            let bl = low(b@, at as int) as int;
            let pl = low(before, at as int) as int;
            assert(limb(a@, at as int) == dg);
            assert(limb(before, at as int) == xi);
            assert(dg + yi + bo == xi + nx * 0x1_0000_0000);
            assert(weight(at + 1) == 0x1_0000_0000 * w);
            assert((al + dg * w) + (bl + yi * w) == (pl + xi * w) + nx * (0x1_0000_0000 * w))
                by (nonlinear_arith)
                requires
                    dg + yi + bo == xi + nx * 0x1_0000_0000,
                    al + bl == pl + bo * w,
            ;
        }
        borrow = next;
        at += 1;
    }
    proof {
        lemma_low_beyond(b@, count as int);
        lemma_low_bound(a@, count as int);
        lemma_weight_pos(count as int);
        if borrow == 1 {
            assert(low(a@, count as int) < weight(count as int));
            assert(false);
        }
    }
}

/// Fills `limbs` up with zeros to at least `count` limbs.
pub fn pad(limbs: &mut Vec<u32>, count: usize)
    ensures
        natural(final(limbs)@) == natural(old(limbs)@),
        final(limbs)@.len() >= count,
        final(limbs)@.len() >= old(limbs)@.len(),
{
    let ghost value = natural(limbs@);
    while limbs.len() < count
        invariant
            natural(limbs@) == value,
            limbs@.len() >= old(limbs)@.len(),
        decreases count - limbs@.len(),
    {
        let ghost held = limbs@;
        limbs.push(0);
        proof {
            lemma_low_ext(held, limbs@, held.len() as int);
            assert(limb(limbs@, held.len() as int) * weight(held.len() as int) == 0)
                by (nonlinear_arith)
                requires
                    limb(limbs@, held.len() as int) == 0,
            ;
        }
    }
}

/// Adds `b` to `a`.
pub fn add_to(a: &mut Vec<u32>, b: &Vec<u32>)
    ensures
        natural(final(a)@) == natural(old(a)@) + natural(b@),
        final(a)@.len() >= old(a)@.len(),
{
    pad(a, b.len());
    let ghost before = a@;
    let count: usize = a.len();
    let mut carry: u64 = 0;
    let mut at: usize = 0;
    while at < count
        invariant
            at <= count,
            count == before.len(),
            a@.len() == before.len(),
            carry <= 1,
            forall|i: int| at <= i < count ==> a@[i] == before[i],
            low(a@, at as int) + carry * weight(at as int) == low(before, at as int) + low(
                b@,
                at as int,
            ),
        decreases count - at,
    {
        let ghost held = a@;
        let total: u64 = a[at] as u64 + limb_at(b, at) as u64 + carry;
        let digit: u32 = (total % 0x1_0000_0000) as u32;
        let next: u64 = total / 0x1_0000_0000;
        a.set(at, digit);
        proof {
            lemma_low_ext(held, a@, at as int);
            let w = weight(at as int) as int;
            let xi = limb(before, at as int) as int;
            let yi = limb(b@, at as int) as int;
            let ca = carry as int;
            let nx = next as int;
            let dg = digit as int;
            let al = low(a@, at as int) as int;
            let bl = low(b@, at as int) as int;
            let pl = low(before, at as int) as int;
            assert(limb(a@, at as int) == dg);
            assert(dg + nx * 0x1_0000_0000 == xi + yi + ca);
            assert(weight(at + 1) == 0x1_0000_0000 * w);
            assert((al + dg * w) + nx * (0x1_0000_0000 * w) == (pl + xi * w) + (bl + yi * w))
                by (nonlinear_arith)
                requires
                    dg + nx * 0x1_0000_0000 == xi + yi + ca,
                    al + ca * w == pl + bl,
            ;
        }
        carry = next;
        at += 1;
    }
    let ghost summed = a@;
    proof {
        lemma_low_beyond(b@, count as int);
    }
    if carry > 0 {
        a.push(1);
        proof {
            lemma_low_ext(summed, a@, count as int);
            assert(limb(a@, count as int) * weight(count as int) == weight(count as int))
                by (nonlinear_arith)
                requires
                    limb(a@, count as int) == 1,
            ;
            assert(carry * weight(count as int) == weight(count as int)) by (nonlinear_arith)
                requires
                    carry == 1,
            ;
        }
    } else {
        proof {
            assert(carry * weight(count as int) == 0) by (nonlinear_arith)
                requires
                    carry == 0,
            ;
        }
    }
}

/// Multiplies `limbs` by `base` to the power of `count`.
pub fn multiply_power(limbs: &mut Vec<u32>, base: u32, count: usize)
    ensures
        natural(final(limbs)@) == natural(old(limbs)@) * pow(base as int, count as nat),
{
    let ghost start = natural(limbs@);
    let mut done: usize = 0;
    proof {
        lemma_pow0(base as int);
        assert(start * 1 == start) by (nonlinear_arith);
    }
    while done < count
        invariant
            done <= count,
            natural(limbs@) == start * pow(base as int, done as nat),
        decreases count - done,
    {
        let ghost held = natural(limbs@) as int;
        multiply_add(limbs, base, 0);
        proof {
            let b = base as int;
            let p = pow(b, done as nat);
            let n = start as int;
            reveal(pow);
            assert(pow(b, (done + 1) as nat) == b * p);
            assert(held * b == n * (b * p)) by (nonlinear_arith)
                requires
                    held == n * p,
            ;
        }
        done += 1;
    }
}

proof fn lemma_low_set(limbs: Seq<u32>, index: int, digit: u32, count: int)
    requires
        0 <= index < count <= limbs.len(),
    ensures
        low(limbs.update(index, digit), count) + limbs[index] * weight(index) == low(limbs, count)
            + digit * weight(index),
    decreases count,
{
    if count == index + 1 {
        lemma_low_ext(limbs, limbs.update(index, digit), index);
    } else {
        lemma_low_set(limbs, index, digit, count - 1);
    }
}

/// Divides `limbs` by `divisor` and hands back the remainder.
pub fn divide(limbs: &mut Vec<u32>, divisor: u32) -> (remainder: u32)
    requires
        divisor > 0,
    ensures
        natural(final(limbs)@) == natural(old(limbs)@) / divisor as nat,
        remainder == natural(old(limbs)@) % divisor as nat,
{
    let ghost before = limbs@;
    let count: usize = limbs.len();
    let mut at: usize = count;
    let mut rest: u64 = 0;
    proof {
        let d = divisor as int;
        assert(0 * d + 0 * weight(count as int) == 0) by (nonlinear_arith);
    }
    while at > 0
        invariant
            divisor > 0,
            rest < divisor,
            at <= count,
            count == before.len(),
            limbs@.len() == before.len(),
            forall|i: int| 0 <= i < at ==> limbs@[i] == before[i],
            (natural(limbs@) - low(limbs@, at as int)) * divisor + rest * weight(at as int) + low(
                before,
                at as int,
            ) == natural(before),
        decreases at,
    {
        let ghost held = limbs@;
        at -= 1;
        let digit: u32 = limbs[at];
        let part: u64 = rest * 0x1_0000_0000 + digit as u64;
        let share: u64 = part / divisor as u64;
        let next: u64 = part % divisor as u64;
        proof {
            let d = divisor as int;
            let r = rest as int;
            let l = digit as int;
            assert(share < 0x1_0000_0000) by (nonlinear_arith)
                requires
                    part == r * 0x1_0000_0000 + l,
                    r <= d - 1,
                    l < 0x1_0000_0000,
                    share == part / (divisor as u64),
                    d == divisor,
                    d > 0,
            ;
        }
        limbs.set(at, share as u32);
        proof {
            let d = divisor as int;
            let r = rest as int;
            let l = digit as int;
            let q = share as int;
            let n = next as int;
            let w = weight(at as int) as int;
            lemma_low_set(held, at as int, share as u32, count as int);
            lemma_low_ext(held, limbs@, at as int);
            lemma_low_ext(before, held, at as int);
            assert(weight(at + 1) == 0x1_0000_0000 * w);
            assert(r * 0x1_0000_0000 + l == q * d + n) by {
                vstd::arithmetic::div_mod::lemma_fundamental_div_mod(part as int, d);
                assert(d * q == q * d) by (nonlinear_arith);
            }
            let upper = natural(held) - low(held, at + 1);
            let lower = low(before, at as int) as int;
            assert(low(held, at + 1) == low(held, at as int) + l * w);
            assert(low(before, at + 1) == lower + l * w);
            assert(natural(limbs@) - low(limbs@, at as int) == upper + q * w);
            assert((upper + q * w) * d + n * w + lower == upper * d + r * (0x1_0000_0000 * w) + (
            lower + l * w)) by (nonlinear_arith)
                requires
                    r * 0x1_0000_0000 + l == q * d + n,
            ;
        }
        rest = next;
    }
    proof {
        let d = divisor as int;
        let q = natural(limbs@) as int;
        let r = rest as int;
        assert(r * weight(0) == r) by (nonlinear_arith)
            requires
                weight(0) == 1,
        ;
        assert(d * q == q * d) by (nonlinear_arith);
        vstd::arithmetic::div_mod::lemma_fundamental_div_mod_converse(
            natural(before) as int,
            d,
            q,
            r,
        );
    }
    rest as u32
}

/// Whether the number is zero.
pub fn is_zero(limbs: &Vec<u32>) -> (zero: bool)
    ensures
        zero == (natural(limbs@) == 0),
{
    let empty: Vec<u32> = Vec::new();
    !below(&empty, limbs)
}

} // verus!
