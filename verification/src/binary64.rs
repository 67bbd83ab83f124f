//! Double-precision numbers as their 64-bit encodings.
//!
//! A number is given as a fraction of naturals; its encoding is that of the
//! nearest representable number, with ties going to the even one.

use vstd::arithmetic::power::*;
use vstd::arithmetic::power2::*;
use vstd::prelude::*;

use crate::natural::{below, copied, is_zero, multiply_add, natural, small, subtract};

verus! {

/// The encoding of positive infinity. Smaller encodings without a sign are the
/// finite numbers that are not negative, in order.
pub const INFINITY: u64 = 0x7FF0_0000_0000_0000;

/// The sign bit.
pub const SIGN: u64 = 0x8000_0000_0000_0000;

/// A double-precision number.
#[derive(Clone, Copy, Debug, PartialEq, Eq, Structural, Hash)]
pub struct Binary64 {
    pub bits: u64,
}

impl Binary64 {
    /// The number with the other sign.
    pub open spec fn flipped(self) -> Binary64 {
        Binary64 { bits: self.bits ^ 0x8000_0000_0000_0000 }
    }

    pub fn flip(self) -> (number: Binary64)
        ensures
            number == self.flipped(),
    {
        Binary64 { bits: self.bits ^ 0x8000_0000_0000_0000 }
    }
}


/// `numerator / denominator` rounded to a natural, ties to even.
pub open spec fn round_even(numerator: nat, denominator: nat) -> nat {
    let quotient = numerator / denominator;
    let remainder = numerator % denominator;
    if 2 * remainder < denominator {
        quotient
    } else if 2 * remainder > denominator {
        quotient + 1
    } else {
        quotient + quotient % 2
    }
}

/// How many low bits have to go until at most 53 are left.
pub open spec fn excess_bits(value: nat) -> nat
    decreases value,
{
    if value < 0x20_0000_0000_0000 {
        0
    } else {
        1 + excess_bits(value / 2)
    }
}

/// The encoding of the number nearest to `numerator / denominator`, as a
/// natural; encodings from `INFINITY` on stand for an overflow. The smallest
/// positive number is two to the power of -1074.
pub open spec fn nearest_encoding(numerator: nat, denominator: nat) -> nat {
    let scaled = numerator * pow2(1074);
    let excess = excess_bits(scaled / denominator);
    round_even(scaled, denominator * pow2(excess)) + excess * 0x10_0000_0000_0000
}

proof fn lemma_excess_bits(mantissa: nat, excess: nat, rest: nat)
    requires
        0x10_0000_0000_0000 <= mantissa < 0x20_0000_0000_0000,
        rest < pow2(excess),
    ensures
        excess_bits(mantissa * pow2(excess) + rest) == excess,
    decreases excess,
{
    lemma_pow2_pos(excess);
    if excess == 0 {
        lemma2_to64();
        assert(mantissa * pow2(0) == mantissa) by (nonlinear_arith)
            requires
                pow2(0) == 1,
        ;
    } else {
        let less = (excess - 1) as nat;
        lemma_pow2_unfold(excess);
        let value = mantissa * pow2(excess) + rest;
        let p = pow2(less);
        lemma_pow2_pos(less);
        assert(pow2(excess) == 2 * p);
        assert(mantissa * pow2(excess) == 2 * (mantissa * p)) by (nonlinear_arith)
            requires
                pow2(excess) == 2 * p,
        ;
        assert(value / 2 == mantissa * p + rest / 2);
        lemma_excess_bits(mantissa, less, rest / 2);
        assert(value >= 0x20_0000_0000_0000) by {
            assert(mantissa * p >= mantissa) by (nonlinear_arith)
                requires
                    p >= 1,
            ;
        }
    }
}

/// Rounding when quotient and remainder are known.
proof fn lemma_round_even(numerator: nat, denominator: nat, quotient: nat, remainder: nat)
    requires
        denominator > 0,
        numerator == quotient * denominator + remainder,
        remainder < denominator,
    ensures
        numerator / denominator == quotient,
        numerator % denominator == remainder,
{
    vstd::arithmetic::div_mod::lemma_fundamental_div_mod_converse(
        numerator as int,
        denominator as int,
        quotient as int,
        remainder as int,
    );
}

/// A quotient that is taken down bit by bit, highest first: 53 bits are kept
/// in `mantissa`, of the `excess` bits behind them the first is `half`, and
/// `sticky` tells whether any of the others is set.
struct Bits {
    mantissa: u64,
    excess: u128,
    half: bool,
    sticky: bool,
}

impl Bits {
    /// Whether the bits taken down so far make up `value`.
    spec fn holds(self, value: nat) -> bool {
        &&& self.mantissa < 0x20_0000_0000_0000
        &&& if self.excess == 0 {
            value == self.mantissa
        } else {
            &&& self.mantissa >= 0x10_0000_0000_0000
            &&& exists|rest: nat| self.rest_is(value, rest)
        }
    }

    spec fn rest_is(self, value: nat, rest: nat) -> bool {
        let below_half = pow2((self.excess - 1) as nat);
        &&& rest < below_half
        &&& self.sticky == (rest != 0)
        &&& value == self.mantissa * pow2(self.excess as nat) + (if self.half {
            below_half
        } else {
            0
        }) + rest
    }

    fn take(&mut self, bit: bool, Ghost(value): Ghost<nat>)
        requires
            old(self).holds(value),
            old(self).excess < u128::MAX,
        ensures
            final(self).holds(2 * value + (if bit {
                1nat
            } else {
                0
            })),
            final(self).excess <= old(self).excess + 1,
    {
        let ghost before = *self;
        let added: u64 = if bit {
            1
        } else {
            0
        };
        if self.mantissa < 0x10_0000_0000_0000 {
            self.mantissa = 2 * self.mantissa + added;
        } else if self.excess == 0 {
            self.excess = 1;
            self.half = bit;
            self.sticky = false;
            proof {
                lemma2_to64();
                assert(self.mantissa * pow2(1) == 2 * self.mantissa) by (nonlinear_arith)
                    requires
                        pow2(1) == 2,
                ;
                assert(self.rest_is(2 * value + added as nat, 0));
            }
        } else {
            proof {
                let rest = choose|rest: nat| before.rest_is(value, rest);
                let next = 2 * rest + added as nat;
                lemma_pow2_unfold(before.excess as nat);
                lemma_pow2_unfold((before.excess + 1) as nat);
                let m = before.mantissa as nat;
                let p = pow2(before.excess as nat);
                assert(m * (2 * p) == 2 * (m * p)) by (nonlinear_arith);
            }
            self.excess = self.excess + 1;
            self.sticky = self.sticky || bit;
            proof {
                let rest = choose|rest: nat| before.rest_is(value, rest);
                assert(self.rest_is(2 * value + added as nat, 2 * rest + added as nat));
            }
        }
    }
}

/// The denominators `d`, `2 d`, `4 d`, ... up to the first above `n`.
fn doublings(n: &Vec<u32>, d: &Vec<u32>) -> (steps: Vec<Vec<u32>>)
    requires
        natural(d@) > 0,
    ensures
        steps@.len() <= 32 * n@.len() + 2,
        forall|k: int|
            0 <= k < steps@.len() ==> natural(#[trigger] steps@[k]@) == natural(d@) * pow2(
                k as nat,
            ),
        natural(n@) < natural(d@) * pow2(steps@.len() as nat),
{
    let mut steps: Vec<Vec<u32>> = Vec::new();
    let mut current: Vec<u32> = copied(d);
    proof {
        lemma2_to64();
        assert(natural(d@) * pow2(0) == natural(d@)) by (nonlinear_arith)
            requires
                pow2(0) == 1,
        ;
    }
    while !below(n, &current)
        invariant
            natural(d@) > 0,
                natural(current@) == natural(d@) * pow2(steps@.len() as nat),
            steps@.len() <= 32 * n@.len() + 1,
            forall|k: int|
                0 <= k < steps@.len() ==> natural(#[trigger] steps@[k]@) == natural(d@) * pow2(
                    k as nat,
                ),
        decreases 32 * n@.len() + 2 - steps@.len(),
    {
        proof {
            crate::natural::lemma_natural_bits(n@);
            let count = steps@.len() as nat;
            lemma_pow2_pos(count);
            assert(natural(d@) * pow2(count) >= pow2(count)) by (nonlinear_arith)
                requires
                    natural(d@) > 0,
            ;
            if count >= 32 * n@.len() {
                if count > 32 * n@.len() {
                    lemma_pow2_strictly_increases((32 * n@.len()) as nat, count);
                }
                assert(false);
            }
            lemma_pow2_unfold(count + 1);
            assert(natural(d@) * pow2(count + 1) == natural(d@) * pow2(count) * 2 + 0)
                by (nonlinear_arith)
                requires
                    pow2(count + 1) == 2 * pow2(count),
            ;
        }
        let next: Vec<u32> = copied(&current);
        steps.push(next);
        multiply_add(&mut current, 2, 0);
    }
    steps
}

/// The encoding of the number nearest to `n / d`, unless that overflows.
pub fn nearest(n: Vec<u32>, d: &Vec<u32>) -> (encoding: Option<u64>)
    requires
        natural(d@) > 0,
    ensures
        encoding == (if nearest_encoding(natural(n@), natural(d@)) < INFINITY {
            Some(nearest_encoding(natural(n@), natural(d@)) as u64)
        } else {
            None
        }),
{
    let ghost top = natural(n@);
    let ghost den = natural(d@);
    let steps: Vec<Vec<u32>> = doublings(&n, d);
    let mut rest: Vec<u32> = n;
    let mut bits: Bits = Bits { mantissa: 0, excess: 0, half: false, sticky: false };
    let mut at: usize = steps.len();
    let ghost mut value: nat = 0;
    proof {
        assert(0 * (den * pow2(at as nat)) == 0) by (nonlinear_arith);
        assert(bits.holds(0));
    }
    while at > 0
        invariant
            at <= steps@.len() <= usize::MAX,
            bits.holds(value),
            bits.excess <= steps@.len() - at,
            den > 0,
            forall|k: int|
                0 <= k < steps@.len() ==> natural(#[trigger] steps@[k]@) == den * pow2(k as nat),
            natural(rest@) < den * pow2(at as nat),
            top == value * (den * pow2(at as nat)) + natural(rest@),
        decreases at,
    {
        at -= 1;
        proof {
            lemma_pow2_unfold((at + 1) as nat);
            let p = pow2(at as nat);
            assert(den * pow2((at + 1) as nat) == 2 * (den * p)) by (nonlinear_arith)
                requires
                    pow2((at + 1) as nat) == 2 * p,
            ;
            let v = value;
            let w = den * p;
            assert(v * (2 * w) == (2 * v) * w) by (nonlinear_arith);
            assert((2 * v + 1) * w == (2 * v) * w + w) by (nonlinear_arith);
        }
        let taken: bool = !below(&rest, &steps[at]);
        if taken {
            let step: Vec<u32> = trimmed(&steps[at], &rest);
            subtract(&mut rest, &step);
        }
        bits.take(taken, Ghost(value));
        proof {
            value = 2 * value + (if taken {
                1nat
            } else {
                0
            });
        }
    }
    proof {
        lemma2_to64();
        assert(den * pow2(0) == den) by (nonlinear_arith)
            requires
                pow2(0) == 1,
        ;
        assert(top * pow2(0) == top) by (nonlinear_arith)
            requires
                pow2(0) == 1,
        ;
    }
    let mut done: usize = 0;
    while done < 1074
        invariant
            done <= 1074,
            bits.holds(value),
            bits.excess <= usize::MAX + done,
            den > 0,
            den == natural(d@),
            natural(rest@) < den,
            top * pow2(done as nat) == value * den + natural(rest@),
        decreases 1074 - done,
    {
        proof {
            lemma_pow2_unfold((done + 1) as nat);
            let p = pow2(done as nat);
            let r = natural(rest@);
            assert(top * pow2((done + 1) as nat) == 2 * (top * p)) by (nonlinear_arith)
                requires
                    pow2((done + 1) as nat) == 2 * p,
            ;
            let v = value;
            assert((2 * v) * den == 2 * (v * den)) by (nonlinear_arith);
            assert((2 * v + 1) * den == 2 * (v * den) + den) by (nonlinear_arith);
        }
        multiply_add(&mut rest, 2, 0);
        let taken: bool = !below(&rest, d);
        if taken {
            let step: Vec<u32> = trimmed(d, &rest);
            subtract(&mut rest, &step);
        }
        bits.take(taken, Ghost(value));
        proof {
            value = 2 * value + (if taken {
                1nat
            } else {
                0
            });
        }
        done += 1;
    }
    let exact: bool = is_zero(&rest);
    let mut twice: Vec<u32> = copied(&rest);
    multiply_add(&mut twice, 2, 0);
    let above: bool = below(d, &twice);
    let at_least: bool = !below(&twice, d);
    let odd: bool = bits.mantissa % 2 == 1;
    let up: bool = if bits.excess == 0 {
        above || (at_least && odd)
    } else {
        bits.half && (bits.sticky || !exact || odd)
    };
    let ghost scaled = top * pow2(1074);
    let ghost r = natural(rest@);
    proof {
        lemma_round_even(scaled, den, value, r);
        lemma_nearest(top, den, bits, value, r, up);
    }
    if bits.excess >= 2047 {
        return None;
    }
    let rounded: u64 = if up {
        bits.mantissa + 1
    } else {
        bits.mantissa
    };
    let encoding: u64 = rounded + (bits.excess as u64) * 0x10_0000_0000_0000;
    if encoding < INFINITY {
        Some(encoding)
    } else {
        None
    }
}

/// The rounding decision that `nearest` takes is the right one.
proof fn lemma_nearest(top: nat, den: nat, bits: Bits, value: nat, r: nat, up: bool)
    requires
        den > 0,
        r < den,
        bits.holds(value),
        top * pow2(1074) == value * den + r,
        (top * pow2(1074)) / den == value,
        up == (if bits.excess == 0 {
            2 * r > den || (2 * r >= den && bits.mantissa % 2 == 1)
        } else {
            bits.half && (bits.sticky || r != 0 || bits.mantissa % 2 == 1)
        }),
    ensures
        nearest_encoding(top, den) == bits.mantissa + (if up {
            1int
        } else {
            0
        }) + bits.excess * 0x10_0000_0000_0000,
{
    let scaled = top * pow2(1074);
    let m = bits.mantissa as nat;
    if bits.excess == 0 {
        assert(excess_bits(value) == 0);
        lemma2_to64();
        assert(den * pow2(0) == den) by (nonlinear_arith)
            requires
                pow2(0) == 1,
        ;
        lemma_round_even(scaled, den, value, r);
    } else {
        let s = bits.excess as nat;
        let rest = choose|rest: nat| bits.rest_is(value, rest);
        let hp = pow2((s - 1) as nat);
        lemma_pow2_pos((s - 1) as nat);
        lemma_pow2_unfold(s);
        let tail = (if bits.half {
            hp
        } else {
            0
        }) + rest;
        assert(tail < pow2(s));
        lemma_excess_bits(m, s, tail);
        let d = den * pow2(s);
        let remainder = tail * den + r;
        assert(value * den + r == m * d + remainder) by (nonlinear_arith)
            requires
                value == m * pow2(s) + tail,
                d == den * pow2(s),
                remainder == tail * den + r,
        ;
        assert(remainder < d) by (nonlinear_arith)
            requires
                tail + 1 <= pow2(s),
                r < den,
                d == den * pow2(s),
                remainder == tail * den + r,
        ;
        lemma_round_even(scaled, d, m, remainder);
        let part = rest * den + r;
        assert(part < hp * den) by (nonlinear_arith)
            requires
                rest + 1 <= hp,
                r < den,
                part == rest * den + r,
        ;
        assert(d == 2 * (hp * den)) by (nonlinear_arith)
            requires
                d == den * pow2(s),
                pow2(s) == 2 * hp,
        ;
        if bits.half {
            assert(remainder == hp * den + part) by (nonlinear_arith)
                requires
                    tail == hp + rest,
                    remainder == tail * den + r,
                    part == rest * den + r,
            ;
            assert((part == 0) == (rest == 0 && r == 0)) by (nonlinear_arith)
                requires
                    part == rest * den + r,
                    den > 0,
            ;
        } else {
            assert(remainder == part);
        }
    }
}

/// The encoding nearest to `digits` times ten to the power of `exponent`.
pub open spec fn decimal_encoding(digits: nat, exponent: int) -> nat {
    if exponent >= 0 {
        nearest_encoding(digits * pow(10, exponent as nat) as nat, 1)
    } else {
        nearest_encoding(digits, pow(10, (-exponent) as nat) as nat)
    }
}

/// The value of a row of decimal digits.
pub open spec fn digits_value(digits: Seq<u8>) -> nat
    decreases digits.len(),
{
    if digits.len() == 0 {
        0
    } else {
        digits_value(digits.drop_last()) * 10 + digits.last() as nat
    }
}

pub proof fn lemma_digits_bound(digits: Seq<u8>)
    requires
        forall|i: int| 0 <= i < digits.len() ==> digits[i] < 10,
    ensures
        digits_value(digits) < pow(10, digits.len()),
    decreases digits.len(),
{
    reveal(pow);
    if digits.len() > 0 {
        lemma_digits_bound(digits.drop_last());
        assert(digits.last() < 10);
        assert(pow(10, digits.len()) == 10 * pow(10, (digits.len() - 1) as nat));
    }
}

proof fn lemma_excess_at_least(value: nat, count: nat)
    requires
        value >= pow2(52 + count),
    ensures
        excess_bits(value) >= count,
    decreases count,
{
    if count > 0 {
        lemma2_to64();
        lemma2_to64_rest();
        lemma_pow2_unfold(52 + count);
        if count > 1 {
            lemma_pow2_strictly_increases(53, 52 + count);
        }
        assert(pow2(53) == 0x20_0000_0000_0000);
        assert(value / 2 >= pow2((52 + (count - 1)) as nat));
        lemma_excess_at_least(value / 2, (count - 1) as nat);
    }
}

/// A thousand to the power of `count` is at least 512 to it.
pub proof fn lemma_thousands(count: nat)
    ensures
        pow(10, 3 * count) >= pow2(9 * count),
    decreases count,
{
    if count == 0 {
        lemma_pow0(10);
        lemma2_to64();
    } else {
        let less = (count - 1) as nat;
        lemma_thousands(less);
        lemma_pow_adds(10, 3, 3 * less);
        lemma_pow2_adds(9, 9 * less);
        lemma2_to64();
        assert(pow(10, 3) == 1000) by {
            reveal(pow);
            assert(pow(10, 1) == 10 * pow(10, 0));
            assert(pow(10, 2) == 10 * pow(10, 1));
            assert(pow(10, 3) == 10 * pow(10, 2));
        }
        let p = pow(10, 3 * less);
        let q = pow2(9 * less);
        lemma_pow2_pos(9 * less);
        assert(1000 * p >= 512 * q) by (nonlinear_arith)
            requires
                p >= q,
                q >= 0,
        ;
    }
}

/// A decimal whose exponent is 402 or more overflows, unless it is zero.
pub proof fn lemma_decimal_large(digits: nat, exponent: int)
    requires
        digits > 0,
        exponent >= 402,
    ensures
        decimal_encoding(digits, exponent) >= INFINITY,
{
    lemma_thousands(134);
    lemma_pow_increases(10, 402, exponent as nat);
    let p = pow(10, exponent as nat);
    let n = (digits * p) as nat;
    assert(digits * p >= p) by (nonlinear_arith)
        requires
            digits >= 1,
            p >= 0,
    ;
    lemma_pow2_adds(1206, 1074);
    let scaled = n * pow2(1074);
    lemma_pow2_pos(1074);
    assert(scaled >= pow2(1206) * pow2(1074)) by (nonlinear_arith)
        requires
            n >= pow2(1206),
            scaled == n * pow2(1074),
            pow2(1074) > 0,
    ;
    assert(scaled / 1 == scaled);
    lemma_excess_at_least(scaled, 2228);
}

/// A decimal with `count` digits whose exponent is below minus `count` and 402
/// rounds to zero; so does zero itself.
pub proof fn lemma_decimal_small(digits: nat, count: nat, exponent: int)
    requires
        digits == 0 || (digits < pow(10, count) && exponent <= -(count + 402)),
    ensures
        decimal_encoding(digits, exponent) == 0,
{
    lemma2_to64();
    lemma_pow2_pos(1074);
    if digits == 0 {
        if exponent >= 0 {
            lemma_pow_positive(10, exponent as nat);
            assert(0 * pow(10, exponent as nat) == 0) by (nonlinear_arith);
            lemma_zero(1);
        } else {
            lemma_pow_positive(10, (-exponent) as nat);
            lemma_zero(pow(10, (-exponent) as nat) as nat);
        }
    } else {
        let places = (-exponent) as nat;
        let den = pow(10, places) as nat;
        lemma_pow_positive(10, places);
        lemma_pow_increases(10, count + 402, places);
        lemma_pow_adds(10, count, 402);
        lemma_thousands(134);
        lemma_pow2_strictly_increases(1075, 1206);
        lemma_pow2_unfold(1075);
        let scaled = digits * pow2(1074);
        let small_pow = pow(10, count);
        let large_pow = pow(10, 402);
        assert(2 * scaled < small_pow * large_pow) by (nonlinear_arith)
            requires
                digits < small_pow,
                2 * pow2(1074) < large_pow,
                scaled == digits * pow2(1074),
                pow2(1074) > 0,
        ;
        lemma_round_even(scaled, den, 0, scaled);
        assert(den * pow2(0) == den) by (nonlinear_arith)
            requires
                pow2(0) == 1,
        ;
    }
}

proof fn lemma_zero(den: nat)
    requires
        den > 0,
    ensures
        nearest_encoding(0, den) == 0,
{
    lemma2_to64();
    assert(0 * pow2(1074) == 0) by (nonlinear_arith);
    lemma_round_even(0, den, 0, 0);
    assert(den * pow2(0) == den) by (nonlinear_arith)
        requires
            pow2(0) == 1,
    ;
}

/// Multiplies by ten `count` times.
fn shift_decimal(limbs: &mut Vec<u32>, count: u128)
    ensures
        natural(final(limbs)@) == natural(old(limbs)@) * pow(10, count as nat),
{
    let ghost before = natural(limbs@);
    let mut done: u128 = 0;
    proof {
        lemma_pow0(10);
    }
    while done < count
        invariant
            done <= count,
            natural(limbs@) == before * pow(10, done as nat),
        decreases count - done,
    {
        proof {
            reveal(pow);
            let p = pow(10, done as nat);
            assert(pow(10, (done + 1) as nat) == 10 * p);
            assert(before * (10 * p) == (before * p) * 10 + 0) by (nonlinear_arith);
        }
        multiply_add(limbs, 10, 0);
        done += 1;
    }
}

/// The encoding nearest to the digits times ten to the power of `exponent`,
/// unless that overflows.
pub fn nearest_decimal(digits: &Vec<u8>, exponent: i128) -> (encoding: Option<u64>)
    requires
        forall|i: int| 0 <= i < digits@.len() ==> digits@[i] < 10,
        -0x100_0000_0000_0000_0000_0000_0000 < exponent < 0x100_0000_0000_0000_0000_0000_0000,
    ensures
        encoding == (if decimal_encoding(digits_value(digits@), exponent as int) < INFINITY {
            Some(decimal_encoding(digits_value(digits@), exponent as int) as u64)
        } else {
            None
        }),
{
    let mut top: Vec<u32> = Vec::new();
    let mut at: usize = 0;
    while at < digits.len()
        invariant
            at <= digits@.len(),
            forall|i: int| 0 <= i < digits@.len() ==> digits@[i] < 10,
            natural(top@) == digits_value(digits@.take(at as int)),
        decreases digits@.len() - at,
    {
        multiply_add(&mut top, 10, digits[at] as u32);
        proof {
            assert(digits@.take(at + 1).drop_last() =~= digits@.take(at as int));
        }
        at += 1;
    }
    proof {
        assert(digits@.take(at as int) =~= digits@);
        lemma_digits_bound(digits@);
    }
    let ghost value = digits_value(digits@);
    if is_zero(&top) {
        proof {
            lemma_decimal_small(value, digits@.len(), exponent as int);
        }
        return Some(0);
    }
    if exponent >= 402 {
        proof {
            lemma_decimal_large(value, exponent as int);
        }
        return None;
    }
    if exponent <= -(digits.len() as i128 + 402) {
        proof {
            lemma_decimal_small(value, digits@.len(), exponent as int);
        }
        return Some(0);
    }
    let mut den: Vec<u32> = small(1);
    if exponent >= 0 {
        shift_decimal(&mut top, exponent as u128);
        proof {
            lemma_pow_positive(10, exponent as nat);
        }
    } else {
        shift_decimal(&mut den, (-exponent) as u128);
        proof {
            lemma_pow_positive(10, (-exponent) as nat);
            let p = pow(10, (-exponent) as nat);
            assert(natural(den@) == p) by (nonlinear_arith)
                requires
                    natural(den@) == 1 * p,
            ;
        }
    }
    nearest(top, &den)
}

/// `step` without limbs that it has no need for, so that it is no longer than
/// `rest`.
fn trimmed(step: &Vec<u32>, rest: &Vec<u32>) -> (short: Vec<u32>)
    requires
        natural(step@) <= natural(rest@),
    ensures
        natural(short@) == natural(step@),
        short@.len() <= rest@.len(),
{
    let mut short: Vec<u32> = copied(step);
    while short.len() > rest.len()
        invariant
            natural(short@) == natural(step@),
            natural(step@) <= natural(rest@),
        decreases short.len(),
    {
        proof {
            crate::natural::lemma_natural_trim(short@, rest@);
        }
        short.pop();
    }
    short
}

} // verus!
