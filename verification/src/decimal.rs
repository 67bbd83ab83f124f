//! Double-precision numbers as decimal text.

use vstd::arithmetic::div_mod::*;
use vstd::arithmetic::power::*;
use vstd::arithmetic::power2::*;
use vstd::prelude::*;
use vstd::string::*;

use crate::binary64::{lemma_thousands, Binary64, SIGN};
use crate::natural::{
    add_to, below, copied, multiply_add, multiply_power, natural, pad, small, subtract,
};
use crate::text::{chars_of, decimal, decimal_text, text_between};

verus! {

/// How the coarsest grid of decimals is laid: steps of ten to this power.
pub const COARSEST: usize = 402;

/// No number needs a finer grid than this many steps below the coarsest one.
pub const FINEST: usize = 2000;

/// The leading one that encodings of normal numbers leave out.
pub const HIDDEN: u64 = 0x10_0000_0000_0000;

impl Binary64 {
    pub open spec fn negative(self) -> bool {
        self.bits >= SIGN
    }

    /// The encoding without the sign.
    pub open spec fn magnitude(self) -> u64 {
        if self.bits >= SIGN {
            (self.bits - SIGN) as u64
        } else {
            self.bits
        }
    }

    pub open spec fn field(self) -> nat {
        (self.magnitude() / HIDDEN) as nat
    }

    pub open spec fn fraction(self) -> nat {
        (self.magnitude() % HIDDEN) as nat
    }

    pub open spec fn mantissa(self) -> nat {
        if self.field() == 0 {
            self.fraction()
        } else {
            self.fraction() + HIDDEN as nat
        }
    }

    pub open spec fn shift(self) -> nat {
        if self.field() == 0 {
            0
        } else {
            (self.field() - 1) as nat
        }
    }

    /// The magnitude of a finite number, counted in units of two to the power
    /// of -1074.
    pub open spec fn numerator(self) -> nat {
        self.mantissa() * pow(2, self.shift()) as nat
    }
}

/// A number, its distances to the neighbours on whose side it stops being the
/// nearest one, and the step of the coarsest grid of decimals, all in one unit.
pub struct Grid {
    pub number: nat,
    pub below: nat,
    pub above: nat,
    pub step: nat,
    pub closed: bool,
}

impl Grid {
    /// The number of whole steps in the number, `finer` places below the
    /// coarsest grid.
    pub open spec fn quotient(self, finer: nat) -> nat {
        (self.number * pow(10, finer) as nat) / self.step
    }

    pub open spec fn remainder(self, finer: nat) -> nat {
        (self.number * pow(10, finer) as nat) % self.step
    }

    /// Whether the next lower point of the grid stands for the number.
    pub open spec fn down(self, finer: nat) -> bool {
        let edge = self.below * pow(10, finer) as nat;
        if self.closed {
            self.remainder(finer) <= edge
        } else {
            self.remainder(finer) < edge
        }
    }

    /// Whether the next higher point of the grid stands for the number.
    pub open spec fn up(self, finer: nat) -> bool {
        let edge = self.remainder(finer) + self.above * pow(10, finer) as nat;
        if self.closed {
            self.step <= edge
        } else {
            self.step < edge
        }
    }

    /// The coarsest grid with a point that stands for the number.
    pub open spec fn coarsest(self, finer: nat) -> nat
        decreases FINEST - finer,
    {
        if finer >= FINEST || self.down(finer) || self.up(finer) {
            finer
        } else {
            self.coarsest(finer + 1)
        }
    }

    /// The point of the grid that is nearest to the number.
    pub open spec fn point(self, finer: nat) -> nat {
        if self.up(finer) && (!self.down(finer) || 2 * self.remainder(finer) >= self.step) {
            self.quotient(finer) + 1
        } else {
            self.quotient(finer)
        }
    }
}

impl Binary64 {
    pub open spec fn grid(self) -> Grid {
        let unit = pow(2, self.shift()) as nat;
        Grid {
            number: 4 * self.mantissa() * unit,
            below: if self.fraction() == 0 && self.field() > 1 {
                unit
            } else {
                2 * unit
            },
            above: 2 * unit,
            step: pow(2, 1076) as nat * pow(10, COARSEST as nat) as nat,
            closed: self.mantissa() % 2 == 0,
        }
    }
}

pub open spec fn zeros(count: int) -> Seq<char> {
    Seq::new(count as nat, |i: int| '0')
}

/// The numeral `digits` times ten to the power of `exponent`, written out.
pub open spec fn placed(digits: Seq<char>, exponent: int) -> Seq<char> {
    let split = digits.len() + exponent;
    if exponent >= 0 {
        digits + zeros(exponent)
    } else if split > 0 {
        digits.subrange(0, split) + seq!['.'] + digits.subrange(split, digits.len() as int)
    } else {
        seq!['0', '.'] + zeros(-split) + digits
    }
}

impl Binary64 {
    /// The shortest decimal numeral that no other number is nearer to.
    pub open spec fn text(self) -> Seq<char> {
        let sign = if self.negative() {
            seq!['-']
        } else {
            Seq::empty()
        };
        if self.field() >= 2047 {
            if self.fraction() == 0 {
                sign + seq!['i', 'n', 'f']
            } else {
                seq!['N', 'a', 'N']
            }
        } else if self.magnitude() == 0 {
            sign + seq!['0']
        } else {
            let finer = self.grid().coarsest(0);
            sign + placed(decimal(self.grid().point(finer)), COARSEST - finer)
        }
    }
}

proof fn lemma_finer(grid: Grid, finer: nat)
    requires
        grid.step > 0,
    ensures
        grid.quotient(finer + 1) == 10 * grid.quotient(finer) + (10 * grid.remainder(finer))
            / grid.step,
        grid.remainder(finer + 1) == (10 * grid.remainder(finer)) % grid.step,
{
    reveal(pow);
    lemma_pow_positive(10, finer);
    lemma_pow_positive(10, finer + 1);
    let p = pow(10, finer);
    let n = grid.number as int;
    let d = grid.step as int;
    assert(pow(10, finer + 1) == 10 * p);
    let whole = n * p;
    assert(n * (10 * p) == 10 * whole) by (nonlinear_arith)
        requires
            whole == n * p,
    ;
    let q = whole / d;
    let r = whole % d;
    lemma_fundamental_div_mod(whole, d);
    let x = (10 * r) / d;
    let y = (10 * r) % d;
    lemma_fundamental_div_mod(10 * r, d);
    assert(10 * whole == (10 * q + x) * d + y) by (nonlinear_arith)
        requires
            whole == d * q + r,
            10 * r == d * x + y,
    ;
    lemma_fundamental_div_mod_converse(10 * whole, d, 10 * q + x, y);
}

proof fn lemma_tens(value: nat, finer: nat)
    ensures
        value * pow(10, finer + 1) as nat == (value * pow(10, finer) as nat) * 10,
        pow(10, finer) > 0,
{
    reveal(pow);
    lemma_pow_positive(10, finer);
    let p = pow(10, finer);
    let v = value as int;
    assert(pow(10, finer + 1) == 10 * p);
    assert(v * (10 * p) == (v * p) * 10) by (nonlinear_arith);
}

/// Before a grid has a point for the number, few steps fit in the number.
proof fn lemma_few_steps(grid: Grid, finer: nat)
    requires
        grid.step > 0,
        grid.number <= 0x80_0000_0000_0000 * grid.below,
        !grid.down(finer),
    ensures
        grid.quotient(finer) < 0x80_0000_0000_0000,
{
    lemma_pow_positive(10, finer);
    let p = pow(10, finer);
    let n = grid.number as int;
    let b = grid.below as int;
    let d = grid.step as int;
    let bound: int = 0x80_0000_0000_0000;
    lemma_fundamental_div_mod(n * p, d);
    lemma_mod_bound(n * p, d);
    assert(b * p < d);
    assert(n * p < bound * d) by (nonlinear_arith)
        requires
            n <= bound * b,
            b * p < d,
            p > 0,
            bound == 0x80_0000_0000_0000,
    ;
    let q = (n * p) / d;
    if q >= bound {
        assert(d * q >= bound * d) by (nonlinear_arith)
            requires
                q >= bound,
                d > 0,
        ;
    }
}

proof fn lemma_grid(number: Binary64)
    requires
        number.field() < 2047,
    ensures
        number.grid().number < number.grid().step,
        number.grid().number <= 0x80_0000_0000_0000 * number.grid().below,
        number.grid().step > 0,
{
    let shift = number.shift();
    let m = number.mantissa() as int;
    let unit = pow(2, shift);
    lemma_pow_positive(2, shift);
    lemma_pow2(shift);
    lemma_pow2(1076);
    lemma2_to64();
    assert(m < 0x20_0000_0000_0000);
    let top = pow2(2045) as int;
    if shift < 2045 {
        lemma_pow2_strictly_increases(shift, 2045);
    }
    assert(unit <= top);
    lemma_thousands(134);
    lemma_pow2_pos(1076);
    lemma_pow2_pos(2045);
    lemma_pow2_adds(1076, 1206);
    lemma_pow2_adds(2045, 237);
    lemma_pow2_strictly_increases(56, 237);
    lemma_pow2_adds(1, 55);
    let wide = pow2(1076) as int;
    let tens = pow(10, 402);
    let more = pow2(237) as int;
    lemma_pow2_adds(28, 28);
    assert(more > 0x100_0000_0000_0000) by {
        assert(pow2(56) == pow2(28) * pow2(28));
        assert(pow2(28) == 0x1000_0000);
    }
    assert(4 * m * unit <= 0x80_0000_0000_0000 * top) by (nonlinear_arith)
        requires
            m < 0x20_0000_0000_0000,
            0 < unit <= top,
            m >= 0,
    ;
    assert(top * more <= wide * tens) by (nonlinear_arith)
        requires
            top * more == wide * pow2(1206),
            tens >= pow2(1206),
            wide > 0,
    ;
    assert(0x80_0000_0000_0000 * top < top * more) by (nonlinear_arith)
        requires
            more > 0x100_0000_0000_0000,
            top > 0,
    ;
    assert(4 * m * unit <= 0x80_0000_0000_0000 * unit) by (nonlinear_arith)
        requires
            m < 0x20_0000_0000_0000,
            unit > 0,
            m >= 0,
    ;
}

impl Binary64 {
    fn parts(self) -> (parts: (bool, u64, usize, bool))
        ensures
            parts.0 == self.negative(),
            parts.1 == self.mantissa(),
            parts.2 == self.shift(),
            parts.3 == (self.fraction() == 0 && self.field() > 1),
            self.mantissa() < 0x20_0000_0000_0000,
            self.shift() <= 2046,
    {
        let negative: bool = self.bits >= SIGN;
        let magnitude: u64 = if negative {
            self.bits - SIGN
        } else {
            self.bits
        };
        let field: u64 = magnitude / HIDDEN;
        let fraction: u64 = magnitude % HIDDEN;
        if field == 0 {
            (negative, fraction, 0, false)
        } else {
            (negative, fraction + HIDDEN, (field - 1) as usize, fraction == 0 && field > 1)
        }
    }

    /// The number in units of two to the power of -1074.
    pub fn numerator_limbs(self) -> (limbs: Vec<u32>)
        ensures
            natural(limbs@) == self.numerator(),
    {
        let parts: (bool, u64, usize, bool) = self.parts();
        let mut limbs: Vec<u32> = small(parts.1);
        multiply_power(&mut limbs, 2, parts.2);
        proof {
            lemma_pow_positive(2, self.shift());
        }
        limbs
    }

    /// The digits of the shortest numeral and how fine a grid they need.
    fn shortest(self) -> (found: (u128, usize))
        requires
            self.field() < 2047,
        ensures
            found.1 == self.grid().coarsest(0),
            found.0 == self.grid().point(found.1 as nat),
            found.1 <= FINEST,
    {
        let ghost grid = self.grid();
        proof {
            lemma_grid(self);
            lemma_pow_positive(2, self.shift());
            lemma_pow_positive(2, 1076);
            lemma_pow_positive(10, 402);
            lemma_pow0(10);
        }
        let parts: (bool, u64, usize, bool) = self.parts();
        let closed: bool = parts.1 % 2 == 0;
        let mut rest: Vec<u32> = small(4 * parts.1);
        multiply_power(&mut rest, 2, parts.2);
        let mut lower: Vec<u32> = small(
            if parts.3 {
                1
            } else {
                2
            },
        );
        multiply_power(&mut lower, 2, parts.2);
        let mut upper: Vec<u32> = small(2);
        multiply_power(&mut upper, 2, parts.2);
        let mut step: Vec<u32> = small(1);
        multiply_power(&mut step, 2, 1076);
        multiply_power(&mut step, 10, COARSEST);
        pad(&mut rest, step.len());
        let mut quotient: u128 = 0;
        let mut finer: usize = 0;
        proof {
            let unit = pow(2, self.shift());
            assert(1 * unit == unit) by (nonlinear_arith);
            assert(1 * pow(2, 1076) == pow(2, 1076)) by (nonlinear_arith);
            assert(natural(rest@) == grid.number);
            assert(natural(lower@) == grid.below);
            assert(natural(upper@) == grid.above);
            assert(natural(step@) == grid.step);
            let n = grid.number as int;
            assert(n * 1 == n) by (nonlinear_arith);
            assert(grid.below * 1 == grid.below) by (nonlinear_arith);
            assert(grid.above * 1 == grid.above) by (nonlinear_arith);
            lemma_small_mod(grid.number, grid.step);
            lemma_fundamental_div_mod_converse(n, grid.step as int, 0, n);
        }
        loop
            invariant
                grid == self.grid(),
                grid.step > 0,
                grid.number <= 0x80_0000_0000_0000 * grid.below,
                closed == grid.closed,
                natural(rest@) == grid.remainder(finer as nat),
                quotient == grid.quotient(finer as nat),
                quotient < 0x1000_0000_0000_0000,
                natural(lower@) == grid.below * pow(10, finer as nat) as nat,
                natural(upper@) == grid.above * pow(10, finer as nat) as nat,
                natural(step@) == grid.step,
                rest@.len() >= step@.len(),
                finer <= FINEST,
                grid.coarsest(0) == grid.coarsest(finer as nat),
            decreases FINEST - finer,
        {
            let mut sum: Vec<u32> = copied(&rest);
            add_to(&mut sum, &upper);
            let down: bool = if closed {
                !below(&lower, &rest)
            } else {
                below(&rest, &lower)
            };
            let up: bool = if closed {
                !below(&sum, &step)
            } else {
                below(&step, &sum)
            };
            if finer >= FINEST || down || up {
                let mut twice: Vec<u32> = copied(&rest);
                add_to(&mut twice, &rest);
                if up && (!down || !below(&twice, &step)) {
                    return (quotient + 1, finer);
                }
                return (quotient, finer);
            }
            proof {
                lemma_few_steps(grid, finer as nat);
                lemma_finer(grid, finer as nat);
                lemma_tens(grid.below, finer as nat);
                lemma_tens(grid.above, finer as nat);
            }
            let ghost ten = 10 * grid.remainder(finer as nat);
            multiply_add(&mut rest, 10, 0);
            multiply_add(&mut lower, 10, 0);
            multiply_add(&mut upper, 10, 0);
            let mut digit: u128 = 0;
            proof {
                lemma_mod_bound(
                    (grid.number * pow(10, finer as nat) as nat) as int,
                    grid.step as int,
                );
            }
            while !below(&rest, &step)
                invariant
                    natural(step@) == grid.step,
                    grid.step > 0,
                    rest@.len() >= step@.len(),
                    ten < 10 * grid.step,
                    digit <= 9,
                    ten == digit * grid.step + natural(rest@),
                decreases natural(rest@),
            {
                subtract(&mut rest, &step);
                proof {
                    let d = grid.step as int;
                    let k = digit as int;
                    let r = natural(rest@) as int;
                    assert((k + 1) * d == k * d + d) by (nonlinear_arith);
                    if k >= 9 {
                        assert((k + 1) * d >= 10 * d) by (nonlinear_arith)
                            requires
                                k >= 9,
                                d > 0,
                        ;
                    }
                }
                digit = digit + 1;
            }
            proof {
                lemma_fundamental_div_mod_converse(
                    ten as int,
                    grid.step as int,
                    digit as int,
                    natural(rest@) as int,
                );
            }
            quotient = quotient * 10 + digit;
            finer += 1;
        }
    }

    /// The shortest decimal numeral of the number.
    pub fn to_text(self) -> (text: String)
        ensures
            text@ == self.text(),
    {
        let negative: bool = self.bits >= SIGN;
        let magnitude: u64 = if negative {
            self.bits - SIGN
        } else {
            self.bits
        };
        let mut text: String = String::new();
        if magnitude / HIDDEN >= 2047 && magnitude % HIDDEN != 0 {
            text.push('N');
            text.push('a');
            text.push('N');
            proof {
                assert(text@ =~= seq!['N', 'a', 'N']);
            }
            return text;
        }
        if negative {
            text.push('-');
        }
        let ghost sign = text@;
        proof {
            assert(sign =~= (if self.negative() {
                seq!['-']
            } else {
                Seq::empty()
            }));
        }
        if magnitude / HIDDEN >= 2047 {
            text.push('i');
            text.push('n');
            text.push('f');
            proof {
                assert(text@ =~= sign + seq!['i', 'n', 'f']);
            }
            return text;
        }
        if magnitude == 0 {
            text.push('0');
            proof {
                assert(text@ =~= sign + seq!['0']);
            }
            return text;
        }
        let found: (u128, usize) = self.shortest();
        let digits: String = decimal_text(found.0);
        push_placed(&mut text, &digits, found.1);
        text
    }
}

fn push_zeros(text: &mut String, count: usize)
    ensures
        final(text)@ == old(text)@ + zeros(count as int),
{
    let mut done: usize = 0;
    proof {
        assert(text@ =~= old(text)@ + zeros(0));
    }
    while done < count
        invariant
            done <= count,
            text@ == old(text)@ + zeros(done as int),
        decreases count - done,
    {
        text.push('0');
        done += 1;
        proof {
            assert(text@ =~= old(text)@ + zeros(done as int));
        }
    }
}

/// Writes the numeral behind `text`, `finer` places below the coarsest grid.
fn push_placed(text: &mut String, digits: &String, finer: usize)
    requires
        finer <= FINEST,
    ensures
        final(text)@ == old(text)@ + placed(digits@, COARSEST - finer),
{
    let chars: Vec<char> = chars_of(digits.as_str());
    let count: usize = chars.len();
    if finer <= COARSEST {
        text.append(digits.as_str());
        push_zeros(text, COARSEST - finer);
        proof {
            assert(text@ =~= old(text)@ + placed(digits@, COARSEST - finer));
        }
    } else {
        let places: usize = finer - COARSEST;
        if count > places {
            let split: usize = count - places;
            text.append(text_between(&chars, 0, split).as_str());
            text.push('.');
            text.append(text_between(&chars, split, count).as_str());
            proof {
                assert(text@ =~= old(text)@ + placed(digits@, COARSEST - finer));
            }
        } else {
            text.push('0');
            text.push('.');
            push_zeros(text, places - count);
            text.append(digits.as_str());
            proof {
                assert(text@ =~= old(text)@ + placed(digits@, COARSEST - finer));
            }
        }
    }
}

} // verus!
