//! Arithmetic on double-precision numbers, and how they are shown.

use vstd::arithmetic::power::*;
use vstd::arithmetic::power2::*;
use vstd::prelude::*;
use vstd::string::*;

use crate::binary64::{nearest, nearest_encoding, round_even, Binary64, INFINITY, SIGN};
use crate::decimal::HIDDEN;
use crate::duration::Duration;
use crate::natural::{add_to, copied, divide, is_zero, multiply_add, multiply_power, natural, small};
use crate::text::{decimal, decimal_text, digit_text, no_text};

verus! {

/// The encoding of a number that is none.
pub const NOT_A_NUMBER: u64 = 0x7FF8_0000_0000_0000;

/// The number nearest to a fraction, or infinity where that overflows.
pub open spec fn nearest_to(numerator: nat, denominator: nat) -> Binary64 {
    let encoding = nearest_encoding(numerator, denominator);
    Binary64 {
        bits: if encoding < INFINITY {
            encoding as u64
        } else {
            INFINITY
        },
    }
}

fn nearest_number(numerator: Vec<u32>, denominator: &Vec<u32>) -> (number: Binary64)
    requires
        natural(denominator@) > 0,
    ensures
        number == nearest_to(natural(numerator@), natural(denominator@)),
{
    match nearest(numerator, denominator) {
        Some(bits) => Binary64 { bits },
        None => Binary64 { bits: INFINITY },
    }
}

/// The unit in which numerators count.
fn unit() -> (limbs: Vec<u32>)
    ensures
        natural(limbs@) == pow2(1074),
        pow2(1074) > 0,
{
    let mut limbs: Vec<u32> = small(1);
    multiply_power(&mut limbs, 2, 1074);
    proof {
        lemma_pow2(1074);
        lemma_pow2_pos(1074);
        assert(1 * pow(2, 1074) == pow(2, 1074)) by (nonlinear_arith);
    }
    limbs
}

/// The limbs of a number.
fn wide(value: u128) -> (limbs: Vec<u32>)
    ensures
        natural(limbs@) == value,
{
    let mut limbs: Vec<u32> = small((value / 0x1_0000_0000_0000_0000) as u64);
    multiply_power(&mut limbs, 2, 64);
    let rest: Vec<u32> = small((value % 0x1_0000_0000_0000_0000) as u64);
    add_to(&mut limbs, &rest);
    proof {
        lemma_pow2(64);
        lemma2_to64();
    }
    limbs
}

/// One count divided by another.
pub open spec fn ratio(dividend: u32, divisor: u32) -> Binary64 {
    nearest_to(dividend as nat, divisor as nat)
}

pub fn ratio_of(dividend: u32, divisor: u32) -> (number: Binary64)
    requires
        divisor > 0,
    ensures
        number == ratio(dividend, divisor),
{
    let below: Vec<u32> = small(divisor as u64);
    nearest_number(small(dividend as u64), &below)
}

/// A whole number.
pub open spec fn whole(value: int) -> Binary64 {
    if value >= 0 {
        nearest_to(value as nat, 1)
    } else {
        Binary64 { bits: (SIGN + nearest_to((-value) as nat, 1).bits) as u64 }
    }
}

pub fn whole_number(value: i64) -> (number: Binary64)
    ensures
        number == whole(value as int),
{
    let one: Vec<u32> = small(1);
    if value >= 0 {
        nearest_number(small(value as u64), &one)
    } else {
        let size: u64 = (-(value as i128)) as u64;
        let magnitude: Binary64 = nearest_number(small(size), &one);
        proof {
            assert(magnitude.bits <= INFINITY);
        }
        Binary64 { bits: SIGN + magnitude.bits }
    }
}

/// A span in seconds: its whole seconds and the rest, rounded and then added.
pub open spec fn seconds(duration: Duration) -> Binary64 {
    let count = nearest_to((duration.nanos / 1_000_000_000) as nat, 1);
    let rest = nearest_to((duration.nanos % 1_000_000_000) as nat, 1_000_000_000);
    nearest_to(count.numerator() + rest.numerator(), pow2(1074))
}

pub fn seconds_of(duration: Duration) -> (number: Binary64)
    ensures
        number == seconds(duration),
{
    let one: Vec<u32> = small(1);
    let billion: Vec<u32> = small(1_000_000_000);
    let count: Binary64 = nearest_number(wide(duration.nanos / 1_000_000_000), &one);
    let rest: Binary64 = nearest_number(wide(duration.nanos % 1_000_000_000), &billion);
    let mut sum: Vec<u32> = count.numerator_limbs();
    let added: Vec<u32> = rest.numerator_limbs();
    add_to(&mut sum, &added);
    nearest_number(sum, &unit())
}

/// A number that is not negative, times a count.
pub open spec fn scaled(number: Binary64, factor: u32) -> Binary64 {
    nearest_to(number.numerator() * factor as nat, pow2(1074))
}

pub fn scale(number: Binary64, factor: u32) -> (product: Binary64)
    ensures
        product == scaled(number, factor),
{
    let mut limbs: Vec<u32> = number.numerator_limbs();
    multiply_add(&mut limbs, factor, 0);
    nearest_number(limbs, &unit())
}

/// A number divided by a finite one that is not negative.
pub open spec fn quotient(dividend: Binary64, divisor: Binary64) -> Binary64 {
    let sign: nat = if dividend.negative() {
        SIGN as nat
    } else {
        0
    };
    if dividend.field() == 2047 {
        if dividend.fraction() == 0 {
            dividend
        } else {
            Binary64 { bits: NOT_A_NUMBER }
        }
    } else if divisor.numerator() == 0 {
        if dividend.numerator() == 0 {
            Binary64 { bits: NOT_A_NUMBER }
        } else {
            Binary64 { bits: (sign + INFINITY) as u64 }
        }
    } else {
        Binary64 {
            bits: (sign + nearest_to(dividend.numerator(), divisor.numerator()).bits) as u64,
        }
    }
}

pub fn quotient_of(dividend: Binary64, divisor: Binary64) -> (number: Binary64)
    ensures
        number == quotient(dividend, divisor),
{
    let sign: u64 = if dividend.bits >= SIGN {
        SIGN
    } else {
        0
    };
    let magnitude: u64 = dividend.bits - sign;
    if magnitude / HIDDEN == 2047 {
        return if magnitude % HIDDEN == 0 {
            dividend
        } else {
            Binary64 { bits: NOT_A_NUMBER }
        };
    }
    let above: Vec<u32> = dividend.numerator_limbs();
    let below: Vec<u32> = divisor.numerator_limbs();
    if is_zero(&below) {
        return if is_zero(&above) {
            Binary64 { bits: NOT_A_NUMBER }
        } else {
            Binary64 { bits: sign + INFINITY }
        };
    }
    let number: Binary64 = nearest_number(above, &below);
    proof {
        assert(number.bits <= INFINITY);
    }
    Binary64 { bits: sign + number.bits }
}

// ---------------------------------------------------------------------------
// Numerals

/// The text with zeros in front of it, up to a length.
pub open spec fn zero_filled(digits: Seq<char>, length: int) -> Seq<char> {
    if digits.len() >= length {
        digits
    } else {
        Seq::new((length - digits.len()) as nat, |i: int| '0') + digits
    }
}

/// Digits with a point in front of the last `places`.
pub open spec fn pointed(digits: Seq<char>, places: int) -> Seq<char> {
    let at = digits.len() - places;
    digits.take(at) + "."@ + digits.skip(at)
}

/// A number with so many digits behind the point.
pub open spec fn fixed(number: Binary64, places: nat) -> Seq<char> {
    let sign = if number.negative() {
        "-"@
    } else {
        ""@
    };
    if number.field() == 2047 {
        if number.fraction() == 0 {
            sign + "inf"@
        } else {
            "NaN"@
        }
    } else {
        let steps = round_even(number.numerator() * pow(10, places) as nat, pow2(1074));
        sign + pointed(zero_filled(decimal(steps), (places + 1) as int), places as int)
    }
}

/// Halves the number `count` times and tells whether anything was lost.
fn shift_down(limbs: &mut Vec<u32>, count: usize) -> (lost: bool)
    ensures
        natural(final(limbs)@) == natural(old(limbs)@) / pow2(count as nat),
        lost == (natural(old(limbs)@) % pow2(count as nat) != 0),
{
    let ghost start = natural(limbs@) as int;
    let mut lost: bool = false;
    let mut done: usize = 0;
    proof {
        lemma2_to64();
    }
    while done < count
        invariant
            done <= count,
            natural(limbs@) == start / pow2(done as nat) as int,
            lost == (start % pow2(done as nat) as int != 0),
            start >= 0,
        decreases count - done,
    {
        let ghost held = natural(limbs@) as int;
        let bit: u32 = divide(limbs, 2);
        lost = lost || bit != 0;
        proof {
            let p = pow2(done as nat) as int;
            lemma_pow2_pos(done as nat);
            lemma_pow2_unfold((done + 1) as nat);
            let r = start % p;
            vstd::arithmetic::div_mod::lemma_fundamental_div_mod(start, p);
            let h = natural(limbs@) as int;
            let b = bit as int;
            assert(held == 2 * h + b);
            let r2 = b * p + r;
            assert(start == h * (2 * p) + r2) by (nonlinear_arith)
                requires
                    start == p * held + r,
                    held == 2 * h + b,
                    r2 == b * p + r,
            ;
            assert(0 <= r2 < 2 * p && (r2 != 0 <==> (b != 0 || r != 0))) by (nonlinear_arith)
                requires
                    r2 == b * p + r,
                    0 <= b <= 1,
                    0 <= r < p,
            ;
            vstd::arithmetic::div_mod::lemma_fundamental_div_mod_converse(start, 2 * p, h, r2);
        }
        done += 1;
    }
    lost
}

/// Divides by the unit of numerators, rounding ties to even.
fn round_steps(limbs: Vec<u32>) -> (steps: Vec<u32>)
    ensures
        natural(steps@) == round_even(natural(limbs@), pow2(1074)),
{
    let ghost start = natural(limbs@) as int;
    let mut steps: Vec<u32> = limbs;
    let lost: bool = shift_down(&mut steps, 1073);
    let ghost held = natural(steps@) as int;
    let half: u32 = divide(&mut steps, 2);
    let mut copy: Vec<u32> = copied(&steps);
    let odd: u32 = divide(&mut copy, 2);
    let ghost q = natural(steps@) as int;
    proof {
        let p = pow2(1073) as int;
        lemma_pow2_pos(1073);
        lemma_pow2_unfold(1074);
        let r = start % p;
        vstd::arithmetic::div_mod::lemma_fundamental_div_mod(start, p);
        let h = half as int;
        let rest = h * p + r;
        assert(start == q * (2 * p) + rest) by (nonlinear_arith)
            requires
                start == p * held + r,
                held == 2 * q + h,
                rest == h * p + r,
        ;
        assert(0 <= rest < 2 * p && (h == 0 ==> rest == r) && (h == 1 ==> rest == p + r))
            by (nonlinear_arith)
            requires
                rest == h * p + r,
                0 <= h <= 1,
                0 <= r < p,
        ;
        vstd::arithmetic::div_mod::lemma_fundamental_div_mod_converse(start, 2 * p, q, rest);
    }
    if half == 1 && (lost || odd == 1) {
        multiply_add(&mut steps, 1, 1);
        proof {
            assert(q * 1 == q) by (nonlinear_arith);
        }
    }
    steps
}

/// The decimal digits of a number.
fn digits_of(limbs: Vec<u32>) -> (text: String)
    ensures
        text@ == decimal(natural(limbs@)),
    decreases natural(limbs@),
{
    let ghost value = natural(limbs@);
    let mut rest: Vec<u32> = limbs;
    let digit: u32 = divide(&mut rest, 10);
    let c: char = digit_text(digit as u8);
    if is_zero(&rest) {
        let mut text: String = no_text();
        text.push(c);
        proof {
            assert(text@ =~= seq![c]);
        }
        text
    } else {
        let mut text: String = digits_of(rest);
        text.push(c);
        text
    }
}

/// Puts zeros in front and a point in between.
fn with_point(digits: &str, places: usize) -> (text: String)
    requires
        places < 100,
    ensures
        text@ == pointed(zero_filled(digits@, places + 1), places as int),
{
    let chars: Vec<char> = crate::text::chars_of(digits);
    let mut all: Vec<char> = Vec::new();
    let total: usize = chars.len();
    let missing: usize = if total > places {
        0
    } else {
        places + 1 - total
    };
    while all.len() < missing
        invariant
            all@.len() <= missing,
            forall|i: int| 0 <= i < all@.len() ==> all@[i] == '0',
        decreases missing - all@.len(),
    {
        all.push('0');
    }
    let ghost filler = all@;
    let mut at: usize = 0;
    while at < chars.len()
        invariant
            at <= chars@.len(),
            all@ == filler + chars@.take(at as int),
        decreases chars@.len() - at,
    {
        all.push(chars[at]);
        proof {
            assert(all@ =~= filler + chars@.take(at + 1));
        }
        at += 1;
    }
    proof {
        assert(all@ =~= zero_filled(digits@, places + 1));
    }
    let cut: usize = all.len() - places;
    let mut text: String = crate::text::text_between(&all, 0, cut);
    text.append(".");
    text.append(crate::text::text_between(&all, cut, all.len()).as_str());
    proof {
        assert(all@.subrange(0, cut as int) =~= all@.take(cut as int));
        assert(all@.subrange(cut as int, all@.len() as int) =~= all@.skip(cut as int));
    }
    text
}

/// Writes a number with so many digits behind the point.
pub fn fixed_text(number: Binary64, places: usize) -> (text: String)
    requires
        places < 100,
    ensures
        text@ == fixed(number, places as nat),
{
    let negative: bool = number.bits >= SIGN;
    let magnitude: u64 = if negative {
        number.bits - SIGN
    } else {
        number.bits
    };
    let mut text: String = no_text();
    proof {
        reveal_strlit("");
        assert(text@ =~= ""@);
    }
    if magnitude / HIDDEN == 2047 {
        if magnitude % HIDDEN != 0 {
            return "NaN".to_owned();
        }
        if negative {
            text = "-".to_owned();
        }
        text.append("inf");
        return text;
    }
    if negative {
        text = "-".to_owned();
    }
    let mut limbs: Vec<u32> = number.numerator_limbs();
    multiply_power(&mut limbs, 10, places);
    proof {
        lemma_pow_positive(10, places as nat);
    }
    let digits: String = digits_of(round_steps(limbs));
    text.append(with_point(digits.as_str(), places).as_str());
    text
}

// ---------------------------------------------------------------------------
// Spans of time

/// A span in seconds or milliseconds. Where these are not whole there are
/// `places` digits behind the point, and more below a millisecond.
pub open spec fn displayed_to(duration: Duration, places: nat) -> Seq<char> {
    let nanos = duration.nanos;
    if nanos >= 1_000_000_000 {
        if nanos % 1_000_000_000 == 0 {
            decimal((nanos / 1_000_000_000) as nat) + "s"@
        } else {
            fixed(seconds(duration), places) + "s"@
        }
    } else if nanos >= 1_000_000 {
        if nanos % 1_000_000 == 0 {
            decimal((nanos / 1_000_000) as nat) + "ms"@
        } else {
            fixed(scaled(seconds(duration), 1000), places) + "ms"@
        }
    } else if nanos >= 1_000 {
        fixed(scaled(seconds(duration), 1000), 3) + "ms"@
    } else if nanos == 0 {
        "0ms"@
    } else {
        fixed(scaled(seconds(duration), 1000), 6) + "ms"@
    }
}

/// A span as reports show it.
pub open spec fn displayed(duration: Duration) -> Seq<char> {
    displayed_to(duration, 2)
}

/// A span as the lines on progress show it.
pub open spec fn displayed_shortly(duration: Duration) -> Seq<char> {
    displayed_to(duration, 1)
}

fn display_to(duration: Duration, places: usize) -> (text: String)
    requires
        places < 100,
    ensures
        text@ == displayed_to(duration, places as nat),
{
    let nanos: u128 = duration.nanos;
    if nanos >= 1_000_000_000 {
        let mut text: String = if nanos % 1_000_000_000 == 0 {
            decimal_text(nanos / 1_000_000_000)
        } else {
            fixed_text(seconds_of(duration), places)
        };
        text.append("s");
        text
    } else if nanos >= 1_000_000 {
        let mut text: String = if nanos % 1_000_000 == 0 {
            decimal_text(nanos / 1_000_000)
        } else {
            fixed_text(scale(seconds_of(duration), 1000), places)
        };
        text.append("ms");
        text
    } else if nanos == 0 {
        "0ms".to_owned()
    } else {
        let places: usize = if nanos >= 1_000 {
            3
        } else {
            6
        };
        let mut text: String = fixed_text(scale(seconds_of(duration), 1000), places);
        text.append("ms");
        text
    }
}

/// Writes a span as reports show it.
pub fn display_duration(duration: Duration) -> (text: String)
    ensures
        text@ == displayed(duration),
{
    display_to(duration, 2)
}

/// Writes a span as the lines on progress show it.
pub fn display_shortly(duration: Duration) -> (text: String)
    ensures
        text@ == displayed_shortly(duration),
{
    display_to(duration, 1)
}

} // verus!
