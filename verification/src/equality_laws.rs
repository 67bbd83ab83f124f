//! When values are the same, and how numbers are ordered and rounded.

use vstd::arithmetic::div_mod::lemma_fundamental_div_mod;
use vstd::prelude::*;

use crate::binary64::{round_even, Binary64};
use crate::value::{equal_entries, equal_lists, equals, EntryModel, Order, ValueModel};

verus! {

// ---------------------------------------------------------------------------
// Equality

proof fn lemma_lists(left: Seq<ValueModel>, right: Seq<ValueModel>, from: int)
    requires
        0 <= from <= left.len(),
        left.len() == right.len(),
    ensures
        equal_lists(left, right, from) <==> forall|i: int|
            from <= i < left.len() ==> equals(#[trigger] left[i], right[i]),
    decreases left.len() - from,
{
    if from < left.len() {
        lemma_lists(left, right, from + 1);
        if equal_lists(left, right, from) {
            assert forall|i: int| from <= i < left.len() implies equals(
                #[trigger] left[i],
                right[i],
            ) by {
                if i > from {
                    assert(from + 1 <= i);
                }
            }
        }
        if forall|i: int| from <= i < left.len() ==> equals(#[trigger] left[i], right[i]) {
            assert(equals(left[from], right[from]));
        }
    }
}

proof fn lemma_entries(left: Seq<EntryModel>, right: Seq<EntryModel>, from: int)
    requires
        0 <= from <= left.len(),
        left.len() == right.len(),
    ensures
        equal_entries(left, right, from) <==> forall|i: int|
            from <= i < left.len() ==> (#[trigger] left[i]).name == right[i].name && equals(
                left[i].value,
                right[i].value,
            ),
    decreases left.len() - from,
{
    if from < left.len() {
        lemma_entries(left, right, from + 1);
        if equal_entries(left, right, from) {
            assert forall|i: int| from <= i < left.len() implies (#[trigger] left[i]).name
                == right[i].name && equals(left[i].value, right[i].value) by {
                if i > from {
                    assert(from + 1 <= i);
                }
            }
        }
        if forall|i: int|
            from <= i < left.len() ==> (#[trigger] left[i]).name == right[i].name && equals(
                left[i].value,
                right[i].value,
            ) {
            assert(left[from].name == right[from].name);
        }
    }
}

/// Arrays are equal where they are of one length and equal in each place.
pub proof fn law_arrays_are_equal_by_their_elements(left: Seq<ValueModel>, right: Seq<ValueModel>)
    ensures
        equals(ValueModel::Array(left), ValueModel::Array(right)) <==> left.len() == right.len()
            && forall|i: int| 0 <= i < left.len() ==> equals(#[trigger] left[i], right[i]),
{
    if left.len() == right.len() {
        lemma_lists(left, right, 0);
    }
}

/// Objects are equal where they have the same names, and equal values under
/// each of them.
pub proof fn law_objects_are_equal_by_their_entries(
    left: Seq<EntryModel>,
    right: Seq<EntryModel>,
)
    ensures
        equals(ValueModel::Object(left), ValueModel::Object(right)) <==> left.len() == right.len()
            && forall|i: int|
            0 <= i < left.len() ==> (#[trigger] left[i]).name == right[i].name && equals(
                left[i].value,
                right[i].value,
            ),
{
    if left.len() == right.len() {
        lemma_entries(left, right, 0);
    }
}

/// A value is equal to another just where that is equal to it.
pub proof fn law_equality_is_symmetric(left: ValueModel, right: ValueModel)
    ensures
        equals(left, right) == equals(right, left),
    decreases left,
{
    match (left, right) {
        (ValueModel::Array(a), ValueModel::Array(b)) => {
            law_arrays_are_equal_by_their_elements(a, b);
            law_arrays_are_equal_by_their_elements(b, a);
            assert forall|i: int| 0 <= i < a.len() && i < b.len() implies equals(
                #[trigger] a[i],
                b[i],
            ) == equals(b[i], a[i]) by {
                law_equality_is_symmetric(a[i], b[i]);
            }
            if equals(left, right) {
                assert forall|i: int| 0 <= i < b.len() implies equals(#[trigger] b[i], a[i]) by {
                    assert(equals(a[i], b[i]));
                }
            }
            if equals(right, left) {
                assert forall|i: int| 0 <= i < a.len() implies equals(#[trigger] a[i], b[i]) by {
                    assert(equals(b[i], a[i]));
                }
            }
        },
        (ValueModel::Object(a), ValueModel::Object(b)) => {
            law_objects_are_equal_by_their_entries(a, b);
            law_objects_are_equal_by_their_entries(b, a);
            assert forall|i: int| 0 <= i < a.len() && i < b.len() implies equals(
                (#[trigger] a[i]).value,
                b[i].value,
            ) == equals(b[i].value, a[i].value) by {
                assert(decreases_to!(left => a[i].value));
                law_equality_is_symmetric(a[i].value, b[i].value);
            }
            if equals(left, right) {
                assert forall|i: int| 0 <= i < b.len() implies (#[trigger] b[i]).name == a[i].name
                    && equals(b[i].value, a[i].value) by {
                    assert(a[i].name == b[i].name && equals(a[i].value, b[i].value));
                }
            }
            if equals(right, left) {
                assert forall|i: int| 0 <= i < a.len() implies (#[trigger] a[i]).name == b[i].name
                    && equals(a[i].value, b[i].value) by {
                    assert(b[i].name == a[i].name && equals(b[i].value, a[i].value));
                }
            }
        },
        (ValueModel::Sensitive(a), ValueModel::Sensitive(b)) => {
            law_equality_is_symmetric(*a, *b);
        },
        _ => {},
    }
}

// ---------------------------------------------------------------------------
// Numbers

/// Numbers with a fraction are ordered as they lie on the line: each two of them
/// are, one way or the other, and zero is zero whatever its sign.
pub proof fn law_fractions_are_ordered(one: Binary64, other: Binary64)
    requires
        one.is_number(),
        other.is_number(),
    ensures
        one.compared(other) is Some,
        one.compared(other) == Some(Order::Before) <==> other.compared(one) == Some(Order::After),
        one.compared(other) == Some(Order::Same) <==> other.compared(one) == Some(Order::Same),
        !one.negative() && !other.negative() ==> (one.compared(other) == Some(Order::Before)
            <==> one.magnitude() < other.magnitude()),
        one.negative() && other.negative() ==> (one.compared(other) == Some(Order::Before)
            <==> one.magnitude() > other.magnitude()),
        one.negative() && !other.negative() && other.magnitude() > 0 ==> one.compared(other)
            == Some(Order::Before),
        one.magnitude() == 0 && other.magnitude() == 0 ==> one.compared(other) == Some(Order::Same),
{
}

/// A fraction is rounded to a nearest whole number, and to an even one where two
/// are as near.
pub proof fn law_rounding_is_to_the_nearest(numerator: nat, denominator: nat)
    requires
        denominator > 0,
    ensures
        ({
            let whole = round_even(numerator, denominator);
            let far = numerator - whole * denominator;
            &&& -(denominator as int) <= 2 * far <= denominator
            &&& 2 * far == denominator || 2 * far == -(denominator as int) ==> whole % 2 == 0
        }),
{
    let quotient = numerator / denominator;
    let remainder = numerator % denominator;
    lemma_fundamental_div_mod(numerator as int, denominator as int);
    assert(denominator * quotient == quotient * denominator) by (nonlinear_arith);
    assert((quotient + 1) * denominator == quotient * denominator + denominator)
        by (nonlinear_arith);
    assert(numerator == quotient * denominator + remainder);
    assert(remainder < denominator) by {
        vstd::arithmetic::div_mod::lemma_mod_bound(numerator as int, denominator as int);
    }
    let whole = round_even(numerator, denominator);
    if 2 * remainder == denominator && quotient % 2 == 1 {
        assert(whole == quotient + 1);
    }
}

/// A minus turns the sign of a number round and leaves how great it is.
pub proof fn law_signs_flip(number: Binary64)
    ensures
        number.flipped().negative() == !number.negative(),
        number.flipped().magnitude() == number.magnitude(),
        number.flipped().flipped() == number,
{
    let bits = number.bits;
    assert(bits >= 0x8000_0000_0000_0000 ==> (bits ^ 0x8000_0000_0000_0000) == bits
        - 0x8000_0000_0000_0000) by (bit_vector);
    assert(bits < 0x8000_0000_0000_0000 ==> (bits ^ 0x8000_0000_0000_0000) == bits
        + 0x8000_0000_0000_0000) by (bit_vector);
    assert((bits ^ 0x8000_0000_0000_0000) ^ 0x8000_0000_0000_0000 == bits) by (bit_vector);
}

} // verus!
