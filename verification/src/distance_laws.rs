//! How far apart names are.

use vstd::prelude::*;

use crate::names::distance;

verus! {

/// The distance is the same both ways.
pub proof fn law_distance_is_symmetric(left: Seq<u8>, right: Seq<u8>)
    ensures
        distance(left, right) == distance(right, left),
    decreases left.len() + right.len(),
{
    if left.len() > 0 && right.len() > 0 {
        law_distance_is_symmetric(left.drop_last(), right.drop_last());
        law_distance_is_symmetric(left.drop_last(), right);
        law_distance_is_symmetric(left, right.drop_last());
    }
}

/// Nothing has to be done exactly where the texts are the same.
pub proof fn law_distance_is_zero_for_the_same(left: Seq<u8>, right: Seq<u8>)
    ensures
        distance(left, right) == 0 <==> left == right,
    decreases left.len() + right.len(),
{
    if left.len() > 0 && right.len() > 0 {
        law_distance_is_zero_for_the_same(left.drop_last(), right.drop_last());
        if left.last() == right.last() {
            assert(left =~= left.drop_last().push(left.last()));
            assert(right =~= right.drop_last().push(right.last()));
        }
    } else if distance(left, right) == 0 {
        assert(left =~= right);
    }
}

/// The distance is at most the longer length, and at least the difference of the
/// lengths.
pub proof fn law_distance_is_bounded(left: Seq<u8>, right: Seq<u8>)
    ensures
        distance(left, right) <= left.len() || distance(left, right) <= right.len(),
        left.len() <= distance(left, right) + right.len(),
        right.len() <= distance(left, right) + left.len(),
    decreases left.len() + right.len(),
{
    if left.len() > 0 && right.len() > 0 {
        law_distance_is_bounded(left.drop_last(), right.drop_last());
        law_distance_is_bounded(left.drop_last(), right);
        law_distance_is_bounded(left, right.drop_last());
    }
}

/// One byte more or less changes the distance by one at most.
proof fn lemma_last_byte(left: Seq<u8>, right: Seq<u8>)
    requires
        left.len() > 0,
    ensures
        distance(left, right) <= distance(left.drop_last(), right) + 1,
        distance(left.drop_last(), right) <= distance(left, right) + 1,
    decreases left.len() + right.len(),
{
    if right.len() > 0 {
        let a = left.drop_last();
        let b = right.drop_last();
        lemma_last_byte(right, a);
        law_distance_is_symmetric(right, a);
        law_distance_is_symmetric(b, a);
        lemma_last_byte(left, b);
    }
}

/// Bytes at the end cost what they differ.
proof fn lemma_both_last(left: Seq<u8>, right: Seq<u8>)
    requires
        left.len() > 0,
        right.len() > 0,
    ensures
        distance(left, right) <= distance(left.drop_last(), right.drop_last()) + (if left.last()
            == right.last() {
            0int
        } else {
            1
        }),
{
}

/// A way over a third text is no shorter.
pub proof fn law_distance_keeps_the_triangle(a: Seq<u8>, b: Seq<u8>, c: Seq<u8>)
    ensures
        distance(a, c) <= distance(a, b) + distance(b, c),
    decreases a.len() + b.len() + c.len(),
{
    law_distance_is_bounded(a, b);
    law_distance_is_bounded(b, c);
    law_distance_is_bounded(a, c);
    if a.len() > 0 && b.len() > 0 && c.len() > 0 {
        let x = a.drop_last();
        let y = b.drop_last();
        let z = c.drop_last();
        lemma_last_byte(a, c);
        lemma_last_byte(c, a);
        law_distance_is_symmetric(c, a);
        law_distance_is_symmetric(z, a);
        lemma_both_last(a, c);
        law_distance_keeps_the_triangle(x, b, c);
        law_distance_keeps_the_triangle(a, b, z);
        law_distance_keeps_the_triangle(a, y, z);
        law_distance_keeps_the_triangle(a, y, c);
        law_distance_keeps_the_triangle(x, y, z);
        law_distance_keeps_the_triangle(x, y, c);
    }
}

// ---------------------------------------------------------------------------
// Edits

/// Whether a text becomes another where `gone` is taken out between `front` and
/// `back`, and `come` put there; each is a byte or nothing.
pub open spec fn changes(
    left: Seq<u8>,
    right: Seq<u8>,
    front: Seq<u8>,
    gone: Seq<u8>,
    come: Seq<u8>,
    back: Seq<u8>,
) -> bool {
    &&& left == front + gone + back
    &&& right == front + come + back
    &&& gone.len() <= 1
    &&& come.len() <= 1
    &&& gone.len() + come.len() > 0
}

/// Whether one byte is inserted, deleted or replaced.
pub open spec fn one_edit(left: Seq<u8>, right: Seq<u8>) -> bool {
    exists|front: Seq<u8>, gone: Seq<u8>, come: Seq<u8>, back: Seq<u8>|
        #[trigger] changes(left, right, front, gone, come, back)
}

/// Whether so many edits turn one text into the other.
pub open spec fn reaches(left: Seq<u8>, right: Seq<u8>, edits: nat) -> bool
    decreases edits,
{
    if edits == 0 {
        left == right
    } else {
        exists|between: Seq<u8>|
            #[trigger] one_edit(left, between) && reaches(between, right, (edits - 1) as nat)
    }
}

proof fn lemma_one_edit(
    front: Seq<u8>,
    gone: Seq<u8>,
    come: Seq<u8>,
    back: Seq<u8>,
)
    requires
        gone.len() <= 1,
        come.len() <= 1,
    ensures
        distance(front + gone + back, front + come + back) <= 1,
    decreases back.len(),
{
    let left = front + gone + back;
    let right = front + come + back;
    if back.len() > 0 {
        let rest = back.drop_last();
        assert(left.drop_last() =~= front + gone + rest);
        assert(right.drop_last() =~= front + come + rest);
        assert(left.last() == right.last());
        lemma_one_edit(front, gone, come, rest);
    } else {
        law_distance_is_zero_for_the_same(front, front);
        assert(front + gone + back =~= front + gone);
        assert(front + come + back =~= front + come);
        if gone.len() == 0 {
            assert(front + gone =~= front);
        } else {
            assert((front + gone).drop_last() =~= front);
        }
        if come.len() == 0 {
            assert(front + come =~= front);
        } else {
            assert((front + come).drop_last() =~= front);
        }
        if gone.len() == 1 && come.len() == 1 {
            lemma_both_last(left, right);
        } else if gone.len() == 1 {
            lemma_last_byte(left, front);
        } else if come.len() == 1 {
            lemma_last_byte(right, front);
            law_distance_is_symmetric(right, front);
        }
    }
}

proof fn lemma_no_fewer(left: Seq<u8>, right: Seq<u8>, edits: nat)
    requires
        reaches(left, right, edits),
    ensures
        distance(left, right) <= edits,
    decreases edits,
{
    if edits == 0 {
        law_distance_is_zero_for_the_same(left, right);
    } else {
        let between = choose|between: Seq<u8>|
            #[trigger] one_edit(left, between) && reaches(between, right, (edits - 1) as nat);
        let (front, gone, come, back) = choose|
            front: Seq<u8>,
            gone: Seq<u8>,
            come: Seq<u8>,
            back: Seq<u8>,
        | #[trigger] changes(left, between, front, gone, come, back);
        lemma_one_edit(front, gone, come, back);
        lemma_no_fewer(between, right, (edits - 1) as nat);
        law_distance_keeps_the_triangle(left, between, right);
    }
}

proof fn lemma_longer(left: Seq<u8>, right: Seq<u8>, edits: nat, byte: u8)
    requires
        reaches(left, right, edits),
    ensures
        reaches(left.push(byte), right.push(byte), edits),
    decreases edits,
{
    if edits > 0 {
        let between = choose|between: Seq<u8>|
            #[trigger] one_edit(left, between) && reaches(between, right, (edits - 1) as nat);
        let (front, gone, come, back) = choose|
            front: Seq<u8>,
            gone: Seq<u8>,
            come: Seq<u8>,
            back: Seq<u8>,
        | #[trigger] changes(left, between, front, gone, come, back);
        let more = back.push(byte);
        assert(left.push(byte) =~= front + gone + more);
        assert(between.push(byte) =~= front + come + more);
        assert(changes(left.push(byte), between.push(byte), front, gone, come, more));
        lemma_longer(between, right, (edits - 1) as nat, byte);
        assert(one_edit(left.push(byte), between.push(byte)));
    }
}

proof fn lemma_one_more(left: Seq<u8>, between: Seq<u8>, right: Seq<u8>, edits: nat)
    requires
        reaches(left, between, edits),
        one_edit(between, right),
    ensures
        reaches(left, right, edits + 1),
    decreases edits,
{
    if edits == 0 {
        assert(one_edit(left, right) && reaches(right, right, 0));
    } else {
        let first = choose|first: Seq<u8>|
            #[trigger] one_edit(left, first) && reaches(first, between, (edits - 1) as nat);
        lemma_one_more(first, between, right, (edits - 1) as nat);
        assert(one_edit(left, first) && reaches(first, right, edits));
    }
}

proof fn lemma_push(text: Seq<u8>, byte: u8)
    ensures
        one_edit(text, text.push(byte)),
        one_edit(text.push(byte), text),
        forall|other: u8| #[trigger] one_edit(text.push(byte), text.push(other)),
{
    let none = Seq::<u8>::empty();
    assert(text =~= text + none + none);
    assert(text.push(byte) =~= text + seq![byte] + none);
    assert(changes(text, text.push(byte), text, none, seq![byte], none));
    assert(changes(text.push(byte), text, text, seq![byte], none, none));
    assert forall|other: u8| #[trigger] one_edit(text.push(byte), text.push(other)) by {
        assert(text.push(other) =~= text + seq![other] + none);
        assert(changes(text.push(byte), text.push(other), text, seq![byte], seq![other], none));
    }
}

proof fn lemma_enough(left: Seq<u8>, right: Seq<u8>)
    ensures
        reaches(left, right, distance(left, right)),
    decreases left.len() + right.len(),
{
    if left.len() == 0 && right.len() == 0 {
        assert(left =~= right);
    } else if left.len() == 0 {
        let rest = right.drop_last();
        lemma_enough(left, rest);
        lemma_push(rest, right.last());
        assert(rest.push(right.last()) =~= right);
        lemma_one_more(left, rest, right, distance(left, rest));
    } else if right.len() == 0 {
        let rest = left.drop_last();
        lemma_enough(rest, right);
        lemma_push(rest, left.last());
        assert(rest.push(left.last()) =~= left);
        assert(one_edit(left, rest) && reaches(rest, right, distance(rest, right)));
    } else {
        let a = left.drop_last();
        let b = right.drop_last();
        let x = left.last();
        let y = right.last();
        assert(a.push(x) =~= left);
        assert(b.push(y) =~= right);
        lemma_push(a, x);
        lemma_push(b, y);
        lemma_push(b, x);
        lemma_enough(a, b);
        lemma_enough(a, right);
        lemma_enough(left, b);
        if x == y {
            lemma_longer(a, b, distance(a, b), x);
        } else if distance(left, right) == 1 + distance(a, b) {
            lemma_longer(a, b, distance(a, b), x);
            assert(one_edit(b.push(x), b.push(y)));
            lemma_one_more(left, b.push(x), right, distance(a, b));
        } else if distance(left, right) == 1 + distance(a, right) {
            assert(one_edit(left, a) && reaches(a, right, distance(a, right)));
        } else {
            lemma_one_more(left, b, right, distance(left, b));
        }
    }
}

/// The distance is the least number of bytes to insert, delete or replace.
pub proof fn law_distance_is_least(left: Seq<u8>, right: Seq<u8>, edits: nat)
    ensures
        reaches(left, right, distance(left, right)),
        reaches(left, right, edits) ==> distance(left, right) <= edits,
{
    lemma_enough(left, right);
    if reaches(left, right, edits) {
        lemma_no_fewer(left, right, edits);
    }
}

} // verus!
