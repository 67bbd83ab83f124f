//! Laws of objects: entries stay in order, and a name stands for what was put
//! under it last.

use vstd::prelude::*;

use crate::value::{
    find, inserted, lookup, merged, order, order_from, overlaid, place, removed, sorted, EntryModel,
    Order, ValueModel,
};

verus! {

/// Texts that compare as the same are the same, and comparing the other way
/// round gives the opposite.
pub proof fn law_order_is_total(left: Seq<char>, right: Seq<char>)
    ensures
        order(left, right) == Order::Same <==> left == right,
        order(left, right) == Order::Before <==> order(right, left) == Order::After,
{
    lemma_order_from(left, right, 0);
    if order(left, right) == Order::Same {
        assert(left =~= right);
    }
}

proof fn lemma_same_code(a: char, b: char)
    requires
        a as u32 == b as u32,
    ensures
        a == b,
{
}

proof fn lemma_order_from(left: Seq<char>, right: Seq<char>, from: int)
    requires
        0 <= from,
    ensures
        order_from(left, right, from) == Order::Before <==> order_from(right, left, from)
            == Order::After,
        order_from(left, right, from) == Order::After <==> order_from(right, left, from)
            == Order::Before,
        order_from(left, right, from) == Order::Same && from <= left.len() && from <= right.len()
            ==> left.len() == right.len() && (forall|i: int|
            from <= i < left.len() ==> left[i] == right[i]),
        left == right ==> order_from(left, right, from) == Order::Same,
    decreases left.len() - from,
{
    if from < left.len() && from < right.len() {
        lemma_order_from(left, right, from + 1);
        if left[from] as u32 == right[from] as u32 {
            lemma_same_code(left[from], right[from]);
        }
    }
}

/// What comes before something that comes before a third comes before the
/// third.
pub proof fn law_order_is_transitive(a: Seq<char>, b: Seq<char>, c: Seq<char>)
    requires
        order(a, b) == Order::Before,
        order(b, c) == Order::Before,
    ensures
        order(a, c) == Order::Before,
{
    lemma_transitive_from(a, b, c, 0);
}

proof fn lemma_transitive_from(a: Seq<char>, b: Seq<char>, c: Seq<char>, from: int)
    requires
        0 <= from,
        order_from(a, b, from) == Order::Before,
        order_from(b, c, from) == Order::Before,
    ensures
        order_from(a, c, from) == Order::Before,
    decreases a.len() - from,
{
    if from < a.len() && from < b.len() && from < c.len() && a[from] as u32 == b[from] as u32
        && b[from] as u32 == c[from] as u32 {
        lemma_transitive_from(a, b, c, from + 1);
    }
}

proof fn lemma_place(entries: Seq<EntryModel>, name: Seq<char>, from: int)
    requires
        0 <= from <= entries.len(),
    ensures
        from <= place(entries, name, from) <= entries.len(),
        forall|i: int|
            from <= i < place(entries, name, from) ==> order((#[trigger] entries[i]).name, name)
                == Order::Before,
        place(entries, name, from) < entries.len() ==> order(
            entries[place(entries, name, from)].name,
            name,
        ) != Order::Before,
    decreases entries.len() - from,
{
    if from < entries.len() && order(entries[from].name, name) == Order::Before {
        lemma_place(entries, name, from + 1);
    }
}

proof fn lemma_find(entries: Seq<EntryModel>, name: Seq<char>, from: int)
    requires
        0 <= from,
    ensures
        find(entries, name, from) matches Some(at) ==> from <= at < entries.len()
            && entries[at].name == name,
        find(entries, name, from) is None ==> forall|i: int|
            from <= i < entries.len() ==> (#[trigger] entries[i]).name != name,
    decreases entries.len() - from,
{
    if from < entries.len() && entries[from].name != name {
        lemma_find(entries, name, from + 1);
    }
}

/// In entries that are in order, a name stands at one place only.
proof fn lemma_found_at(entries: Seq<EntryModel>, name: Seq<char>, at: int)
    requires
        sorted(entries),
        0 <= at < entries.len(),
        entries[at].name == name,
    ensures
        find(entries, name, 0) == Some(at),
        lookup(entries, name) == Some(entries[at].value),
{
    lemma_find(entries, name, 0);
    law_order_is_total(name, name);
    if find(entries, name, 0) is None {
        assert(entries[at].name != name);
    } else {
        let other = find(entries, name, 0)->0;
        if other < at {
            assert(order(entries[other].name, entries[at].name) == Order::Before);
        } else if other > at {
            assert(order(entries[at].name, entries[other].name) == Order::Before);
        }
    }
}

proof fn lemma_not_found(entries: Seq<EntryModel>, name: Seq<char>)
    requires
        forall|i: int| 0 <= i < entries.len() ==> (#[trigger] entries[i]).name != name,
    ensures
        lookup(entries, name) is None,
{
    lemma_find(entries, name, 0);
    if find(entries, name, 0) is Some {
        let at = find(entries, name, 0)->0;
        assert(entries[at].name == name);
    }
}

/// Two lists that hold the same under a name.
proof fn lemma_same_lookup(entries: Seq<EntryModel>, others: Seq<EntryModel>, name: Seq<char>)
    requires
        sorted(entries),
        sorted(others),
        forall|i: int|
            0 <= i < entries.len() && (#[trigger] entries[i]).name == name ==> others.contains(
                entries[i],
            ),
        forall|i: int|
            0 <= i < others.len() && (#[trigger] others[i]).name == name ==> entries.contains(
                others[i],
            ),
    ensures
        lookup(entries, name) == lookup(others, name),
{
    lemma_find(entries, name, 0);
    lemma_find(others, name, 0);
    match find(entries, name, 0) {
        Some(at) => {
            assert(others.contains(entries[at]));
            let other = choose|j: int| 0 <= j < others.len() && others[j] == entries[at];
            lemma_found_at(others, name, other);
        },
        None => {
            if find(others, name, 0) is Some {
                let other = find(others, name, 0)->0;
                assert(entries.contains(others[other]));
                let at = choose|j: int| 0 <= j < entries.len() && entries[j] == others[other];
                assert(entries[at].name == name);
            }
        },
    }
}

/// Entering a name keeps entries in order, makes it stand for the value, and
/// changes what no other name stands for.
pub proof fn law_insert(entries: Seq<EntryModel>, name: Seq<char>, value: ValueModel, other: Seq<char>)
    requires
        sorted(entries),
    ensures
        sorted(inserted(entries, name, value)),
        lookup(inserted(entries, name, value), other) == (if other == name {
            Some(value)
        } else {
            lookup(entries, other)
        }),
{
    let at = place(entries, name, 0);
    let result = inserted(entries, name, value);
    lemma_place(entries, name, 0);
    let entry = EntryModel { name, value };
    if at < entries.len() && entries[at].name == name {
        assert(result == entries.update(at, entry));
        assert(sorted(result)) by {
            assert forall|i: int, j: int| 0 <= i < j < result.len() implies order(
                (#[trigger] result[i]).name,
                (#[trigger] result[j]).name,
            ) == Order::Before by {
                assert(order(entries[i].name, entries[j].name) == Order::Before);
            }
        }
        lemma_found_at(result, name, at);
        if other != name {
            assert forall|i: int|
                0 <= i < entries.len() && (#[trigger] entries[i]).name
                    == other implies result.contains(entries[i]) by {
                assert(result[i] == entries[i]);
            }
            assert forall|i: int|
                0 <= i < result.len() && (#[trigger] result[i]).name
                    == other implies entries.contains(result[i]) by {
                assert(entries[i] == result[i]);
            }
            lemma_same_lookup(entries, result, other);
        }
    } else {
        assert(result == entries.insert(at, entry));
        assert(sorted(result)) by {
            assert forall|i: int, j: int| 0 <= i < j < result.len() implies order(
                (#[trigger] result[i]).name,
                (#[trigger] result[j]).name,
            ) == Order::Before by {
                if j < at {
                    assert(result[i] == entries[i] && result[j] == entries[j]);
                } else if i > at {
                    assert(result[i] == entries[i - 1] && result[j] == entries[j - 1]);
                } else if j == at {
                    assert(result[i] == entries[i]);
                    assert(order(entries[i].name, name) == Order::Before);
                } else {
                    assert(result[j] == entries[j - 1]);
                    law_order_is_total(entries[at].name, name);
                    law_order_is_total(name, entries[at].name);
                    assert(order(name, entries[at].name) == Order::Before);
                    if i == at {
                        if j - 1 > at {
                            assert(order(entries[at].name, entries[j - 1].name) == Order::Before);
                            law_order_is_transitive(name, entries[at].name, entries[j - 1].name);
                        }
                    } else {
                        assert(result[i] == entries[i]);
                        assert(order(entries[i].name, entries[j - 1].name) == Order::Before);
                    }
                }
            }
        }
        assert(result[at] == entry);
        lemma_found_at(result, name, at);
        if other != name {
            assert forall|i: int|
                0 <= i < entries.len() && (#[trigger] entries[i]).name
                    == other implies result.contains(entries[i]) by {
                if i < at {
                    assert(result[i] == entries[i]);
                } else {
                    assert(result[i + 1] == entries[i]);
                }
            }
            assert forall|i: int|
                0 <= i < result.len() && (#[trigger] result[i]).name
                    == other implies entries.contains(result[i]) by {
                if i < at {
                    assert(entries[i] == result[i]);
                } else if i > at {
                    assert(entries[i - 1] == result[i]);
                }
            }
            lemma_same_lookup(entries, result, other);
        }
    }
}

/// Taking a name out keeps entries in order and changes what no other name
/// stands for.
pub proof fn law_remove(entries: Seq<EntryModel>, name: Seq<char>, other: Seq<char>)
    requires
        sorted(entries),
    ensures
        sorted(removed(entries, name)),
        lookup(removed(entries, name), other) == (if other == name {
            None
        } else {
            lookup(entries, other)
        }),
{
    let result = removed(entries, name);
    lemma_find(entries, name, 0);
    match find(entries, name, 0) {
        None => {
            if other == name {
                lemma_not_found(entries, name);
            }
        },
        Some(at) => {
            assert(result == entries.remove(at));
            assert(sorted(result)) by {
                assert forall|i: int, j: int| 0 <= i < j < result.len() implies order(
                    (#[trigger] result[i]).name,
                    (#[trigger] result[j]).name,
                ) == Order::Before by {
                    let first = if i < at {
                        i
                    } else {
                        i + 1
                    };
                    let second = if j < at {
                        j
                    } else {
                        j + 1
                    };
                    assert(result[i] == entries[first] && result[j] == entries[second]);
                }
            }
            if other == name {
                assert forall|i: int| 0 <= i < result.len() implies (#[trigger] result[i]).name
                    != name by {
                    let there = if i < at {
                        i
                    } else {
                        i + 1
                    };
                    assert(result[i] == entries[there]);
                    law_order_is_total(name, name);
                    if there < at {
                        assert(order(entries[there].name, entries[at].name) == Order::Before);
                    } else {
                        assert(order(entries[at].name, entries[there].name) == Order::Before);
                    }
                }
                lemma_not_found(result, name);
            } else {
                assert forall|i: int|
                    0 <= i < entries.len() && (#[trigger] entries[i]).name
                        == other implies result.contains(entries[i]) by {
                    if i < at {
                        assert(result[i] == entries[i]);
                    } else if i > at {
                        assert(result[i - 1] == entries[i]);
                    }
                }
                assert forall|i: int|
                    0 <= i < result.len() && (#[trigger] result[i]).name
                        == other implies entries.contains(result[i]) by {
                    if i < at {
                        assert(entries[i] == result[i]);
                    } else {
                        assert(entries[i + 1] == result[i]);
                    }
                }
                lemma_same_lookup(entries, result, other);
            }
        },
    }
}

/// What a name stands for with something put over it.
pub open spec fn laid_over(held: Option<ValueModel>, given: Option<ValueModel>) -> Option<ValueModel> {
    match (held, given) {
        (_, None) => held,
        (Some(ValueModel::Object(inner)), Some(ValueModel::Object(source))) => Some(
            ValueModel::Object(merged(inner, source, 0)),
        ),
        (_, Some(value)) => Some(value),
    }
}

proof fn lemma_overlaid(entries: Seq<EntryModel>, entry: EntryModel, other: Seq<char>)
    requires
        sorted(entries),
    ensures
        sorted(overlaid(entries, entry)),
        lookup(overlaid(entries, entry), other) == (if other == entry.name {
            laid_over(lookup(entries, other), Some(entry.value))
        } else {
            lookup(entries, other)
        }),
{
    match (lookup(entries, entry.name), entry.value) {
        (Some(ValueModel::Object(held)), ValueModel::Object(source)) => {
            lemma_find(entries, entry.name, 0);
            let at = find(entries, entry.name, 0)->0;
            let whole = EntryModel {
                name: entry.name,
                value: ValueModel::Object(merged(held, source, 0)),
            };
            let result = entries.update(at, whole);
            assert(overlaid(entries, entry) == result);
            assert(sorted(result)) by {
                assert forall|i: int, j: int| 0 <= i < j < result.len() implies order(
                    (#[trigger] result[i]).name,
                    (#[trigger] result[j]).name,
                ) == Order::Before by {
                    assert(order(entries[i].name, entries[j].name) == Order::Before);
                }
            }
            lemma_found_at(result, entry.name, at);
            if other != entry.name {
                assert forall|i: int|
                    0 <= i < entries.len() && (#[trigger] entries[i]).name
                        == other implies result.contains(entries[i]) by {
                    assert(result[i] == entries[i]);
                }
                assert forall|i: int|
                    0 <= i < result.len() && (#[trigger] result[i]).name
                        == other implies entries.contains(result[i]) by {
                    assert(entries[i] == result[i]);
                }
                lemma_same_lookup(entries, result, other);
            }
        },
        _ => {
            law_insert(entries, entry.name, entry.value, other);
        },
    }
}

/// What a name stands for after a merge: what the source puts over what was
/// there, objects merged into objects.
pub proof fn law_merge(entries: Seq<EntryModel>, source: Seq<EntryModel>, name: Seq<char>)
    requires
        sorted(entries),
        sorted(source),
    ensures
        sorted(merged(entries, source, 0)),
        lookup(merged(entries, source, 0), name) == laid_over(
            lookup(entries, name),
            lookup(source, name),
        ),
{
    lemma_merge_from(entries, source, name, 0);
    lemma_find(source, name, 0);
    match find(source, name, 0) {
        Some(at) => {
            lemma_found_at(source, name, at);
        },
        None => {},
    }
}

proof fn lemma_merge_from(entries: Seq<EntryModel>, source: Seq<EntryModel>, name: Seq<char>, from: int)
    requires
        sorted(entries),
        sorted(source),
        0 <= from <= source.len(),
    ensures
        sorted(merged(entries, source, from)),
        lookup(merged(entries, source, from), name) == laid_over(
            lookup(entries, name),
            match find(source, name, from) {
                Some(at) => Some(source[at].value),
                None => None,
            },
        ),
    decreases source.len() - from,
{
    if from < source.len() {
        lemma_overlaid(entries, source[from], name);
        lemma_merge_from(overlaid(entries, source[from]), source, name, from + 1);
        if source[from].name == name {
            lemma_find(source, name, from + 1);
            if find(source, name, from + 1) is Some {
                let at = find(source, name, from + 1)->0;
                law_order_is_total(name, name);
                assert(order(source[from].name, source[at].name) == Order::Before);
            }
        }
    }
}

/// Whether entries stand in order, and so do those of the objects among them.
pub open spec fn deeply_sorted(entries: Seq<EntryModel>) -> bool
    decreases entries,
{
    &&& sorted(entries)
    &&& forall|i: int| 0 <= i < entries.len() ==> entry_sorted(#[trigger] entries[i])
}

pub open spec fn entry_sorted(entry: EntryModel) -> bool
    decreases entry,
{
    match entry.value {
        ValueModel::Object(inner) => deeply_sorted(inner),
        _ => true,
    }
}

/// Entries in order are given by what each name stands for.
proof fn lemma_sorted_same(first: Seq<EntryModel>, second: Seq<EntryModel>)
    requires
        sorted(first),
        sorted(second),
        forall|name: Seq<char>| #[trigger] lookup(first, name) == lookup(second, name),
    ensures
        first == second,
    decreases first.len(),
{
    if first.len() == 0 || second.len() == 0 {
        if first.len() > 0 {
            lemma_found_at(first, first[0].name, 0);
            assert(lookup(first, first[0].name) is Some);
        }
        if second.len() > 0 {
            lemma_found_at(second, second[0].name, 0);
            assert(lookup(first, second[0].name) == lookup(second, second[0].name));
        }
        assert(first =~= second);
    } else {
        let low = first[0].name;
        let other = second[0].name;
        lemma_found_at(first, low, 0);
        lemma_found_at(second, other, 0);
        assert(lookup(first, low) == lookup(second, low));
        assert(lookup(first, other) == lookup(second, other));
        lemma_find(second, low, 0);
        lemma_find(first, other, 0);
        if low != other {
            let i = find(first, other, 0)->0;
            let j = find(second, low, 0)->0;
            assert(order(first[0].name, first[i].name) == Order::Before);
            assert(order(second[0].name, second[j].name) == Order::Before);
            law_order_is_total(low, other);
        }
        assert(first[0] == second[0]);
        let a = first.drop_first();
        let b = second.drop_first();
        assert(sorted(a)) by {
            assert forall|i: int, j: int| 0 <= i < j < a.len() implies order(
                (#[trigger] a[i]).name,
                (#[trigger] a[j]).name,
            ) == Order::Before by {
                assert(order(first[i + 1].name, first[j + 1].name) == Order::Before);
            }
        }
        assert(sorted(b)) by {
            assert forall|i: int, j: int| 0 <= i < j < b.len() implies order(
                (#[trigger] b[i]).name,
                (#[trigger] b[j]).name,
            ) == Order::Before by {
                assert(order(second[i + 1].name, second[j + 1].name) == Order::Before);
            }
        }
        assert forall|name: Seq<char>| #[trigger] lookup(a, name) == lookup(b, name) by {
            lemma_rest(first, name);
            lemma_rest(second, name);
            assert(lookup(first, name) == lookup(second, name));
        }
        lemma_sorted_same(a, b);
        assert(first =~= seq![first[0]] + a);
        assert(second =~= seq![second[0]] + b);
    }
}

/// What a name stands for behind the first entry.
proof fn lemma_rest(entries: Seq<EntryModel>, name: Seq<char>)
    requires
        sorted(entries),
        entries.len() > 0,
    ensures
        lookup(entries.drop_first(), name) == (if name == entries[0].name {
            None
        } else {
            lookup(entries, name)
        }),
{
    let rest = entries.drop_first();
    if name == entries[0].name {
        assert forall|i: int| 0 <= i < rest.len() implies (#[trigger] rest[i]).name != name by {
            assert(order(entries[0].name, entries[i + 1].name) == Order::Before);
            law_order_is_total(name, name);
        }
        lemma_not_found(rest, name);
    } else {
        assert(sorted(rest)) by {
            assert forall|i: int, j: int| 0 <= i < j < rest.len() implies order(
                (#[trigger] rest[i]).name,
                (#[trigger] rest[j]).name,
            ) == Order::Before by {
                assert(order(entries[i + 1].name, entries[j + 1].name) == Order::Before);
            }
        }
        assert forall|i: int|
            0 <= i < entries.len() && (#[trigger] entries[i]).name == name implies rest.contains(
            entries[i],
        ) by {
            assert(rest[i - 1] == entries[i]);
        }
        assert forall|i: int|
            0 <= i < rest.len() && (#[trigger] rest[i]).name == name implies entries.contains(
            rest[i],
        ) by {
            assert(entries[i + 1] == rest[i]);
        }
        lemma_same_lookup(entries, rest, name);
    }
}

/// An object over itself is itself.
proof fn lemma_merge_self(entries: Seq<EntryModel>)
    requires
        deeply_sorted(entries),
    ensures
        merged(entries, entries, 0) == entries,
    decreases entries,
{
    let whole = merged(entries, entries, 0);
    law_merge(entries, entries, Seq::empty());
    assert forall|name: Seq<char>| #[trigger] lookup(whole, name) == lookup(entries, name) by {
        law_merge(entries, entries, name);
        lemma_find(entries, name, 0);
        if let Some(at) = find(entries, name, 0) {
            assert(entry_sorted(entries[at]));
            if let ValueModel::Object(inner) = entries[at].value {
                lemma_merge_self(inner);
            }
        }
    }
    lemma_sorted_same(whole, entries);
}

/// Merging the same source once more changes nothing.
pub proof fn law_merge_once(entries: Seq<EntryModel>, source: Seq<EntryModel>)
    requires
        deeply_sorted(entries),
        deeply_sorted(source),
    ensures
        merged(merged(entries, source, 0), source, 0) == merged(entries, source, 0),
    decreases source,
{
    let once = merged(entries, source, 0);
    let twice = merged(once, source, 0);
    law_merge(entries, source, Seq::empty());
    law_merge(once, source, Seq::empty());
    assert forall|name: Seq<char>| #[trigger] lookup(twice, name) == lookup(once, name) by {
        law_merge(entries, source, name);
        law_merge(once, source, name);
        lemma_find(source, name, 0);
        lemma_find(entries, name, 0);
        if let Some(at) = find(source, name, 0) {
            assert(entry_sorted(source[at]));
            if let ValueModel::Object(given) = source[at].value {
                lemma_merge_self(given);
                if let Some(held) = find(entries, name, 0) {
                    assert(entry_sorted(entries[held]));
                    if let ValueModel::Object(inner) = entries[held].value {
                        law_merge_once(inner, given);
                    }
                }
            }
        }
    }
    lemma_sorted_same(twice, once);
}

} // verus!
