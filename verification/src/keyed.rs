//! Entries with text keys, kept in ascending order of their keys: each key occurs
//! once, and an entry that is inserted again replaces the earlier one.
use vstd::prelude::*;

verus! {

/// Whether the entries stand in ascending order of their keys.
pub open spec fn ascending<A>(entries: Seq<(Seq<char>, A)>) -> bool {
    forall|i: int, j: int|
        0 <= i < j < entries.len() ==> crate::text::text_before(
            (#[trigger] entries[i]).0,
            (#[trigger] entries[j]).0,
        )
}

/// Whether no key occurs twice.
pub open spec fn distinct_keys<A>(entries: Seq<(Seq<char>, A)>) -> bool {
    forall|i: int, j: int|
        0 <= i < j < entries.len() ==> (#[trigger] entries[i]).0 != (#[trigger] entries[j]).0
}

/// The value of the first entry with a key.
pub open spec fn value_for<A>(entries: Seq<(Seq<char>, A)>, key: Seq<char>) -> Option<A>
    decreases entries.len(),
{
    if entries.len() == 0 {
        None
    } else if entries[0].0 == key {
        Some(entries[0].1)
    } else {
        value_for(entries.skip(1), key)
    }
}

/// The value of the last entry with a key.
pub open spec fn last_value_for<A>(entries: Seq<(Seq<char>, A)>, key: Seq<char>) -> Option<A>
    decreases entries.len(),
{
    if entries.len() == 0 {
        None
    } else if entries.last().0 == key {
        Some(entries.last().1)
    } else {
        last_value_for(entries.drop_last(), key)
    }
}

/// The entries with one more at its place; an entry with the same key gives way.
pub open spec fn inserted<A>(entries: Seq<(Seq<char>, A)>, key: Seq<char>, value: A) -> Seq<
    (Seq<char>, A),
>
    decreases entries.len(),
{
    if entries.len() == 0 || crate::text::text_before(key, entries[0].0) {
        seq![(key, value)] + entries
    } else if entries[0].0 == key {
        seq![(key, value)] + entries.skip(1)
    } else {
        seq![entries[0]] + inserted(entries.skip(1), key, value)
    }
}

/// The entries inserted one by one, in their order.
pub open spec fn collected<A>(entries: Seq<(Seq<char>, A)>) -> Seq<(Seq<char>, A)>
    decreases entries.len(),
{
    if entries.len() == 0 {
        Seq::empty()
    } else {
        inserted(collected(entries.drop_last()), entries.last().0, entries.last().1)
    }
}

/// Where keys ascend, none occurs twice.
pub proof fn law_ascending_keys_are_distinct<A>(entries: Seq<(Seq<char>, A)>)
    requires
        ascending(entries),
    ensures
        distinct_keys(entries),
{
    assert forall|i: int, j: int| 0 <= i < j < entries.len() implies (#[trigger] entries[i]).0 != (
    #[trigger] entries[j]).0 by {
        crate::text::text_before_irreflexive(entries[i].0);
    }
}

proof fn inserted_stays_after<A>(
    entries: Seq<(Seq<char>, A)>,
    key: Seq<char>,
    value: A,
    bound: Seq<char>,
)
    requires
        crate::text::text_before(bound, key),
        forall|i: int|
            0 <= i < entries.len() ==> crate::text::text_before(bound, (#[trigger] entries[i]).0),
    ensures
        forall|i: int|
            0 <= i < inserted(entries, key, value).len() ==> crate::text::text_before(
                bound,
                (#[trigger] inserted(entries, key, value)[i]).0,
            ),
    decreases entries.len(),
{
    let after = inserted(entries, key, value);
    let rest = if entries.len() == 0 || crate::text::text_before(key, entries[0].0) {
        entries
    } else if entries[0].0 == key {
        entries.skip(1)
    } else {
        inserted_stays_after(entries.skip(1), key, value, bound);
        inserted(entries.skip(1), key, value)
    };
    assert forall|i: int| 0 <= i < after.len() implies crate::text::text_before(
        bound,
        (#[trigger] after[i]).0,
    ) by {
        if i > 0 {
            assert(after[i] == rest[i - 1]);
        }
    }
}

/// Inserting keeps the order of keys.
pub proof fn law_inserting_keeps_the_order<A>(
    entries: Seq<(Seq<char>, A)>,
    key: Seq<char>,
    value: A,
)
    requires
        ascending(entries),
    ensures
        ascending(inserted(entries, key, value)),
    decreases entries.len(),
{
    let after = inserted(entries, key, value);
    if entries.len() > 0 {
        let first = entries[0].0;
        let rest = entries.skip(1);
        assert(ascending(rest)) by {
            assert forall|i: int, j: int| 0 <= i < j < rest.len() implies
                crate::text::text_before((#[trigger] rest[i]).0, (#[trigger] rest[j]).0) by {
                assert(rest[i] == entries[i + 1] && rest[j] == entries[j + 1]);
            }
        }
        assert forall|i: int| 0 <= i < rest.len() implies crate::text::text_before(
            first,
            (#[trigger] rest[i]).0,
        ) by {
            assert(rest[i] == entries[i + 1]);
        }
        if crate::text::text_before(key, first) {
            assert forall|i: int, j: int| 0 <= i < j < after.len() implies
                crate::text::text_before((#[trigger] after[i]).0, (#[trigger] after[j]).0) by {
                assert(after[j] == entries[j - 1]);
                if i > 0 {
                    assert(after[i] == entries[i - 1]);
                } else if j > 1 {
                    crate::text::text_before_transitive(key, first, entries[j - 1].0);
                }
            }
        } else if first == key {
            assert forall|i: int, j: int| 0 <= i < j < after.len() implies
                crate::text::text_before((#[trigger] after[i]).0, (#[trigger] after[j]).0) by {
                assert(after[j] == entries[j]);
                assert(after[i].0 == entries[i].0);
            }
        } else {
            let left = inserted(rest, key, value);
            crate::text::text_before_total(key, first);
            law_inserting_keeps_the_order(rest, key, value);
            inserted_stays_after(rest, key, value, first);
            assert forall|i: int, j: int| 0 <= i < j < after.len() implies
                crate::text::text_before((#[trigger] after[i]).0, (#[trigger] after[j]).0) by {
                assert(after[j] == left[j - 1]);
                if i > 0 {
                    assert(after[i] == left[i - 1]);
                }
            }
        }
    }
}

/// Inserting changes the value of its key and of no other.
pub proof fn law_inserting_sets_one_value<A>(
    entries: Seq<(Seq<char>, A)>,
    key: Seq<char>,
    value: A,
    other: Seq<char>,
)
    ensures
        value_for(inserted(entries, key, value), other) == (if other == key {
            Some(value)
        } else {
            value_for(entries, other)
        }),
    decreases entries.len(),
{
    let after = inserted(entries, key, value);
    if entries.len() == 0 || crate::text::text_before(key, entries[0].0) {
        assert(after.skip(1) =~= entries);
    } else if entries[0].0 == key {
        assert(after.skip(1) =~= entries.skip(1));
    } else {
        law_inserting_sets_one_value(entries.skip(1), key, value, other);
        assert(after.skip(1) =~= inserted(entries.skip(1), key, value));
    }
}

/// Collected entries ascend, and each key has the value of its last entry.
pub proof fn law_the_last_entry_of_a_key_counts<A>(
    entries: Seq<(Seq<char>, A)>,
    key: Seq<char>,
)
    ensures
        ascending(collected(entries)),
        value_for(collected(entries), key) == last_value_for(entries, key),
    decreases entries.len(),
{
    if entries.len() > 0 {
        let init = entries.drop_last();
        law_the_last_entry_of_a_key_counts(init, key);
        law_inserting_keeps_the_order(collected(init), entries.last().0, entries.last().1);
        law_inserting_sets_one_value(collected(init), entries.last().0, entries.last().1, key);
    }
}

proof fn inserted_at_the_end<A>(entries: Seq<(Seq<char>, A)>, key: Seq<char>, value: A)
    requires
        forall|i: int|
            0 <= i < entries.len() ==> crate::text::text_before((#[trigger] entries[i]).0, key),
    ensures
        inserted(entries, key, value) == entries.push((key, value)),
    decreases entries.len(),
{
    if entries.len() > 0 {
        let first = entries[0].0;
        let rest = entries.skip(1);
        crate::text::text_before_irreflexive(key);
        if crate::text::text_before(key, first) {
            crate::text::text_before_transitive(key, first, key);
        }
        assert forall|i: int| 0 <= i < rest.len() implies crate::text::text_before(
            (#[trigger] rest[i]).0,
            key,
        ) by {
            assert(rest[i] == entries[i + 1]);
        }
        inserted_at_the_end(rest, key, value);
    }
    assert(inserted(entries, key, value) =~= entries.push((key, value)));
}

/// Entries that ascend already are collected as they are.
pub proof fn law_ascending_entries_stay<A>(entries: Seq<(Seq<char>, A)>)
    requires
        ascending(entries),
    ensures
        collected(entries) == entries,
    decreases entries.len(),
{
    if entries.len() > 0 {
        let init = entries.drop_last();
        assert(ascending(init)) by {
            assert forall|i: int, j: int| 0 <= i < j < init.len() implies
                crate::text::text_before((#[trigger] init[i]).0, (#[trigger] init[j]).0) by {
                assert(init[i] == entries[i] && init[j] == entries[j]);
            }
        }
        law_ascending_entries_stay(init);
        assert forall|i: int| 0 <= i < init.len() implies crate::text::text_before(
            (#[trigger] init[i]).0,
            entries.last().0,
        ) by {
            assert(init[i] == entries[i]);
        }
        inserted_at_the_end(init, entries.last().0, entries.last().1);
        assert(init.push((entries.last().0, entries.last().1)) =~= entries);
    } else {
        assert(entries =~= Seq::empty());
    }
}

} // verus!
