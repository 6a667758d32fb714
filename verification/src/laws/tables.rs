//! Tables, by what stands under their keys.
use vstd::prelude::*;

use crate::value::{
    canonical, canonical_entries, get, in_order, lemma_canonical_sorted, lemma_get_put, lemma_put_in_order, put,
    sorted, ValueModel,
};

verus! {

/// What is put under a key of a table is what stands there after, and what stands
/// under any other key stays. A table in order stays in order.
pub proof fn law_tables_keep_what_is_put(
    entries: Seq<(Seq<char>, ValueModel)>,
    key: Seq<char>,
    value: ValueModel,
    other: Seq<char>,
)
    ensures
        get(put(entries, key, value), key) == Some(value),
        other != key ==> get(put(entries, key, value), other) == get(entries, other),
        in_order(entries) ==> in_order(put(entries, key, value)),
{
    lemma_get_put(entries, key, value, other);
    if in_order(entries) {
        lemma_put_in_order(entries, key, value);
    }
}

/// Entries that are sorted are in order, and under each key stands what stood under
/// it in the last of the entries that had it.
pub proof fn law_sorted_entries_keep_their_values(entries: Seq<(Seq<char>, ValueModel)>, at: int)
    requires
        0 <= at < entries.len(),
        forall|j: int| at < j < entries.len() ==> (#[trigger] entries[j]).0 != entries[at].0,
    ensures
        get(sorted(entries), entries[at].0) == Some(entries[at].1),
        in_order(sorted(entries)),
    decreases entries.len(),
{
    lemma_sorted_in_order(entries);
    let rest = entries.drop_last();
    let last = entries.last();
    lemma_get_put(sorted(rest), last.0, last.1, entries[at].0);
    if at < rest.len() {
        assert(entries[entries.len() - 1].0 != entries[at].0);
        assert forall|j: int| at < j < rest.len() implies (#[trigger] rest[j]).0 != rest[at].0 by {
            assert(entries[j].0 != entries[at].0);
        }
        law_sorted_entries_keep_their_values(rest, at);
    }
}

/// Sorting adds no key.
pub proof fn law_sorted_entries_have_no_other_key(entries: Seq<(Seq<char>, ValueModel)>, key: Seq<char>)
    requires
        forall|j: int| 0 <= j < entries.len() ==> (#[trigger] entries[j]).0 != key,
    ensures
        get(sorted(entries), key) is None,
    decreases entries.len(),
{
    if entries.len() > 0 {
        let rest = entries.drop_last();
        let last = entries.last();
        assert(entries[entries.len() - 1].0 != key);
        assert forall|j: int| 0 <= j < rest.len() implies (#[trigger] rest[j]).0 != key by {
            assert(entries[j].0 != key);
        }
        law_sorted_entries_have_no_other_key(rest, key);
        lemma_get_put(sorted(rest), last.0, last.1, key);
    }
}

/// Sorted entries are in order.
proof fn lemma_sorted_in_order(entries: Seq<(Seq<char>, ValueModel)>)
    ensures
        in_order(sorted(entries)),
    decreases entries.len(),
{
    if entries.len() > 0 {
        lemma_sorted_in_order(entries.drop_last());
        lemma_put_in_order(sorted(entries.drop_last()), entries.last().0, entries.last().1);
    }
}

/// A table that is put in order keeps under each key what stood under it, put in
/// order itself.
pub proof fn law_canonical_tables_keep_their_values(entries: Seq<(Seq<char>, ValueModel)>, at: int)
    requires
        0 <= at < entries.len(),
        forall|j: int| at < j < entries.len() ==> (#[trigger] entries[j]).0 != entries[at].0,
    ensures
        get(canonical_entries(entries), entries[at].0) == Some(canonical(entries[at].1)),
{
    let mapped = entries.map_values(|entry: (Seq<char>, ValueModel)| (entry.0, canonical(entry.1)));
    lemma_canonical_sorted(entries);
    assert forall|j: int| at < j < mapped.len() implies (#[trigger] mapped[j]).0 != mapped[at].0 by {
        assert(entries[j].0 != entries[at].0);
    }
    law_sorted_entries_keep_their_values(mapped, at);
}

/// Putting a table in order adds no key.
pub proof fn law_canonical_tables_have_no_other_key(entries: Seq<(Seq<char>, ValueModel)>, key: Seq<char>)
    requires
        forall|j: int| 0 <= j < entries.len() ==> (#[trigger] entries[j]).0 != key,
    ensures
        get(canonical_entries(entries), key) is None,
{
    let mapped = entries.map_values(|entry: (Seq<char>, ValueModel)| (entry.0, canonical(entry.1)));
    lemma_canonical_sorted(entries);
    assert forall|j: int| 0 <= j < mapped.len() implies (#[trigger] mapped[j]).0 != key by {
        assert(entries[j].0 != key);
    }
    law_sorted_entries_have_no_other_key(mapped, key);
}

}
