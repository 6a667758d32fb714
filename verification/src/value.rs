//! Option values: the tree that a TOML document holds, with tables kept in the
//! order of their keys.
use vstd::prelude::*;

use crate::order::{before, lemma_before_irreflexive, lemma_before_total, lemma_before_transitive, place, Place};
use crate::document::Literal;
use crate::text::same;

verus! {

/// What a value is: the model of [`OptionValue`].
pub enum ValueModel {
    Text(Seq<char>),
    Integer(i64),
    Boolean(bool),
    /// A float or a date-time, as TOML writes it.
    Literal(Seq<char>),
    Array(Seq<ValueModel>),
    Table(Seq<(Seq<char>, ValueModel)>),
}

/// A value of an option.
#[derive(Debug, PartialEq)]
pub enum OptionValue {
    Text(String),
    Integer(i64),
    Boolean(bool),
    Literal(Literal),
    Array(Vec<OptionValue>),
    Table(OptionTable),
}

/// A table: values under keys, no key twice, in the order of the keys.
#[derive(Debug, PartialEq)]
pub struct OptionTable {
    entries: Vec<(String, OptionValue)>,
}

impl OptionValue {
    pub open spec fn view(&self) -> ValueModel
        decreases self,
    {
        match self {
            OptionValue::Text(text) => ValueModel::Text(text@),
            OptionValue::Integer(number) => ValueModel::Integer(*number),
            OptionValue::Boolean(flag) => ValueModel::Boolean(*flag),
            OptionValue::Literal(literal) => ValueModel::Literal(literal.view()),
            OptionValue::Array(items) => ValueModel::Array(array_model(items@)),
            OptionValue::Table(table) => ValueModel::Table(table.view()),
        }
    }
}

/// The models of the items of an array.
pub open spec fn array_model(items: Seq<OptionValue>) -> Seq<ValueModel>
    decreases items,
{
    if items.len() == 0 {
        Seq::empty()
    } else {
        array_model(items.drop_last()).push(items.last().view())
    }
}

/// The models of the entries of a table.
pub open spec fn entries_model(entries: Seq<(String, OptionValue)>) -> Seq<(Seq<char>, ValueModel)>
    decreases entries,
{
    if entries.len() == 0 {
        Seq::empty()
    } else {
        entries_model(entries.drop_last()).push((entries.last().0@, entries.last().1.view()))
    }
}

/// Whether the keys stand in order, so that none stands twice.
pub open spec fn in_order(entries: Seq<(Seq<char>, ValueModel)>) -> bool {
    forall|i: int, j: int| 0 <= i < j < entries.len() ==> before(#[trigger] entries[i].0, #[trigger] entries[j].0)
}

/// `entries`, in the order of their keys, with `value` under `key`.
pub open spec fn put(entries: Seq<(Seq<char>, ValueModel)>, key: Seq<char>, value: ValueModel) -> Seq<
    (Seq<char>, ValueModel),
>
    decreases entries.len(),
{
    if entries.len() == 0 || before(key, entries[0].0) {
        seq![(key, value)] + entries
    } else if entries[0].0 == key {
        seq![(key, value)] + entries.drop_first()
    } else {
        seq![entries[0]] + put(entries.drop_first(), key, value)
    }
}

/// The value under `key`.
pub open spec fn get(entries: Seq<(Seq<char>, ValueModel)>, key: Seq<char>) -> Option<ValueModel>
    decreases entries.len(),
{
    if entries.len() == 0 {
        None
    } else if entries[0].0 == key {
        Some(entries[0].1)
    } else {
        get(entries.drop_first(), key)
    }
}

/// A value with the tables in it in the order of their keys.
pub open spec fn canonical(value: ValueModel) -> ValueModel
    decreases value,
{
    match value {
        ValueModel::Array(items) => ValueModel::Array(canonical_items(items)),
        ValueModel::Table(entries) => ValueModel::Table(canonical_entries(entries)),
        _ => value,
    }
}

/// The items of an array with the tables in them in the order of their keys.
pub open spec fn canonical_items(items: Seq<ValueModel>) -> Seq<ValueModel>
    decreases items,
{
    if items.len() == 0 {
        Seq::empty()
    } else {
        canonical_items(items.drop_last()).push(canonical(items.last()))
    }
}

/// The entries of a table in the order of their keys, with the tables in them
/// in order too.
pub open spec fn canonical_entries(entries: Seq<(Seq<char>, ValueModel)>) -> Seq<
    (Seq<char>, ValueModel),
>
    decreases entries,
{
    if entries.len() == 0 {
        Seq::empty()
    } else {
        put(canonical_entries(entries.drop_last()), entries.last().0, canonical(entries.last().1))
    }
}

/// Entries in the order of their keys; the last of those with one key stays.
pub open spec fn sorted(entries: Seq<(Seq<char>, ValueModel)>) -> Seq<(Seq<char>, ValueModel)>
    decreases entries.len(),
{
    if entries.len() == 0 {
        Seq::empty()
    } else {
        put(sorted(entries.drop_last()), entries.last().0, entries.last().1)
    }
}

/// Putting a table in order is putting its values in order and sorting it.
pub proof fn lemma_canonical_sorted(entries: Seq<(Seq<char>, ValueModel)>)
    ensures
        canonical_entries(entries) == sorted(
            entries.map_values(|entry: (Seq<char>, ValueModel)| (entry.0, canonical(entry.1))),
        ),
    decreases entries.len(),
{
    let mapped = entries.map_values(|entry: (Seq<char>, ValueModel)| (entry.0, canonical(entry.1)));
    if entries.len() > 0 {
        lemma_canonical_sorted(entries.drop_last());
        assert(mapped.drop_last() =~= entries.drop_last().map_values(
            |entry: (Seq<char>, ValueModel)| (entry.0, canonical(entry.1)),
        ));
    }
}

/// What stands in a value is smaller than the value.
pub proof fn lemma_smaller_inside(value: ValueModel, i: int)
    ensures
        value matches ValueModel::Array(items) ==> 0 <= i < items.len() ==> decreases_to!(value => items[i]),
        value matches ValueModel::Table(entries) ==> 0 <= i < entries.len() ==> decreases_to!(
            value => entries[i].1
        ),
{
    match value {
        ValueModel::Array(items) => {
            if 0 <= i < items.len() {
                assert(decreases_to!(value => items));
                assert(decreases_to!(items => items[i]));
            }
        },
        ValueModel::Table(entries) => {
            if 0 <= i < entries.len() {
                assert(decreases_to!(value => entries));
                assert(decreases_to!(entries => entries[i]));
                assert(decreases_to!(entries[i] => entries[i].1));
            }
        },
        _ => {},
    }
}

pub proof fn lemma_array_model(items: Seq<OptionValue>)
    ensures
        array_model(items).len() == items.len(),
        forall|i: int| 0 <= i < items.len() ==> #[trigger] array_model(items)[i] == items[i]@,
    decreases items.len(),
{
    if items.len() > 0 {
        lemma_array_model(items.drop_last());
        assert forall|i: int| 0 <= i < items.len() implies #[trigger] array_model(items)[i] == items[i]@ by {
            if i < items.len() - 1 {
                assert(array_model(items)[i] == array_model(items.drop_last())[i]);
            }
        }
    }
}

pub proof fn lemma_entries_model(entries: Seq<(String, OptionValue)>)
    ensures
        entries_model(entries).len() == entries.len(),
        forall|i: int|
            0 <= i < entries.len() ==> #[trigger] entries_model(entries)[i] == (entries[i].0@, entries[i].1@),
    decreases entries.len(),
{
    if entries.len() > 0 {
        lemma_entries_model(entries.drop_last());
        assert forall|i: int| 0 <= i < entries.len() implies #[trigger] entries_model(entries)[i] == (
            entries[i].0@,
            entries[i].1@,
        ) by {
            if i < entries.len() - 1 {
                assert(entries_model(entries)[i] == entries_model(entries.drop_last())[i]);
            }
        }
    }
}

/// What `put` gives, seen from the place where the key goes.
proof fn lemma_put_at(entries: Seq<(Seq<char>, ValueModel)>, key: Seq<char>, value: ValueModel, at: int)
    requires
        0 <= at <= entries.len(),
        forall|i: int| 0 <= i < at ==> before(#[trigger] entries[i].0, key),
        at < entries.len() ==> entries[at].0 == key || before(key, entries[at].0),
    ensures
        put(entries, key, value) == (if at < entries.len() && entries[at].0 == key {
            entries.update(at, (key, value))
        } else {
            entries.insert(at, (key, value))
        }),
    decreases entries.len(),
{
    lemma_before_irreflexive(key);
    if at == 0 {
        if entries.len() == 0 || before(key, entries[0].0) {
            assert(put(entries, key, value) =~= entries.insert(0, (key, value)));
        } else {
            assert(put(entries, key, value) =~= entries.update(0, (key, value)));
        }
    } else {
        let rest = entries.drop_first();
        assert(before(entries[0].0, key));
        if before(key, entries[0].0) {
            lemma_before_transitive(key, entries[0].0, key);
        }
        assert forall|i: int| 0 <= i < at - 1 implies before(#[trigger] rest[i].0, key) by {
            assert(rest[i] == entries[i + 1]);
        }
        lemma_put_at(rest, key, value, at - 1);
        if at < entries.len() && entries[at].0 == key {
            assert(put(entries, key, value) =~= entries.update(at, (key, value)));
        } else {
            assert(put(entries, key, value) =~= entries.insert(at, (key, value)));
        }
    }
}

/// `put` keeps the keys in order.
pub proof fn lemma_put_in_order(entries: Seq<(Seq<char>, ValueModel)>, key: Seq<char>, value: ValueModel)
    requires
        in_order(entries),
    ensures
        in_order(put(entries, key, value)),
        forall|i: int|
            0 <= i < put(entries, key, value).len() ==> (#[trigger] put(entries, key, value)[i].0 == key || exists|
                j: int,
            | 0 <= j < entries.len() && entries[j].0 == put(entries, key, value)[i].0),
    decreases entries.len(),
{
    let result = put(entries, key, value);
    if entries.len() == 0 {
    } else if before(key, entries[0].0) {
        assert forall|i: int, j: int| 0 <= i < j < result.len() implies before(
            #[trigger] result[i].0,
            #[trigger] result[j].0,
        ) by {
            if i == 0 {
                if j > 1 {
                    lemma_before_transitive(key, entries[0].0, entries[j - 1].0);
                }
            }
        }
        assert forall|i: int| 0 <= i < result.len() implies (#[trigger] result[i].0 == key || exists|j: int|
            0 <= j < entries.len() && entries[j].0 == result[i].0) by {
            if i > 0 {
                assert(entries[i - 1].0 == result[i].0);
            }
        }
    } else if entries[0].0 == key {
        assert forall|i: int| 0 <= i < result.len() implies (#[trigger] result[i].0 == key || exists|j: int|
            0 <= j < entries.len() && entries[j].0 == result[i].0) by {
            if i > 0 {
                assert(entries[i].0 == result[i].0);
            }
        }
    } else {
        let rest = entries.drop_first();
        assert(in_order(rest)) by {
            assert forall|i: int, j: int| 0 <= i < j < rest.len() implies before(
                #[trigger] rest[i].0,
                #[trigger] rest[j].0,
            ) by {
                assert(before(entries[i + 1].0, entries[j + 1].0));
            }
        }
        lemma_put_in_order(rest, key, value);
        lemma_before_total(key, entries[0].0);
        let tail = put(rest, key, value);
        assert(result =~= seq![entries[0]] + tail);
        assert forall|i: int| 0 <= i < tail.len() implies before(entries[0].0, #[trigger] tail[i].0) by {
            if tail[i].0 != key {
                let j = choose|j: int| 0 <= j < rest.len() && rest[j].0 == tail[i].0;
                assert(before(entries[0].0, entries[j + 1].0));
            }
        }
        assert forall|i: int, j: int| 0 <= i < j < result.len() implies before(
            #[trigger] result[i].0,
            #[trigger] result[j].0,
        ) by {
            assert(result[j] == tail[j - 1]);
            if i > 0 {
                assert(result[i] == tail[i - 1]);
            }
        }
        assert forall|i: int| 0 <= i < result.len() implies (#[trigger] result[i].0 == key || exists|j: int|
            0 <= j < entries.len() && entries[j].0 == result[i].0) by {
            if i == 0 {
                assert(entries[0].0 == result[0].0);
            } else {
                assert(result[i] == tail[i - 1]);
                if tail[i - 1].0 != key {
                    let j = choose|j: int| 0 <= j < rest.len() && rest[j].0 == tail[i - 1].0;
                    assert(entries[j + 1].0 == result[i].0);
                }
            }
        }
    }
}

/// What stands at a place of a table in order is what `get` finds there.
pub proof fn lemma_get_at(entries: Seq<(Seq<char>, ValueModel)>, at: int)
    requires
        0 <= at < entries.len(),
        forall|i: int| 0 <= i < at ==> #[trigger] entries[i].0 != entries[at].0,
    ensures
        get(entries, entries[at].0) == Some(entries[at].1),
    decreases entries.len(),
{
    if at > 0 {
        let rest = entries.drop_first();
        assert(entries[0].0 != entries[at].0);
        assert forall|i: int| 0 <= i < at - 1 implies #[trigger] rest[i].0 != rest[at - 1].0 by {
            assert(rest[i] == entries[i + 1]);
        }
        lemma_get_at(rest, at - 1);
    }
}

/// Where `get` finds nothing, no entry has the key.
pub proof fn lemma_get_none(entries: Seq<(Seq<char>, ValueModel)>, key: Seq<char>)
    ensures
        get(entries, key) is None <==> forall|i: int| 0 <= i < entries.len() ==> #[trigger] entries[i].0 != key,
    decreases entries.len(),
{
    if entries.len() > 0 {
        let rest = entries.drop_first();
        lemma_get_none(rest, key);
        if entries[0].0 != key {
            if get(rest, key) is None {
                assert forall|i: int| 0 <= i < entries.len() implies #[trigger] entries[i].0 != key by {
                    if i > 0 {
                        assert(entries[i] == rest[i - 1]);
                    }
                }
            } else {
                let i = choose|i: int| 0 <= i < rest.len() && rest[i].0 == key;
                assert(entries[i + 1].0 == key);
            }
        }
    }
}

/// A value that is put under a key is what stands there; what stands under the
/// other keys stays.
pub proof fn lemma_get_put(
    entries: Seq<(Seq<char>, ValueModel)>,
    key: Seq<char>,
    value: ValueModel,
    other: Seq<char>,
)
    ensures
        get(put(entries, key, value), key) == Some(value),
        other != key ==> get(put(entries, key, value), other) == get(entries, other),
    decreases entries.len(),
{
    let result = put(entries, key, value);
    if entries.len() == 0 || before(key, entries[0].0) {
        assert(result.drop_first() =~= entries);
    } else if entries[0].0 == key {
        assert(result.drop_first() =~= entries.drop_first());
    } else {
        let rest = entries.drop_first();
        lemma_get_put(rest, key, value, other);
        assert(result.drop_first() =~= put(rest, key, value));
    }
}

impl OptionTable {
    pub closed spec fn view(&self) -> Seq<(Seq<char>, ValueModel)>
        decreases self,
    {
        entries_model(self.entries@)
    }

    #[verifier::type_invariant]
    spec fn keys_in_order(self) -> bool {
        in_order(entries_model(self.entries@))
    }

    /// An empty table.
    pub fn new() -> (table: OptionTable)
        ensures
            table@ == Seq::<(Seq<char>, ValueModel)>::empty(),
    {
        OptionTable { entries: Vec::new() }
    }

    /// The number of entries, whose keys stand in order.
    pub fn len(&self) -> (count: usize)
        ensures
            count == self@.len(),
            in_order(self@),
    {
        proof {
            use_type_invariant(self);
            lemma_entries_model(self.entries@);
        }
        self.entries.len()
    }

    /// The key at a place.
    pub fn key_at(&self, index: usize) -> (key: &String)
        requires
            index < self@.len(),
        ensures
            key@ == self@[index as int].0,
    {
        proof {
            lemma_entries_model(self.entries@);
        }
        &self.entries[index].0
    }

    /// The value at a place.
    pub fn value_at(&self, index: usize) -> (value: &OptionValue)
        requires
            index < self@.len(),
        ensures
            value@ == self@[index as int].1,
    {
        proof {
            lemma_entries_model(self.entries@);
        }
        &self.entries[index].1
    }

    /// The value under `key`.
    pub fn get(&self, key: &str) -> (found: Option<&OptionValue>)
        ensures
            match found {
                Some(value) => get(self@, key@) == Some(value@),
                None => get(self@, key@) is None,
            },
    {
        let mut i: usize = 0;
        proof {
            lemma_entries_model(self.entries@);
        }
        while i < self.entries.len()
            invariant
                i <= self.entries.len(),
                self@ == entries_model(self.entries@),
                self@.len() == self.entries.len(),
                forall|j: int|
                    0 <= j < self.entries.len() ==> #[trigger] self@[j] == (
                        self.entries@[j].0@,
                        self.entries@[j].1@,
                    ),
                forall|j: int| 0 <= j < i ==> #[trigger] self@[j].0 != key@,
            decreases self.entries.len() - i,
        {
            if same(&self.entries[i].0, key) {
                proof {
                    lemma_get_at(self@, i as int);
                }
                return Some(&self.entries[i].1);
            }
            i = i + 1;
        }
        proof {
            lemma_get_none(self@, key@);
        }
        None
    }

    /// Puts `value` under `key`, in place of what stood there.
    pub fn insert(&mut self, key: &str, value: OptionValue)
        ensures
            final(self)@ == put(old(self)@, key@, value@),
    {
        proof {
            use_type_invariant(&*self);
        }
        let mut entries: Vec<(String, OptionValue)> = Vec::new();
        std::mem::swap(&mut entries, &mut self.entries);
        let ghost all = entries@;
        let ghost model = entries_model(all);
        proof {
            lemma_entries_model(all);
        }
        let mut i: usize = 0;
        let mut found: bool = false;
        while i < entries.len() && !found
            invariant
                i <= entries.len(),
                entries@ == all,
                model == entries_model(all),
                model.len() == all.len(),
                forall|j: int| 0 <= j < all.len() ==> #[trigger] model[j] == (all[j].0@, all[j].1@),
                forall|j: int| 0 <= j < i ==> before(#[trigger] model[j].0, key@),
                found ==> i < entries.len() && (model[i as int].0 == key@ || before(key@, model[i as int].0)),
            decreases entries.len() - i, !found as int,
        {
            match place(&entries[i].0, key) {
                Place::Before => {
                    i = i + 1;
                },
                Place::Same => {
                    found = true;
                },
                Place::After => {
                    found = true;
                },
            }
        }
        let replace: bool = i < entries.len() && same(&entries[i].0, key);
        let ghost entry = (key@, value@);
        proof {
            lemma_put_at(model, key@, value@, i as int);
            lemma_put_in_order(model, key@, value@);
        }
        if replace {
            entries.set(i, (key.to_owned(), value));
            proof {
                lemma_entries_model(entries@);
                assert(entries_model(entries@) =~= model.update(i as int, entry));
            }
        } else {
            entries.insert(i, (key.to_owned(), value));
            proof {
                lemma_entries_model(entries@);
                assert(entries_model(entries@) =~= model.insert(i as int, entry));
            }
        }
        self.entries = entries;
    }

    /// A copy.
    pub fn copy(&self) -> (copy: OptionTable)
        ensures
            copy@ == self@,
        decreases ValueModel::Table(self@), 0int,
    {
        let mut entries: Vec<(String, OptionValue)> = Vec::new();
        let ghost model = self@;
        let count: usize = self.len();
        let mut i: usize = 0;
        while i < count
            invariant
                i <= count,
                count == self@.len(),
                self@ == model,
                entries@.len() == i,
                forall|j: int| 0 <= j < i ==> model[j] == ((#[trigger] entries@[j]).0@, entries@[j].1@),
            decreases count - i,
        {
            proof {
                lemma_smaller_inside(ValueModel::Table(model), i as int);
            }
            let key = self.key_at(i).clone();
            let value = self.value_at(i).copy();
            entries.push((key, value));
            i = i + 1;
        }
        proof {
            lemma_entries_model(entries@);
            assert(entries_model(entries@) =~= model);
        }
        OptionTable { entries }
    }
}

impl OptionValue {
    /// A copy.
    pub fn copy(&self) -> (copy: OptionValue)
        ensures
            copy@ == self@,
        decreases self@, 1int,
    {
        match self {
            OptionValue::Text(text) => OptionValue::Text(text.clone()),
            OptionValue::Integer(number) => OptionValue::Integer(*number),
            OptionValue::Boolean(flag) => OptionValue::Boolean(*flag),
            OptionValue::Literal(literal) => OptionValue::Literal(literal.copy()),
            OptionValue::Array(items) => {
                let ghost model = array_model(items@);
                proof {
                    lemma_array_model(items@);
                }
                let mut copies: Vec<OptionValue> = Vec::new();
                let mut i: usize = 0;
                while i < items.len()
                    invariant
                        i <= items.len(),
                        model.len() == items.len(),
                        self@ == ValueModel::Array(model),
                        forall|j: int| 0 <= j < items@.len() ==> #[trigger] model[j] == items@[j]@,
                        copies@.len() == i,
                        forall|j: int| 0 <= j < i ==> (#[trigger] copies@[j])@ == model[j],
                    decreases items.len() - i,
                {
                    proof {
                        lemma_smaller_inside(self@, i as int);
                    }
                    copies.push(items[i].copy());
                    i = i + 1;
                }
                proof {
                    lemma_array_model(copies@);
                    assert(array_model(copies@) =~= model);
                }
                OptionValue::Array(copies)
            },
            OptionValue::Table(table) => OptionValue::Table(table.copy()),
        }
    }
}

/// The table of entries, in the order of their keys.
pub fn table_of(entries: Vec<(&str, OptionValue)>) -> (table: OptionTable)
    ensures
        table@ == sorted(pair_models(entries@)),
{
    let ghost model = pair_models(entries@);
    let mut table = OptionTable::new();
    for entry in iter: entries.into_iter()
        invariant
            iter.seq() == entries@,
            model == pair_models(entries@),
            table@ == sorted(model.take(iter.index() as int)),
    {
        proof {
            let i = iter.index() as int;
            assert(model.take(i + 1).drop_last() =~= model.take(i));
            assert(model[i] == (entry.0@, entry.1@));
        }
        table.insert(entry.0, entry.1);
    }
    proof {
        assert(model.take(model.len() as int) =~= model);
    }
    table
}

/// The models of entries.
pub open spec fn pair_models(entries: Seq<(&str, OptionValue)>) -> Seq<(Seq<char>, ValueModel)> {
    entries.map_values(|entry: (&str, OptionValue)| (entry.0@, entry.1@))
}

impl Clone for OptionTable {
    fn clone(&self) -> (copy: OptionTable)
        ensures
            copy@ == self@,
    {
        self.copy()
    }
}

impl Clone for OptionValue {
    fn clone(&self) -> (copy: OptionValue)
        ensures
            copy@ == self@,
    {
        self.copy()
    }
}

}
