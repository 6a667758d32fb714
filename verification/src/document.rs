//! TOML documents: what the `toml` crate makes of values, and writing documents with
//! it.
use vstd::prelude::*;

use crate::order::{before, lemma_before_irreflexive, lemma_before_transitive};
use crate::value::{
    array_model, canonical, canonical_entries, canonical_items, in_order, lemma_array_model, lemma_smaller_inside,
    put, OptionTable, OptionValue, ValueModel,
};
use crate::tree::{integer_of, parsed_tree, toml_document, TreeModel};

verus! {

/// `toml::Value`: a value of a document, which only the `toml` crate looks into.
#[verifier::external_type_specification]
#[verifier::external_body]
pub struct ExTomlValue(toml::Value);

/// What a value of the `toml` crate holds.
pub uninterp spec fn toml_value(value: toml::Value) -> ValueModel;

/// What the values of an array of the `toml` crate hold.
pub open spec fn toml_array(items: Seq<toml::Value>) -> Seq<ValueModel> {
    items.map_values(|item: toml::Value| toml_value(item))
}

/// What the entries of a table of the `toml` crate hold, in their order there.
pub open spec fn toml_entries(entries: Seq<(String, toml::Value)>) -> Seq<(Seq<char>, ValueModel)> {
    entries.map_values(|entry: (String, toml::Value)| (entry.0@, toml_value(entry.1)))
}

/// A value of the `toml` crate, taken apart by one level.
pub enum Opened {
    Text(String),
    Integer(i64),
    Boolean(bool),
    Literal(toml::Value),
    Array(Vec<toml::Value>),
    Table(Vec<(String, toml::Value)>),
}

impl Opened {
    pub open spec fn view(&self) -> ValueModel {
        match self {
            Opened::Text(text) => ValueModel::Text(text@),
            Opened::Integer(number) => ValueModel::Integer(*number),
            Opened::Boolean(flag) => ValueModel::Boolean(*flag),
            Opened::Literal(value) => toml_value(*value),
            Opened::Array(items) => ValueModel::Array(toml_array(items@)),
            Opened::Table(entries) => ValueModel::Table(toml_entries(entries@)),
        }
    }
}

/// Tells the variants of `toml::Value` apart. A float or a date-time stays a
/// value of the `toml` crate.
#[verifier::external_body]
fn open_value(value: toml::Value) -> (opened: Opened)
    ensures
        opened@ == toml_value(value),
        opened is Literal <==> toml_value(value) is Literal,
{
    match value {
        toml::Value::String(text) => Opened::Text(text),
        toml::Value::Integer(number) => Opened::Integer(number),
        toml::Value::Boolean(flag) => Opened::Boolean(flag),
        toml::Value::Float(_) => Opened::Literal(value),
        toml::Value::Datetime(_) => Opened::Literal(value),
        toml::Value::Array(items) => Opened::Array(items),
        toml::Value::Table(table) => Opened::Table(table.into_iter().collect()),
    }
}

/// Builds a `toml::Value`. A table keeps the order of its entries.
#[verifier::external_body]
pub(crate) fn close_value(opened: Opened) -> (value: toml::Value)
    requires
        opened matches Opened::Table(entries) ==> distinct(toml_entries(entries@)),
    ensures
        toml_value(value) == opened@,
{
    match opened {
        Opened::Text(text) => toml::Value::String(text),
        Opened::Integer(number) => toml::Value::Integer(number),
        Opened::Boolean(flag) => toml::Value::Boolean(flag),
        Opened::Literal(value) => value,
        Opened::Array(items) => toml::Value::Array(items),
        Opened::Table(entries) => toml::Value::Table(entries.into_iter().collect()),
    }
}

/// `toml::Value::clone`, which is derived: the copy is the value.
pub assume_specification[ <toml::Value as Clone>::clone ](value: &toml::Value) -> (copy: toml::Value)
    ensures
        copy == *value,
;

/// What a value of a document holds where a table of options is read from it, if
/// one can be.
pub uninterp spec fn toml_options(tree: TreeModel) -> Option<Seq<(Seq<char>, ValueModel)>>;

/// The TOML text of a document, or the message with which it is refused.
pub uninterp spec fn toml_text(entries: Seq<(Seq<char>, ValueModel)>) -> Result<Seq<char>, Seq<char>>;

/// Whether no key stands twice.
pub open spec fn distinct(entries: Seq<(Seq<char>, ValueModel)>) -> bool {
    forall|i: int, j: int| 0 <= i < j < entries.len() ==> #[trigger] entries[i].0 != #[trigger] entries[j].0
}

/// Whether a float or date-time of this text stands in the value.
pub open spec fn mentions(value: ValueModel, text: Seq<char>) -> bool
    decreases value,
{
    match value {
        ValueModel::Literal(own) => own == text,
        ValueModel::Array(items) => exists|i: int| 0 <= i < items.len() && mentions(#[trigger] items[i], text),
        ValueModel::Table(entries) => exists|i: int|
            0 <= i < entries.len() && mentions((#[trigger] entries[i]).1, text),
        _ => false,
    }
}

/// Whether a float or date-time of this text stands in the options that are read
/// from a value of a document.
pub open spec fn read_from(tree: TreeModel, text: Seq<char>) -> bool {
    toml_options(tree) matches Some(entries) && mentions(ValueModel::Table(entries), text)
}

/// Whether a float or date-time of this text stands in some document: one whose
/// fields are out of range stands in none.
pub open spec fn known_literal(text: Seq<char>) -> bool {
    exists|tree: TreeModel| read_from(tree, text)
}

/// Whether each float and date-time of the value is one that documents hold.
pub open spec fn printable(value: ValueModel) -> bool
    decreases value,
{
    match value {
        ValueModel::Literal(text) => known_literal(text),
        ValueModel::Array(items) => forall|i: int| 0 <= i < items.len() ==> printable(#[trigger] items[i]),
        ValueModel::Table(entries) => forall|i: int|
            0 <= i < entries.len() ==> printable((#[trigger] entries[i]).1),
        _ => true,
    }
}

/// The key by which the `toml` crate marks a date-time.
pub open spec fn marker() -> Seq<char> {
    "$__toml_private_datetime"@
}

/// Whether an array is written as sections, one for each of its tables.
pub open spec fn sectioned(items: Seq<ValueModel>) -> bool {
    items.len() > 0 && forall|i: int| 0 <= i < items.len() ==> (#[trigger] items[i]) is Table
}

/// Whether a value of a section is written on the line of its key: all but tables and
/// arrays of tables are.
pub open spec fn on_line(value: ValueModel) -> bool {
    match value {
        ValueModel::Array(items) => !sectioned(items),
        ValueModel::Table(_) => false,
        _ => true,
    }
}

/// The first key of a section whose value is written on its line.
pub open spec fn first_on_line(entries: Seq<(Seq<char>, ValueModel)>) -> Option<Seq<char>>
    decreases entries.len(),
{
    if entries.len() == 0 {
        None
    } else if on_line(entries[0].1) {
        Some(entries[0].0)
    } else {
        first_on_line(entries.drop_first())
    }
}

/// The key that is written first of a table: of one on a line the first, of a section
/// the first whose value is written on its line, where there is one.
pub open spec fn head(entries: Seq<(Seq<char>, ValueModel)>, line: bool) -> Option<Seq<char>> {
    if entries.len() == 0 {
        None
    } else if line || first_on_line(entries) is None {
        Some(entries[0].0)
    } else {
        first_on_line(entries)
    }
}

/// Whether no table in the value, itself included, is taken for a date-time where
/// it is read as a value of a table: none is written with the key first that marks one.
/// The value stands on a line, or not.
pub open spec fn untimed(value: ValueModel, line: bool) -> bool
    decreases value,
{
    match value {
        ValueModel::Array(items) => forall|i: int|
            0 <= i < items.len() ==> untimed(#[trigger] items[i], line || !sectioned(items)),
        ValueModel::Table(entries) => head(entries, line) != Some(marker()) && forall|i: int|
            0 <= i < entries.len() ==> untimed((#[trigger] entries[i]).1, line),
        _ => true,
    }
}

/// Whether no value of a table is taken for a date-time that is none. The table
/// itself may have any keys.
pub open spec fn values_untimed(entries: Seq<(Seq<char>, ValueModel)>, line: bool) -> bool {
    forall|i: int| 0 <= i < entries.len() ==> untimed((#[trigger] entries[i]).1, line)
}

/// Whether arrays and tables stand inside each other at most `depth` deep in the
/// value, itself counted.
pub open spec fn nested_within(value: ValueModel, depth: nat) -> bool
    decreases value,
{
    match value {
        ValueModel::Array(items) => depth > 0 && forall|i: int|
            0 <= i < items.len() ==> nested_within(#[trigger] items[i], (depth - 1) as nat),
        ValueModel::Table(entries) => depth > 0 && forall|i: int|
            0 <= i < entries.len() ==> nested_within((#[trigger] entries[i]).1, (depth - 1) as nat),
        _ => true,
    }
}

/// How deep the `toml` crate reads arrays and tables inside each other on a line,
/// and how many keys it reads in the header of a section.
pub const MAX_DEPTH: usize = 80;

/// Whether what is written for a value is not nested deeper than what is read, where
/// `room` keys more may stand in the header of a section. A table is written as a
/// section, and so is each table of an array of tables; other arrays stand on a line.
pub open spec fn fits(value: ValueModel, room: nat) -> bool
    decreases value,
{
    match value {
        ValueModel::Table(entries) => room > 0 && forall|i: int|
            0 <= i < entries.len() ==> fits((#[trigger] entries[i]).1, (room - 1) as nat),
        ValueModel::Array(items) => if sectioned(items) {
            forall|i: int| 0 <= i < items.len() ==> fits(#[trigger] items[i], room)
        } else {
            nested_within(value, MAX_DEPTH as nat)
        },
        _ => true,
    }
}

/// Whether a document is not nested deeper than what is read.
pub open spec fn document_fits(document: Seq<(Seq<char>, ValueModel)>) -> bool {
    fits(ValueModel::Table(document), (MAX_DEPTH + 1) as nat)
}

/// Whether a parsed value says the value, up to the order of the entries of tables. The
/// value was written on a line, or not.
pub open spec fn says(tree: TreeModel, value: ValueModel, line: bool) -> bool
    decreases value,
{
    match value {
        ValueModel::Text(text) => tree == TreeModel::Text(text),
        ValueModel::Integer(number) => tree matches TreeModel::Integer(digits, radix) && integer_of(
            digits,
            radix as nat,
        ) == Some(number as int),
        ValueModel::Boolean(flag) => tree == TreeModel::Boolean(flag),
        ValueModel::Literal(_) => tree is Float || tree is Datetime,
        ValueModel::Array(items) => tree matches TreeModel::Array(trees) && trees.len() == items.len() && forall|
            i: int,
        |
            0 <= i < items.len() ==> says(trees[i], #[trigger] items[i], line || !sectioned(items)),
        ValueModel::Table(entries) => {
            &&& tree matches TreeModel::Table(trees)
            &&& forall|i: int|
                0 <= i < entries.len() ==> exists|j: int|
                    0 <= j < trees.len() && #[trigger] trees[j].0 == #[trigger] entries[i].0
            &&& forall|j: int|
                0 <= j < trees.len() ==> exists|i: int|
                    0 <= i < entries.len() && #[trigger] entries[i].0 == trees[j].0 && says(
                        #[trigger] trees[j].1,
                        entries[i].1,
                        line,
                    )
            &&& values_untimed(entries, line) ==> (toml_options(tree) matches Some(read) && canonical_entries(read)
                == canonical_entries(entries))
        },
    }
}

/// Whether a text says the document, up to the order of the entries of its tables,
/// or nothing: it says something where the document is not nested deeper than what
/// is read.
pub open spec fn reads_back(document: Seq<(Seq<char>, ValueModel)>, text: Seq<char>) -> bool {
    &&& toml_document(text) matches Ok(trees) ==> says(TreeModel::Table(trees), ValueModel::Table(document), false)
    &&& document_fits(document) ==> toml_document(text) is Ok
}

/// `toml::Table::deserialize` on a `toml::de::ValueDeserializer`: reads a table of
/// options from a value of a document. The result depends on the value alone and is
/// named [`toml_options`]. What is said of a value from which none can be read is
/// left out.
#[verifier::external_body]
fn parse_options(value: &toml::de::DeValue<'_>) -> (options: Option<Vec<(String, toml::Value)>>)
    ensures
        match options {
            Some(entries) => toml_options(parsed_tree(*value)) == Some(toml_entries(entries@)),
            None => toml_options(parsed_tree(*value)) is None,
        },
{
    let deserializer = toml::de::ValueDeserializer::from(toml::Spanned::new(0..0, value.clone()));
    let table = <toml::Table as serde::de::Deserialize>::deserialize(deserializer).ok()?;
    Some(table.into_iter().collect())
}

/// `toml::to_string` of a `toml::Table`: writes a document. The result depends on
/// the document alone and is named [`toml_text`]. A document whose floats and
/// date-times documents hold is always written, and an entry takes at least a
/// character. What is written is parsed as the document, up to the order of the
/// entries of its tables, unless its nesting goes beyond what the parser takes. Where
/// a table of options is read from a table of it, it is the table, unless a value of
/// it is taken for a date-time: a table of which the key that marks one is written
/// first.
#[verifier::external_body]
pub(crate) fn print_document(entries: Vec<(String, toml::Value)>) -> (text: Result<String, String>)
    requires
        distinct(toml_entries(entries@)),
    ensures
        match text {
            Ok(text) => toml_text(toml_entries(entries@)) == Ok::<Seq<char>, Seq<char>>(text@),
            Err(message) => toml_text(toml_entries(entries@)) == Err::<Seq<char>, Seq<char>>(message@),
        },
        printable(ValueModel::Table(toml_entries(entries@))) ==> text is Ok,
        text is Ok && entries@.len() > 0 ==> text->Ok_0@.len() > 0,
        printable(ValueModel::Table(toml_entries(entries@))) ==> reads_back(toml_entries(entries@), text->Ok_0@),
{
    let table: toml::Table = entries.into_iter().collect();
    toml::to_string(&table).map_err(|error| error.to_string())
}

/// A float or a date-time, carried as the `toml` crate read it.
#[derive(Debug, PartialEq)]
pub struct Literal {
    value: toml::Value,
}

impl Literal {
    /// The text that TOML writes for it.
    pub closed spec fn view(&self) -> Seq<char> {
        toml_value(self.value)->Literal_0
    }

    #[verifier::type_invariant]
    spec fn was_read(self) -> bool {
        toml_value(self.value) is Literal && known_literal(toml_value(self.value)->Literal_0)
    }

    /// A copy.
    pub fn copy(&self) -> (copy: Literal)
        ensures
            copy@ == self@,
    {
        proof {
            use_type_invariant(self);
        }
        Literal { value: self.value.clone() }
    }
}

/// A value all of whose floats and date-times are known can be printed.
proof fn lemma_printable(value: ValueModel)
    requires
        forall|text: Seq<char>| #[trigger] mentions(value, text) ==> known_literal(text),
    ensures
        printable(value),
    decreases value,
{
    match value {
        ValueModel::Literal(text) => {
            assert(mentions(value, text));
        },
        ValueModel::Array(items) => {
            assert forall|i: int| 0 <= i < items.len() implies printable(#[trigger] items[i]) by {
                assert forall|text: Seq<char>| #[trigger] mentions(items[i], text) implies known_literal(text) by {
                    assert(mentions(value, text));
                }
                lemma_printable(items[i]);
            }
        },
        ValueModel::Table(entries) => {
            assert forall|i: int| 0 <= i < entries.len() implies printable((#[trigger] entries[i]).1) by {
                assert forall|text: Seq<char>| #[trigger] mentions(entries[i].1, text) implies known_literal(text) by {
                    assert(mentions(value, text));
                }
                lemma_printable(entries[i].1);
            }
        },
        _ => {},
    }
}

/// What stands in a value that can be printed can be printed.
proof fn lemma_printable_inside(value: ValueModel, i: int)
    requires
        printable(value),
    ensures
        value matches ValueModel::Array(items) ==> 0 <= i < items.len() ==> printable(items[i]),
        value matches ValueModel::Table(entries) ==> 0 <= i < entries.len() ==> printable(entries[i].1),
{
}

/// Options that are read can be printed.
proof fn lemma_read_printable(tree: TreeModel)
    requires
        toml_options(tree) is Some,
    ensures
        printable(ValueModel::Table(toml_options(tree)->0)),
{
    let value = ValueModel::Table(toml_options(tree)->0);
    assert forall|text: Seq<char>| #[trigger] mentions(value, text) implies known_literal(text) by {
        assert(read_from(tree, text));
    }
    lemma_printable(value);
}

/// Takes a value of the `toml` crate over, with its tables in the order of their
/// keys.
fn keep(value: toml::Value) -> (kept: OptionValue)
    requires
        printable(toml_value(value)),
    ensures
        kept@ == canonical(toml_value(value)),
    decreases toml_value(value), 1int,
{
    match open_value(value) {
        Opened::Text(text) => OptionValue::Text(text),
        Opened::Integer(number) => OptionValue::Integer(number),
        Opened::Boolean(flag) => OptionValue::Boolean(flag),
        Opened::Literal(value) => OptionValue::Literal(Literal { value }),
        Opened::Array(items) => {
            let ghost model = toml_array(items@);
            let mut kept: Vec<OptionValue> = Vec::new();
            for item in iter: items.into_iter()
                invariant
                    iter.seq() == items@,
                    model == toml_array(items@),
                    ValueModel::Array(model) == toml_value(value),
                    printable(toml_value(value)),
                    array_model(kept@) == canonical_items(model.take(iter.index() as int)),
            {
                proof {
                    let i = iter.index() as int;
                    assert(model.take(i + 1).drop_last() =~= model.take(i));
                    assert(model[i] == toml_value(item));
                    lemma_printable_inside(toml_value(value), i);
                    lemma_smaller_inside(toml_value(value), i);
                }
                let next = keep(item);
                let ghost before = kept@;
                kept.push(next);
                proof {
                    assert(kept@.drop_last() =~= before);
                }
            }
            proof {
                assert(model.take(model.len() as int) =~= model);
            }
            OptionValue::Array(kept)
        },
        Opened::Table(entries) => OptionValue::Table(keep_table(entries)),
    }
}

/// Takes the entries of a table of the `toml` crate over, in the order of their
/// keys.
fn keep_table(entries: Vec<(String, toml::Value)>) -> (kept: OptionTable)
    requires
        printable(ValueModel::Table(toml_entries(entries@))),
    ensures
        kept@ == canonical_entries(toml_entries(entries@)),
    decreases ValueModel::Table(toml_entries(entries@)), 0int,
{
    let ghost model = toml_entries(entries@);
    let mut kept = OptionTable::new();
    for entry in iter: entries.into_iter()
        invariant
            iter.seq() == entries@,
            model == toml_entries(entries@),
            printable(ValueModel::Table(model)),
            kept@ == canonical_entries(model.take(iter.index() as int)),
    {
        proof {
            let i = iter.index() as int;
            assert(model.take(i + 1).drop_last() =~= model.take(i));
            assert(model[i] == (entry.0@, toml_value(entry.1)));
            lemma_printable_inside(ValueModel::Table(model), i);
            lemma_smaller_inside(ValueModel::Table(model), i);
        }
        let value = keep(entry.1);
        kept.insert(&entry.0, value);
    }
    proof {
        assert(model.take(model.len() as int) =~= model);
    }
    kept
}

/// The options that a value of a document gives, in the order of their keys.
pub open spec fn options_of(tree: TreeModel) -> Option<Seq<(Seq<char>, ValueModel)>> {
    match toml_options(tree) {
        Some(entries) => Some(canonical_entries(entries)),
        None => None,
    }
}

/// Reads a table of options from a value of a document.
pub(crate) fn read_options(value: &toml::de::DeValue<'_>) -> (options: Option<OptionTable>)
    ensures
        match options {
            Some(table) => options_of(parsed_tree(*value)) == Some(table@),
            None => options_of(parsed_tree(*value)) is None,
        },
{
    match parse_options(value) {
        Some(entries) => {
            proof {
                lemma_read_printable(parsed_tree(*value));
            }
            Some(keep_table(entries))
        },
        None => None,
    }
}

/// Whether the tables in the value are in the order of their keys and its floats
/// and date-times are ones that documents hold.
pub open spec fn ordered(value: ValueModel) -> bool
    decreases value,
{
    match value {
        ValueModel::Literal(text) => known_literal(text),
        ValueModel::Array(items) => forall|i: int| 0 <= i < items.len() ==> ordered(#[trigger] items[i]),
        ValueModel::Table(entries) => in_order(entries) && forall|i: int|
            0 <= i < entries.len() ==> ordered((#[trigger] entries[i]).1),
        _ => true,
    }
}

/// Hands a value to the `toml` crate.
pub(crate) fn release(value: &OptionValue) -> (released: toml::Value)
    ensures
        toml_value(released) == value@,
        ordered(value@),
    decreases value@, 1int,
{
    match value {
        OptionValue::Text(text) => close_value(Opened::Text(text.clone())),
        OptionValue::Integer(number) => close_value(Opened::Integer(*number)),
        OptionValue::Boolean(flag) => close_value(Opened::Boolean(*flag)),
        OptionValue::Literal(literal) => {
            proof {
                use_type_invariant(literal);
            }
            close_value(Opened::Literal(literal.value.clone()))
        },
        OptionValue::Array(items) => {
            let ghost model = array_model(items@);
            proof {
                lemma_array_model(items@);
            }
            let mut released: Vec<toml::Value> = Vec::new();
            let mut i: usize = 0;
            while i < items.len()
                invariant
                    i <= items.len(),
                    model.len() == items.len(),
                    value@ == ValueModel::Array(model),
                    forall|j: int| 0 <= j < items@.len() ==> #[trigger] model[j] == items@[j]@,
                    released@.len() == i,
                    forall|j: int| 0 <= j < i ==> toml_value(#[trigger] released@[j]) == model[j],
                    forall|j: int| 0 <= j < i ==> ordered(#[trigger] model[j]),
                decreases items.len() - i,
            {
                proof {
                    lemma_smaller_inside(value@, i as int);
                }
                released.push(release(&items[i]));
                i = i + 1;
            }
            proof {
                assert(toml_array(released@) =~= model);
            }
            close_value(Opened::Array(released))
        },
        OptionValue::Table(table) => {
            let entries = release_table(table);
            proof {
                lemma_in_order_distinct(table@);
            }
            close_value(Opened::Table(entries))
        },
    }
}

/// Keys in order are distinct.
pub proof fn lemma_in_order_distinct(entries: Seq<(Seq<char>, ValueModel)>)
    requires
        in_order(entries),
    ensures
        distinct(entries),
{
    assert forall|i: int, j: int| 0 <= i < j < entries.len() implies #[trigger] entries[i].0
        != #[trigger] entries[j].0 by {
        assert(before(entries[i].0, entries[j].0));
        lemma_before_irreflexive(entries[i].0);
    }
}

/// Hands the entries of a table to the `toml` crate.
pub(crate) fn release_table(table: &OptionTable) -> (released: Vec<(String, toml::Value)>)
    ensures
        toml_entries(released@) == table@,
        ordered(ValueModel::Table(table@)),
    decreases ValueModel::Table(table@), 0int,
{
    let ghost model = table@;
    let mut released: Vec<(String, toml::Value)> = Vec::new();
    let mut i: usize = 0;
    let count: usize = table.len();
    while i < count
        invariant
            i <= count,
            count == model.len(),
            table@ == model,
            released@.len() == i,
            forall|j: int|
                0 <= j < i ==> model[j] == ((#[trigger] released@[j]).0@, toml_value(released@[j].1)),
            forall|j: int| 0 <= j < i ==> ordered((#[trigger] model[j]).1),
        decreases count - i,
    {
        proof {
            lemma_smaller_inside(ValueModel::Table(model), i as int);
        }
        let key = table.key_at(i).clone();
        let value = release(table.value_at(i));
        released.push((key, value));
        i = i + 1;
    }
    proof {
        assert(toml_entries(released@) =~= model);
    }
    released
}

/// Writes a document. Its text says it.
pub fn print_table(table: &OptionTable) -> (text: Result<String, String>)
    ensures
        text is Ok,
        toml_text(table@) == Ok::<Seq<char>, Seq<char>>(text->Ok_0@),
        reads_back(table@, text->Ok_0@),
{
    let entries = release_table(table);
    proof {
        lemma_canonical_ordered(ValueModel::Table(table@));
        lemma_in_order_distinct(table@);
    }
    print_document(entries)
}

/// Putting the last entry of a table in order back gives the table.
proof fn lemma_put_last(entries: Seq<(Seq<char>, ValueModel)>)
    requires
        in_order(entries),
        entries.len() > 0,
    ensures
        put(entries.drop_last(), entries.last().0, entries.last().1) == entries,
    decreases entries.len(),
{
    let key = entries.last().0;
    let rest = entries.drop_last();
    if rest.len() > 0 {
        assert(before(entries[0].0, key));
        lemma_before_irreflexive(key);
        if before(key, entries[0].0) {
            lemma_before_transitive(key, entries[0].0, key);
        }
        let tail = entries.drop_first();
        assert forall|i: int, j: int| 0 <= i < j < tail.len() implies before(
            #[trigger] tail[i].0,
            #[trigger] tail[j].0,
        ) by {
            assert(before(entries[i + 1].0, entries[j + 1].0));
        }
        lemma_put_last(tail);
        assert(rest.drop_first() =~= tail.drop_last());
        assert(seq![entries[0]] + tail =~= entries);
    } else {
        assert(put(rest, key, entries.last().1) =~= entries);
    }
}

/// A value whose tables are in order is its own canonical form.
pub proof fn lemma_canonical_ordered(value: ValueModel)
    requires
        ordered(value),
    ensures
        canonical(value) == value,
        printable(value),
    decreases value, 1int,
{
    match value {
        ValueModel::Array(items) => {
            lemma_canonical_items_ordered(items);
            assert forall|i: int| 0 <= i < items.len() implies printable(#[trigger] items[i]) by {
                lemma_smaller_inside(value, i);
                lemma_canonical_ordered(items[i]);
            }
        },
        ValueModel::Table(entries) => {
            lemma_canonical_entries_ordered(entries);
            assert forall|i: int| 0 <= i < entries.len() implies printable((#[trigger] entries[i]).1) by {
                lemma_smaller_inside(value, i);
                lemma_canonical_ordered(entries[i].1);
            }
        },
        _ => {},
    }
}

proof fn lemma_canonical_items_ordered(items: Seq<ValueModel>)
    requires
        forall|i: int| 0 <= i < items.len() ==> ordered(#[trigger] items[i]),
    ensures
        canonical_items(items) == items,
    decreases items, 0int,
{
    if items.len() > 0 {
        lemma_canonical_items_ordered(items.drop_last());
        assert(ordered(items[items.len() - 1]));
        lemma_canonical_ordered(items.last());
        assert(items.drop_last().push(items.last()) =~= items);
    }
}

pub proof fn lemma_canonical_entries_ordered(entries: Seq<(Seq<char>, ValueModel)>)
    requires
        in_order(entries),
        forall|i: int| 0 <= i < entries.len() ==> ordered((#[trigger] entries[i]).1),
    ensures
        canonical_entries(entries) == entries,
    decreases entries, 0int,
{
    if entries.len() > 0 {
        lemma_canonical_entries_ordered(entries.drop_last());
        assert(ordered(entries[entries.len() - 1].1));
        assert(decreases_to!(entries => entries[entries.len() - 1]));
        assert(decreases_to!(entries[entries.len() - 1] => entries[entries.len() - 1].1));
        lemma_canonical_ordered(entries.last().1);
        lemma_put_last(entries);
    }
}

/// What stands in a table after something was put into it stood there, or is what
/// was put.
proof fn lemma_put_inside(entries: Seq<(Seq<char>, ValueModel)>, key: Seq<char>, value: ValueModel, i: int)
    requires
        0 <= i < put(entries, key, value).len(),
    ensures
        put(entries, key, value)[i] == (key, value) || exists|j: int|
            0 <= j < entries.len() && #[trigger] entries[j] == put(entries, key, value)[i],
    decreases entries.len(),
{
    let after = put(entries, key, value);
    if entries.len() == 0 || before(key, entries[0].0) {
        if i > 0 {
            assert(entries[i - 1] == after[i]);
        }
    } else if entries[0].0 == key {
        if i > 0 {
            assert(entries[i] == after[i]);
        }
    } else {
        let rest = entries.drop_first();
        if i > 0 {
            lemma_put_inside(rest, key, value, i - 1);
            let inner = put(rest, key, value);
            assert(after[i] == inner[i - 1]);
            if inner[i - 1] != (key, value) {
                let j = choose|j: int| 0 <= j < rest.len() && #[trigger] rest[j] == inner[i - 1];
                assert(entries[j + 1] == after[i]);
            }
        } else {
            assert(entries[0] == after[0]);
        }
    }
}

/// Putting a value in order does not nest it deeper.
pub proof fn lemma_nested_canonical(value: ValueModel, depth: nat)
    requires
        nested_within(value, depth),
    ensures
        nested_within(canonical(value), depth),
    decreases value, 1int,
{
    match value {
        ValueModel::Array(items) => {
            lemma_nested_items(items, (depth - 1) as nat);
            let after = canonical(value);
            assert(after->Array_0 == canonical_items(items));
        },
        ValueModel::Table(entries) => {
            lemma_nested_entries(entries, (depth - 1) as nat);
            let after = canonical(value);
            assert(after->Table_0 == canonical_entries(entries));
        },
        _ => {},
    }
}

proof fn lemma_nested_items(items: Seq<ValueModel>, depth: nat)
    requires
        forall|i: int| 0 <= i < items.len() ==> nested_within(#[trigger] items[i], depth),
    ensures
        forall|i: int|
            0 <= i < canonical_items(items).len() ==> nested_within(#[trigger] canonical_items(items)[i], depth),
    decreases items, 0int,
{
    if items.len() > 0 {
        lemma_nested_items(items.drop_last(), depth);
        assert(nested_within(items[items.len() - 1], depth));
        lemma_nested_canonical(items.last(), depth);
        let front = canonical_items(items.drop_last());
        let after = canonical_items(items);
        assert forall|i: int| 0 <= i < after.len() implies nested_within(#[trigger] after[i], depth) by {
            if i < front.len() {
                assert(after[i] == front[i]);
            }
        }
    }
}

proof fn lemma_nested_entries(entries: Seq<(Seq<char>, ValueModel)>, depth: nat)
    requires
        forall|i: int| 0 <= i < entries.len() ==> nested_within((#[trigger] entries[i]).1, depth),
    ensures
        forall|i: int|
            0 <= i < canonical_entries(entries).len() ==> nested_within(
                (#[trigger] canonical_entries(entries)[i]).1,
                depth,
            ),
    decreases entries, 0int,
{
    if entries.len() > 0 {
        lemma_nested_entries(entries.drop_last(), depth);
        assert(nested_within(entries[entries.len() - 1].1, depth));
        assert(decreases_to!(entries => entries[entries.len() - 1]));
        assert(decreases_to!(entries[entries.len() - 1] => entries[entries.len() - 1].1));
        lemma_nested_canonical(entries.last().1, depth);
        let front = canonical_entries(entries.drop_last());
        let after = canonical_entries(entries);
        assert forall|i: int| 0 <= i < after.len() implies nested_within((#[trigger] after[i]).1, depth) by {
            lemma_put_inside(front, entries.last().0, canonical(entries.last().1), i);
        }
    }
}

/// A value that is nested at most so deep is nested at most deeper.
pub proof fn lemma_nested_deeper(value: ValueModel, depth: nat, deeper: nat)
    requires
        nested_within(value, depth),
        depth <= deeper,
    ensures
        nested_within(value, deeper),
    decreases value,
{
    match value {
        ValueModel::Array(items) => {
            assert forall|i: int| 0 <= i < items.len() implies nested_within(
                #[trigger] items[i],
                (deeper - 1) as nat,
            ) by {
                lemma_smaller_inside(value, i);
                lemma_nested_deeper(items[i], (depth - 1) as nat, (deeper - 1) as nat);
            }
        },
        ValueModel::Table(entries) => {
            assert forall|i: int| 0 <= i < entries.len() implies nested_within(
                (#[trigger] entries[i]).1,
                (deeper - 1) as nat,
            ) by {
                lemma_smaller_inside(value, i);
                lemma_nested_deeper(entries[i].1, (depth - 1) as nat, (deeper - 1) as nat);
            }
        },
        _ => {},
    }
}

/// A table of values that are nested at most so deep is nested once more.
pub proof fn lemma_table_nested(entries: Seq<(Seq<char>, ValueModel)>, depth: nat)
    requires
        forall|i: int| 0 <= i < entries.len() ==> nested_within((#[trigger] entries[i]).1, depth),
    ensures
        nested_within(ValueModel::Table(entries), depth + 1),
{
    let table = ValueModel::Table(entries);
    assert(table->Table_0 == entries);
}

/// A value that is not nested deep fits.
pub proof fn lemma_shallow_fits(value: ValueModel, depth: nat, room: nat)
    requires
        nested_within(value, depth),
        depth <= room,
        depth <= MAX_DEPTH,
    ensures
        fits(value, room),
    decreases value,
{
    match value {
        ValueModel::Array(items) => {
            if sectioned(items) {
                assert forall|i: int| 0 <= i < items.len() implies fits(#[trigger] items[i], room) by {
                    lemma_smaller_inside(value, i);
                    lemma_shallow_fits(items[i], (depth - 1) as nat, room);
                }
            } else {
                lemma_nested_deeper(value, depth, MAX_DEPTH as nat);
            }
        },
        ValueModel::Table(entries) => {
            assert forall|i: int| 0 <= i < entries.len() implies fits((#[trigger] entries[i]).1, (room - 1) as nat) by {
                lemma_smaller_inside(value, i);
                lemma_shallow_fits(entries[i].1, (depth - 1) as nat, (room - 1) as nat);
            }
        },
        _ => {},
    }
}

}
