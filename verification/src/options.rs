//! Which options a profile may carry: none that points into the local machine.
use vstd::prelude::*;

use crate::text::{chars_are, chars_end_with, lower_chars, lowercase};
use crate::value::{lemma_smaller_inside, array_model, lemma_array_model, OptionTable, OptionValue, ValueModel};

verus! {

/// Whether a key names a path, a program or another local resource, in capitals
/// or not.
pub open spec fn privileged_key(key: Seq<char>) -> bool {
    let name = lowercase(key);
    ||| name == "path"@
    ||| name == "file"@
    ||| name == "directory"@
    ||| name == "socket"@
    ||| name == "command"@
    ||| name == "script"@
    ||| name == "packages"@
    ||| name == "state"@
    ||| name == "log"@
    ||| "_path"@.is_suffix_of(name)
    ||| "_file"@.is_suffix_of(name)
    ||| "_directory"@.is_suffix_of(name)
}

/// Whether a key of the table is privileged, or one of a table in it: directly,
/// or as an item of an array.
pub open spec fn privileged(table: ValueModel) -> bool
    decreases table,
{
    match table {
        ValueModel::Table(entries) => exists|i: int| 0 <= i < entries.len() && privileged_entry(#[trigger] entries[i]),
        _ => false,
    }
}

/// Whether an entry makes its table privileged.
pub open spec fn privileged_entry(entry: (Seq<char>, ValueModel)) -> bool
    decreases entry,
{
    privileged_key(entry.0) || match entry.1 {
        ValueModel::Table(_) => privileged(entry.1),
        ValueModel::Array(items) => privileged_item(items),
        _ => false,
    }
}

/// Whether an item of an array is a privileged table.
pub open spec fn privileged_item(items: Seq<ValueModel>) -> bool
    decreases items,
{
    exists|j: int| 0 <= j < items.len() && privileged(#[trigger] items[j])
}

/// Tells whether a key is privileged.
fn is_privileged_key(key: &str) -> (found: bool)
    ensures
        found == privileged_key(key@),
{
    let name = lower_chars(key);
    chars_are(&name, "path") || chars_are(&name, "file") || chars_are(&name, "directory") || chars_are(
        &name,
        "socket",
    ) || chars_are(&name, "command") || chars_are(&name, "script") || chars_are(&name, "packages") || chars_are(
        &name,
        "state",
    ) || chars_are(&name, "log") || chars_end_with(&name, "_path") || chars_end_with(&name, "_file")
        || chars_end_with(&name, "_directory")
}

/// Tells whether a table holds a privileged option.
pub fn contains_privileged_option(table: &OptionTable) -> (found: bool)
    ensures
        found == privileged(ValueModel::Table(table@)),
    decreases ValueModel::Table(table@),
{
    let ghost whole = ValueModel::Table(table@);
    let count: usize = table.len();
    let mut i: usize = 0;
    while i < count
        invariant
            i <= count,
            count == table@.len(),
            whole == ValueModel::Table(table@),
            forall|j: int| 0 <= j < i ==> !privileged_entry(#[trigger] table@[j]),
        decreases count - i,
    {
        proof {
            lemma_smaller_inside(whole, i as int);
        }
        let found: bool = is_privileged_key(table.key_at(i)) || match table.value_at(i) {
            OptionValue::Table(inner) => contains_privileged_option(inner),
            OptionValue::Array(items) => any_privileged(items),
            _ => false,
        };
        assert(found == privileged_entry(table@[i as int])) by {
            reveal_with_fuel(privileged_entry, 2);
        }
        if found {
            return true;
        }
        i = i + 1;
    }
    false
}

/// Tells whether an item of an array is a table that holds a privileged option.
fn any_privileged(items: &Vec<OptionValue>) -> (found: bool)
    ensures
        found == privileged_item(array_model(items@)),
    decreases ValueModel::Array(array_model(items@)),
{
    let ghost model = array_model(items@);
    proof {
        lemma_array_model(items@);
    }
    let mut i: usize = 0;
    while i < items.len()
        invariant
            i <= items.len(),
            model == array_model(items@),
            model.len() == items.len(),
            forall|j: int| 0 <= j < items@.len() ==> #[trigger] model[j] == items@[j]@,
            forall|j: int| 0 <= j < i ==> !privileged(#[trigger] model[j]),
        decreases items.len() - i,
    {
        proof {
            lemma_smaller_inside(ValueModel::Array(model), i as int);
        }
        let found: bool = match &items[i] {
            OptionValue::Table(inner) => contains_privileged_option(inner),
            _ => false,
        };
        if found {
            proof {
                assert(privileged(model[i as int]));
            }
            return true;
        }
        i = i + 1;
    }
    false
}

}
