//! Documents as the library reads them: trees in which each value can also be taken
//! for a table of options.
use vstd::prelude::*;

use crate::document::{options_of, read_options};
use crate::text::same;
use crate::tree::{
    parse_document, parsed_entries, parsed_items, parsed_tree, read_unsigned, take_apart, toml_document, unsigned_of,
    Parsed, TreeModel,
};
use crate::value::{OptionTable, ValueModel};

verus! {

/// What a value of a document is.
#[derive(Debug, PartialEq)]
pub enum Shape {
    Text(String),
    /// An integer that fits in `u64`.
    Number(u64),
    Array(Vec<Node>),
    /// A table, in the order of the document.
    Table(Vec<(String, Node)>),
    /// Any other value.
    Other,
}

/// A value of a document.
#[derive(Debug, PartialEq)]
pub struct Node {
    pub shape: Shape,
    /// What it holds where a table of options is read from it, if one can be.
    pub options: Option<OptionTable>,
}

/// The model of [`Shape`].
pub enum ShapeModel {
    Text(Seq<char>),
    Number(u64),
    Array(Seq<NodeModel>),
    Table(Seq<(Seq<char>, NodeModel)>),
    Other,
}

/// The model of [`Node`].
pub struct NodeModel {
    pub shape: ShapeModel,
    pub options: Option<Seq<(Seq<char>, ValueModel)>>,
}

/// The model of options that may be missing.
pub open spec fn optional_options(options: Option<OptionTable>) -> Option<Seq<(Seq<char>, ValueModel)>> {
    match options {
        Some(table) => Some(table@),
        None => None,
    }
}

impl Shape {
    pub open spec fn view(&self) -> ShapeModel
        decreases self,
    {
        match self {
            Shape::Text(text) => ShapeModel::Text(text@),
            Shape::Number(number) => ShapeModel::Number(*number),
            Shape::Array(items) => ShapeModel::Array(item_nodes(items@)),
            Shape::Table(entries) => ShapeModel::Table(entry_nodes(entries@)),
            Shape::Other => ShapeModel::Other,
        }
    }
}

impl Node {
    pub open spec fn view(&self) -> NodeModel
        decreases self,
    {
        NodeModel { shape: self.shape.view(), options: optional_options(self.options) }
    }
}

/// The models of the items of an array.
pub open spec fn item_nodes(items: Seq<Node>) -> Seq<NodeModel>
    decreases items,
{
    if items.len() == 0 {
        Seq::empty()
    } else {
        item_nodes(items.drop_last()).push(items.last().view())
    }
}

/// The models of the entries of a table.
pub open spec fn entry_nodes(entries: Seq<(String, Node)>) -> Seq<(Seq<char>, NodeModel)>
    decreases entries,
{
    if entries.len() == 0 {
        Seq::empty()
    } else {
        entry_nodes(entries.drop_last()).push((entries.last().0@, entries.last().1.view()))
    }
}

pub proof fn lemma_item_nodes(items: Seq<Node>)
    ensures
        item_nodes(items).len() == items.len(),
        forall|i: int| 0 <= i < items.len() ==> #[trigger] item_nodes(items)[i] == items[i]@,
    decreases items.len(),
{
    if items.len() > 0 {
        lemma_item_nodes(items.drop_last());
        assert forall|i: int| 0 <= i < items.len() implies #[trigger] item_nodes(items)[i] == items[i]@ by {
            if i < items.len() - 1 {
                assert(item_nodes(items)[i] == item_nodes(items.drop_last())[i]);
            }
        }
    }
}

pub proof fn lemma_entry_nodes(entries: Seq<(String, Node)>)
    ensures
        entry_nodes(entries).len() == entries.len(),
        forall|i: int|
            0 <= i < entries.len() ==> #[trigger] entry_nodes(entries)[i] == (entries[i].0@, entries[i].1@),
    decreases entries.len(),
{
    if entries.len() > 0 {
        lemma_entry_nodes(entries.drop_last());
        assert forall|i: int| 0 <= i < entries.len() implies #[trigger] entry_nodes(entries)[i] == (
            entries[i].0@,
            entries[i].1@,
        ) by {
            if i < entries.len() - 1 {
                assert(entry_nodes(entries)[i] == entry_nodes(entries.drop_last())[i]);
            }
        }
    }
}

/// The node of a parsed value.
pub open spec fn node_of(tree: TreeModel) -> NodeModel
    decreases tree, 1int,
{
    NodeModel { shape: shape_of(tree), options: options_of(tree) }
}

/// The shape of a parsed value.
pub open spec fn shape_of(tree: TreeModel) -> ShapeModel
    decreases tree, 0int,
{
    match tree {
        TreeModel::Text(text) => ShapeModel::Text(text),
        TreeModel::Integer(digits, radix) => match unsigned_of(digits, radix as nat) {
            Some(number) => ShapeModel::Number(number),
            None => ShapeModel::Other,
        },
        TreeModel::Array(items) => ShapeModel::Array(nodes_of_items(items)),
        TreeModel::Table(entries) => ShapeModel::Table(nodes_of_entries(entries)),
        _ => ShapeModel::Other,
    }
}

/// The nodes of the items of an array.
pub open spec fn nodes_of_items(items: Seq<TreeModel>) -> Seq<NodeModel>
    decreases items, 2int,
{
    if items.len() == 0 {
        Seq::empty()
    } else {
        nodes_of_items(items.drop_last()).push(node_of(items.last()))
    }
}

/// The nodes of the entries of a table.
pub open spec fn nodes_of_entries(entries: Seq<(Seq<char>, TreeModel)>) -> Seq<(Seq<char>, NodeModel)>
    decreases entries, 2int,
{
    if entries.len() == 0 {
        Seq::empty()
    } else {
        nodes_of_entries(entries.drop_last()).push((entries.last().0, node_of(entries.last().1)))
    }
}

pub proof fn lemma_nodes_of_items(items: Seq<TreeModel>)
    ensures
        nodes_of_items(items).len() == items.len(),
        forall|i: int| 0 <= i < items.len() ==> #[trigger] nodes_of_items(items)[i] == node_of(items[i]),
    decreases items.len(),
{
    if items.len() > 0 {
        lemma_nodes_of_items(items.drop_last());
        assert forall|i: int| 0 <= i < items.len() implies #[trigger] nodes_of_items(items)[i] == node_of(items[i]) by {
            if i < items.len() - 1 {
                assert(nodes_of_items(items)[i] == nodes_of_items(items.drop_last())[i]);
            }
        }
    }
}

pub proof fn lemma_nodes_of_entries(entries: Seq<(Seq<char>, TreeModel)>)
    ensures
        nodes_of_entries(entries).len() == entries.len(),
        forall|i: int|
            0 <= i < entries.len() ==> #[trigger] nodes_of_entries(entries)[i] == (entries[i].0, node_of(entries[i].1)),
    decreases entries.len(),
{
    if entries.len() > 0 {
        lemma_nodes_of_entries(entries.drop_last());
        assert forall|i: int| 0 <= i < entries.len() implies #[trigger] nodes_of_entries(entries)[i] == (
            entries[i].0,
            node_of(entries[i].1),
        ) by {
            if i < entries.len() - 1 {
                assert(nodes_of_entries(entries)[i] == nodes_of_entries(entries.drop_last())[i]);
            }
        }
    }
}

/// What stands in a parsed value is smaller than the value.
proof fn lemma_smaller_tree(tree: TreeModel, i: int)
    ensures
        tree matches TreeModel::Array(items) ==> 0 <= i < items.len() ==> decreases_to!(tree => items[i]),
        tree matches TreeModel::Table(entries) ==> 0 <= i < entries.len() ==> decreases_to!(tree => entries[i].1),
{
    match tree {
        TreeModel::Array(items) => {
            if 0 <= i < items.len() {
                assert(decreases_to!(tree => items));
                assert(decreases_to!(items => items[i]));
            }
        },
        TreeModel::Table(entries) => {
            if 0 <= i < entries.len() {
                assert(decreases_to!(tree => entries));
                assert(decreases_to!(entries => entries[i]));
                assert(decreases_to!(entries[i] => entries[i].1));
            }
        },
        _ => {},
    }
}

/// Takes a parsed value over.
fn take_value(value: toml::de::DeValue<'_>) -> (node: Node)
    ensures
        node@ == node_of(parsed_tree(value)),
    decreases parsed_tree(value), 1int,
{
    let options = read_options(&value);
    let ghost tree = parsed_tree(value);
    let shape = match take_apart(value) {
        Parsed::Text(text) => Shape::Text(text),
        Parsed::Integer(digits, radix) => match read_unsigned(&digits, radix) {
            Some(number) => Shape::Number(number),
            None => Shape::Other,
        },
        Parsed::Array(items) => {
            let ghost model = parsed_items(items@);
            let mut nodes: Vec<Node> = Vec::new();
            for item in iter: items.into_iter()
                invariant
                    iter.seq() == items@,
                    model == parsed_items(items@),
                    TreeModel::Array(model) == tree,
                    tree == parsed_tree(value),
                    item_nodes(nodes@) == nodes_of_items(model.take(iter.index() as int)),
            {
                proof {
                    let i = iter.index() as int;
                    assert(model.take(i + 1).drop_last() =~= model.take(i));
                    assert(model[i] == parsed_tree(item));
                    lemma_smaller_tree(tree, i);
                }
                let node = take_value(item);
                let ghost before = nodes@;
                nodes.push(node);
                proof {
                    assert(nodes@.drop_last() =~= before);
                }
            }
            proof {
                assert(model.take(model.len() as int) =~= model);
            }
            Shape::Array(nodes)
        },
        Parsed::Table(entries) => Shape::Table(take_entries(entries)),
        Parsed::Boolean(_) => Shape::Other,
        Parsed::Float(_) => Shape::Other,
        Parsed::Datetime(_) => Shape::Other,
    };
    Node { shape, options }
}

/// Takes the entries of a parsed table over.
fn take_entries(entries: Vec<(String, toml::de::DeValue<'_>)>) -> (nodes: Vec<(String, Node)>)
    ensures
        entry_nodes(nodes@) == nodes_of_entries(parsed_entries(entries@)),
    decreases TreeModel::Table(parsed_entries(entries@)), 0int,
{
    let ghost model = parsed_entries(entries@);
    let mut nodes: Vec<(String, Node)> = Vec::new();
    for entry in iter: entries.into_iter()
        invariant
            iter.seq() == entries@,
            model == parsed_entries(entries@),
            entry_nodes(nodes@) == nodes_of_entries(model.take(iter.index() as int)),
    {
        proof {
            let i = iter.index() as int;
            assert(model.take(i + 1).drop_last() =~= model.take(i));
            assert(model[i] == (entry.0@, parsed_tree(entry.1)));
            lemma_smaller_tree(TreeModel::Table(model), i);
        }
        let (key, value) = entry;
        let node = take_value(value);
        let ghost before = nodes@;
        nodes.push((key, node));
        proof {
            assert(nodes@.drop_last() =~= before);
        }
    }
    proof {
        assert(model.take(model.len() as int) =~= model);
    }
    nodes
}

/// The entries of the document that a TOML text says, or the message with which it
/// is refused.
pub open spec fn nodes_of_text(text: Seq<char>) -> Result<Seq<(Seq<char>, NodeModel)>, Seq<char>> {
    match toml_document(text) {
        Ok(entries) => Ok(nodes_of_entries(entries)),
        Err(message) => Err(message),
    }
}

/// Reads a document.
pub fn read_document(text: &str) -> (document: Result<Vec<(String, Node)>, String>)
    ensures
        match document {
            Ok(entries) => nodes_of_text(text@) == Ok::<Seq<(Seq<char>, NodeModel)>, Seq<char>>(
                entry_nodes(entries@),
            ),
            Err(message) => nodes_of_text(text@) == Err::<Seq<(Seq<char>, NodeModel)>, Seq<char>>(message@),
        },
{
    match parse_document(text) {
        Ok(entries) => Ok(take_entries(entries)),
        Err(message) => Err(message),
    }
}

/// The value of the first entry with a key.
pub open spec fn field(entries: Seq<(Seq<char>, NodeModel)>, key: Seq<char>) -> Option<NodeModel>
    decreases entries.len(),
{
    if entries.len() == 0 {
        None
    } else if entries[0].0 == key {
        Some(entries[0].1)
    } else {
        field(entries.drop_first(), key)
    }
}

/// The model of a node that may be missing.
pub open spec fn optional_node(node: Option<&Node>) -> Option<NodeModel> {
    match node {
        Some(node) => Some(node@),
        None => None,
    }
}

proof fn lemma_field_skip(entries: Seq<(Seq<char>, NodeModel)>, key: Seq<char>, count: int)
    requires
        0 <= count <= entries.len(),
        forall|i: int| 0 <= i < count ==> (#[trigger] entries[i]).0 != key,
    ensures
        field(entries, key) == field(entries.skip(count), key),
    decreases count,
{
    if count == 0 {
        assert(entries.skip(0) =~= entries);
    } else {
        let rest = entries.drop_first();
        assert(entries[0].0 != key);
        assert forall|i: int| 0 <= i < count - 1 implies (#[trigger] rest[i]).0 != key by {
            assert(rest[i] == entries[i + 1]);
        }
        lemma_field_skip(rest, key, count - 1);
        assert(rest.skip(count - 1) =~= entries.skip(count));
    }
}

/// The value that is found under a key is that of an entry with the key, where there
/// is one.
pub proof fn lemma_field(entries: Seq<(Seq<char>, NodeModel)>, key: Seq<char>)
    ensures
        match field(entries, key) {
            Some(node) => exists|i: int|
                0 <= i < entries.len() && (#[trigger] entries[i]).0 == key && entries[i].1 == node,
            None => forall|i: int| 0 <= i < entries.len() ==> (#[trigger] entries[i]).0 != key,
        },
    decreases entries.len(),
{
    if entries.len() > 0 {
        if entries[0].0 != key {
            let rest = entries.drop_first();
            lemma_field(rest, key);
            match field(rest, key) {
                Some(node) => {
                    let i = choose|i: int| 0 <= i < rest.len() && (#[trigger] rest[i]).0 == key && rest[i].1 == node;
                    assert(entries[i + 1] == rest[i]);
                },
                None => {
                    assert forall|i: int| 0 <= i < entries.len() implies (#[trigger] entries[i]).0 != key by {
                        if i > 0 {
                            assert(rest[i - 1] == entries[i]);
                        }
                    }
                },
            }
        } else {
            assert(entries[0].1 == field(entries, key)->0);
        }
    }
}

/// Finds the first entry with a key.
pub fn find_field<'a>(entries: &'a Vec<(String, Node)>, key: &str) -> (found: Option<&'a Node>)
    ensures
        optional_node(found) == field(entry_nodes(entries@), key@),
{
    let ghost model = entry_nodes(entries@);
    proof {
        lemma_entry_nodes(entries@);
    }
    let mut i: usize = 0;
    while i < entries.len()
        invariant
            i <= entries.len(),
            model == entry_nodes(entries@),
            model.len() == entries.len(),
            forall|j: int| 0 <= j < entries@.len() ==> #[trigger] model[j] == (entries@[j].0@, entries@[j].1@),
            forall|j: int| 0 <= j < i ==> (#[trigger] model[j]).0 != key@,
        decreases entries.len() - i,
    {
        assert(model[i as int] == (entries@[i as int].0@, entries@[i as int].1@));
        if same(&entries[i].0, key) {
            proof {
                lemma_field_skip(model, key@, i as int);
                assert(model.skip(i as int)[0] == model[i as int]);
            }
            return Some(&entries[i].1);
        }
        i = i + 1;
    }
    proof {
        lemma_field_skip(model, key@, model.len() as int);
    }
    None
}

}
