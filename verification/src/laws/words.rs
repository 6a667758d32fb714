//! Texts: their order, and where they are split.
use vstd::prelude::*;

use crate::document::toml_options;
use crate::laws::locking::is_plain_name;
use crate::node::{
    field, lemma_nodes_of_entries, lemma_nodes_of_items, node_of, nodes_of_text, shape_of, NodeModel, ShapeModel,
};
use crate::order::before;
use crate::paths::{
    absolute, child, component, components, lemma_child_components, lemma_place_components, place_of,
    temporary_name_of, within,
};
use crate::text::{
    decimal_text, lemma_split_at_first, lemma_split_at_last, lemma_split_at_last_is, split_at_first, split_at_last,
};
use crate::tree::{integer_of, toml_document, unsigned_of, TreeModel};
use crate::value::canonical_entries;

verus! {

/// Whether two texts begin with the same characters, up to an index, at which the first
/// ends or has the smaller character.
pub open spec fn parts_at(left: Seq<char>, right: Seq<char>, index: int) -> bool {
    &&& 0 <= index <= left.len()
    &&& index < right.len()
    &&& forall|i: int| 0 <= i < index ==> #[trigger] left[i] == right[i]
    &&& index == left.len() || left[index] < right[index]
}

/// Texts are in the order of a dictionary: one comes before another where it is the
/// beginning of it, or has the smaller character where they first differ.
pub proof fn law_texts_are_in_the_order_of_a_dictionary(left: Seq<char>, right: Seq<char>)
    ensures
        before(left, right) <==> exists|index: int| #[trigger] parts_at(left, right, index),
    decreases left.len(),
{
    if right.len() == 0 {
    } else if left.len() == 0 {
        assert(parts_at(left, right, 0));
    } else {
        let front = left.drop_first();
        let back = right.drop_first();
        law_texts_are_in_the_order_of_a_dictionary(front, back);
        if before(left, right) {
            if left[0] < right[0] {
                assert(parts_at(left, right, 0));
            } else {
                let index = choose|index: int| #[trigger] parts_at(front, back, index);
                assert forall|i: int| 0 <= i < index + 1 implies #[trigger] left[i] == right[i] by {
                    if i > 0 {
                        assert(front[i - 1] == back[i - 1]);
                    }
                }
                assert(parts_at(left, right, index + 1));
            }
        }
        if exists|index: int| #[trigger] parts_at(left, right, index) {
            let index = choose|index: int| #[trigger] parts_at(left, right, index);
            if index > 0 {
                assert(left[0] == right[0]);
                assert forall|i: int| 0 <= i < index - 1 implies #[trigger] front[i] == back[i] by {
                    assert(left[i + 1] == right[i + 1]);
                }
                assert(parts_at(front, back, index - 1));
            }
        }
    }
}

/// A text is split at the first, or the last, of a mark: the parts and the mark make
/// the text again, and the part before, or behind, has no mark. A text without the
/// mark is not split.
pub proof fn law_split_texts_can_be_joined(text: Seq<char>, mark: char)
    ensures
        split_at_first(text, mark) matches Some((front, back)) ==> text == front + seq![mark] + back
            && !front.contains(mark),
        split_at_last(text, mark) matches Some((front, back)) ==> text == front + seq![mark] + back && !back.contains(
            mark,
        ),
        split_at_first(text, mark) is None <==> !text.contains(mark),
        split_at_last(text, mark) is None <==> !text.contains(mark),
{
    lemma_split_at_first(text, mark);
    lemma_split_at_last(text, mark);
    if let Some((front, back)) = split_at_first(text, mark) {
        assert(text[front.len() as int] == mark);
    }
    if let Some((front, back)) = split_at_last(text, mark) {
        assert(text[front.len() as int] == mark);
    }
}

/// What lies in a directory lies in each directory that it lies in, and a directory
/// has nothing in it that has fewer components, or that is not absolute.
pub proof fn law_directories_lie_in_one_another(path: Seq<char>, inner: Seq<char>, outer: Seq<char>)
    ensures
        within(path, inner) && within(inner, outer) ==> within(path, outer),
        within(path, outer) ==> absolute(path) && absolute(outer) && components(outer).len() <= components(path).len(),
        absolute(path) ==> within(path, path),
{
    if within(path, inner) && within(inner, outer) {
        let deep = components(path);
        let middle = components(inner);
        let shallow = components(outer);
        assert(middle =~= deep.take(middle.len() as int));
        assert(shallow =~= middle.take(shallow.len() as int));
        assert(shallow =~= deep.take(shallow.len() as int));
    }
    assert(components(path) =~= components(path).take(components(path).len() as int));
}

/// Entries of a directory lie apart: neither lies in the other, whatever their names
/// begin with.
pub proof fn law_siblings_lie_apart(directory: Seq<char>, left: Seq<char>, right: Seq<char>)
    requires
        is_plain_name(left),
        is_plain_name(right),
        left != right,
    ensures
        !within(child(directory, left), child(directory, right)),
{
    lemma_child_components(directory, left);
    lemma_child_components(directory, right);
    let first = components(child(directory, left));
    let second = components(child(directory, right));
    let count = components(directory).len() as int;
    assert(first[count] == left);
    assert(second[count] == right);
    if within(child(directory, left), child(directory, right)) {
        assert(second =~= first.take(second.len() as int));
    }
}

/// A value of a document is read as what it is: a text as that text, an integer that
/// fits as its number, an array and a table item by item, and anything else as
/// neither.
pub proof fn law_values_are_read_as_what_they_are(tree: TreeModel)
    ensures
        tree matches TreeModel::Text(text) ==> shape_of(tree) == ShapeModel::Text(text),
        tree matches TreeModel::Integer(digits, radix) ==> match unsigned_of(digits, radix as nat) {
            Some(number) => shape_of(tree) == ShapeModel::Number(number),
            None => shape_of(tree) is Other,
        },
        tree is Boolean || tree is Float || tree is Datetime ==> shape_of(tree) is Other,
        tree matches TreeModel::Array(items) ==> shape_of(tree) matches ShapeModel::Array(nodes) && nodes.len()
            == items.len() && forall|i: int| 0 <= i < items.len() ==> #[trigger] nodes[i] == node_of(items[i]),
        tree matches TreeModel::Table(entries) ==> shape_of(tree) matches ShapeModel::Table(nodes) && nodes.len()
            == entries.len() && forall|i: int|
            0 <= i < entries.len() ==> #[trigger] nodes[i] == (entries[i].0, node_of(entries[i].1)),
{
    if let TreeModel::Array(items) = tree {
        lemma_nodes_of_items(items);
    }
    if let TreeModel::Table(entries) = tree {
        lemma_nodes_of_entries(entries);
    }
}

/// A text is read as the document that it is, entry by entry: each value as what it is,
/// and, where it is a table of options, as those options, put in order.
pub proof fn law_texts_are_read_entry_by_entry(text: Seq<char>, tree: TreeModel)
    ensures
        match toml_document(text) {
            Ok(trees) => nodes_of_text(text) matches Ok(nodes) && nodes.len() == trees.len() && forall|i: int|
                0 <= i < trees.len() ==> #[trigger] nodes[i] == (trees[i].0, node_of(trees[i].1)),
            Err(message) => nodes_of_text(text) matches Err(said) && said == message,
        },
        node_of(tree).shape == shape_of(tree),
        match toml_options(tree) {
            Some(entries) => node_of(tree).options == Some(canonical_entries(entries)),
            None => node_of(tree).options is None,
        },
{
    if let Ok(trees) = toml_document(text) {
        lemma_nodes_of_entries(trees);
    }
}

/// The value that is found under a key is the first that stands there.
pub proof fn law_first_field_is_found(entries: Seq<(Seq<char>, NodeModel)>, key: Seq<char>, index: int)
    requires
        0 <= index < entries.len(),
        entries[index].0 == key,
        forall|i: int| 0 <= i < index ==> (#[trigger] entries[i]).0 != key,
    ensures
        field(entries, key) == Some(entries[index].1),
    decreases entries.len(),
{
    if index > 0 {
        let rest = entries.drop_first();
        assert(entries[0].0 != key);
        assert forall|i: int| 0 <= i < index - 1 implies (#[trigger] rest[i]).0 != key by {
            assert(entries[i + 1].0 != key);
        }
        law_first_field_is_found(rest, key, index - 1);
    }
}

/// A path is absolute where it begins with a slash; an entry of a directory is the
/// path of the directory and its own name, with one slash between them.
pub proof fn law_paths_are_made_with_slashes(directory: Seq<char>, name: Seq<char>)
    ensures
        absolute(directory) <==> seq!['/'].is_prefix_of(directory),
        child(directory + seq!['/'], name) == directory + seq!['/'] + name,
        directory.len() > 0 && directory.last() != '/' ==> child(directory, name) == directory + seq!['/'] + name,
        directory.len() == 0 ==> child(directory, name) == name,
{
    if absolute(directory) {
        assert(seq!['/'] =~= directory.take(1));
    }
    if seq!['/'].is_prefix_of(directory) {
        assert(seq!['/'][0] == directory.take(1)[0]);
    }
    assert((directory + seq!['/']).last() == '/');
    if directory.len() == 0 {
        assert(child(directory, name) =~= name);
    }
}

/// A temporary file is hidden, is named after the file that it becomes and the write
/// that it is for, and ends in `.tmp`.
pub proof fn law_temporary_names_are_hidden(name: Seq<char>, process: u32, sequence: u64)
    ensures
        ({
            let temporary = temporary_name_of(name, process, sequence);
            &&& temporary == seq!['.'] + name + seq!['.'] + decimal_text(process as nat) + seq!['-'] + decimal_text(
                sequence as nat,
            ) + seq!['.', 't', 'm', 'p']
            &&& temporary[0] == '.'
        }),
{
    reveal_strlit(".");
    reveal_strlit("-");
    reveal_strlit(".tmp");
    assert("."@ =~= seq!['.']);
    assert("-"@ =~= seq!['-']);
    assert(".tmp"@ =~= seq!['.', 't', 'm', 'p']);
}

/// A sign before the digits of a number is read as its sign: a minus makes the number
/// negative, a plus does not, and a sign alone is no number.
pub proof fn law_signs_are_read(digits: Seq<char>, radix: nat)
    requires
        digits.len() > 0,
        digits[0] != '-',
        digits[0] != '+',
    ensures
        integer_of(seq!['-'] + digits, radix) == match integer_of(digits, radix) {
            Some(number) => Some(-number),
            None => None,
        },
        integer_of(seq!['+'] + digits, radix) == integer_of(digits, radix),
        integer_of(seq!['-'], radix) is None,
        integer_of(seq!['+'], radix) is None,
        integer_of(digits, radix) matches Some(number) ==> number >= 0,
        unsigned_of(digits, radix) matches Some(number) ==> integer_of(digits, radix) == Some(number as int),
{
    assert((seq!['-'] + digits).drop_first() =~= digits);
    assert((seq!['+'] + digits).drop_first() =~= digits);
    assert(seq!['-'].drop_first() =~= Seq::<char>::empty());
    assert(seq!['+'].drop_first() =~= Seq::<char>::empty());
}

/// A dot stands for the directory itself and is no component of a path; two dots are
/// one, and are not the name of a file.
pub proof fn law_dots_are_no_names(directory: Seq<char>)
    ensures
        components(child(directory, seq!['.'])) == components(directory),
        components(child(directory, seq!['.', '.'])) == components(directory).push(seq!['.', '.']),
        place_of(directory) matches Some((_, Some(name))) ==> is_plain_name(name) && name != seq!['.', '.'],
        place_of(child(directory, seq!['.', '.'])) matches Some((_, name)) && name is None,
{
    let dot = seq!['.'];
    let two = seq!['.', '.'];
    lemma_child_components(directory, dot);
    lemma_child_components(directory, two);
    assert(two.len() != dot.len());
    assert(component(dot) =~= Seq::<Seq<char>>::empty());
    assert(components(directory) + component(dot) =~= components(directory));
    assert(components(directory) + component(two) =~= components(directory).push(two));
    lemma_place_components(directory);
    let path = child(directory, two);
    if directory.len() == 0 {
        assert(path =~= two);
        lemma_split_at_last(path, '/');
        assert(!path.contains('/'));
    } else if directory.last() != '/' {
        lemma_split_at_last_is(directory, '/', two);
    } else {
        let front = directory.drop_last();
        assert(path =~= front + seq!['/'] + two);
        lemma_split_at_last_is(front, '/', two);
    }
}

}
