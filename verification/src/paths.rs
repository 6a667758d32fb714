//! Paths, as on Linux and Android: texts whose components are parted by slashes.
use vstd::prelude::*;

use crate::text::{
    decimal, decimal_text, join, lemma_split_at_last, lemma_split_at_last_is, same, split_at_last, split_last,
    starts_with, text_views, to_chars,
};

verus! {

/// Whether a path is absolute.
pub open spec fn absolute(path: Seq<char>) -> bool {
    path.len() > 0 && path[0] == '/'
}

/// The path of an entry of a directory.
pub open spec fn child(directory: Seq<char>, name: Seq<char>) -> Seq<char> {
    if directory.len() > 0 && directory.last() != '/' {
        directory + seq!['/'] + name
    } else {
        directory + name
    }
}

/// What a piece between slashes adds to the components of a path: nothing, where
/// it is empty or a dot.
pub open spec fn component(piece: Seq<char>) -> Seq<Seq<char>> {
    if piece.len() == 0 || piece == seq!['.'] {
        Seq::empty()
    } else {
        seq![piece]
    }
}

/// The components of a path.
pub open spec fn components(path: Seq<char>) -> Seq<Seq<char>>
    decreases path.len(),
    via components_decreases
{
    match split_at_last(path, '/') {
        Some((front, piece)) => components(front) + component(piece),
        None => component(path),
    }
}

#[via_fn]
proof fn components_decreases(path: Seq<char>) {
    lemma_split_at_last(path, '/');
}

/// Whether a path lies in a directory, or is it.
pub open spec fn within(path: Seq<char>, directory: Seq<char>) -> bool {
    absolute(path) && absolute(directory) && components(directory).is_prefix_of(components(path))
}

/// A path without a slash has at most one component.
proof fn lemma_one_component(path: Seq<char>)
    requires
        !path.contains('/'),
    ensures
        components(path) == component(path),
{
    lemma_split_at_last(path, '/');
    if let Some((front, piece)) = split_at_last(path, '/') {
        assert(path[front.len() as int] == '/');
    }
}

/// An entry of a directory has the components of the directory and its own.
pub proof fn lemma_child_components(directory: Seq<char>, name: Seq<char>)
    requires
        !name.contains('/'),
    ensures
        absolute(directory) ==> absolute(child(directory, name)),
        components(child(directory, name)) == components(directory) + component(name),
{
    assert forall|i: int| 0 <= i < name.len() implies name[i] != '/' by {
        assert(name.contains(name[i]));
    }
    if directory.len() == 0 {
        lemma_one_component(name);
        lemma_one_component(directory);
        assert(child(directory, name) =~= name);
    } else if directory.last() != '/' {
        lemma_split_at_last_is(directory, '/', name);
    } else {
        let front = directory.drop_last();
        assert(directory =~= front + seq!['/'] + Seq::<char>::empty());
        assert(directory + name =~= front + seq!['/'] + name);
        lemma_split_at_last_is(front, '/', name);
        lemma_split_at_last_is(front, '/', Seq::<char>::empty());
        assert(components(directory) =~= components(front));
    }
}

/// What lies in an entry of a directory lies in the directory.
pub proof fn lemma_child_within(directory: Seq<char>, name: Seq<char>, root: Seq<char>)
    requires
        within(directory, root),
        !name.contains('/'),
    ensures
        within(child(directory, name), root),
{
    lemma_child_components(directory, name);
    let outer = components(root);
    let whole = components(child(directory, name));
    assert(outer =~= whole.take(outer.len() as int)) by {
        assert(outer =~= components(directory).take(outer.len() as int));
    }
}

/// A directory lies in itself.
pub proof fn lemma_within_itself(directory: Seq<char>)
    requires
        absolute(directory),
    ensures
        within(directory, directory),
{
    assert(components(directory) =~= components(directory).take(components(directory).len() as int));
}

/// Tells whether a path is absolute.
pub fn is_absolute(path: &str) -> (found: bool)
    ensures
        found == absolute(path@),
{
    let found = starts_with(path, "/");
    proof {
        reveal_strlit("/");
        if path@.len() > 0 {
            assert(path@.take(1) =~= seq![path@[0]]);
            assert("/"@ =~= seq!['/']);
            assert(path@.take(1)[0] == path@[0]);
        }
    }
    found
}

/// The path of an entry of a directory.
pub fn child_path(directory: &str, name: &str) -> (path: String)
    ensures
        path@ == child(directory@, name@),
{
    let chars: Vec<char> = to_chars(directory);
    if chars.len() > 0 && chars[chars.len() - 1] != '/' {
        let front = join(directory, "/");
        proof {
            reveal_strlit("/");
            assert("/"@ =~= seq!['/']);
        }
        join(&front, name)
    } else {
        join(directory, name)
    }
}

/// Adds what a piece between slashes adds to the components of a path.
fn add_component(list: &mut Vec<String>, piece: &str)
    ensures
        text_views(final(list)@) == text_views(old(list)@) + component(piece@),
{
    proof {
        reveal_strlit(".");
        assert("."@ =~= seq!['.']);
    }
    if !piece.is_empty() && !same(piece, ".") {
        list.push(piece.to_owned());
    }
    assert(text_views(list@) =~= text_views(old(list)@) + component(piece@));
}

/// The components of a path.
fn path_components(path: &str) -> (list: Vec<String>)
    ensures
        text_views(list@) == components(path@),
    decreases path@.len(),
{
    proof {
        lemma_split_at_last(path@, '/');
    }
    match split_last(path, '/') {
        Some((front, piece)) => {
            let mut list = path_components(&front);
            add_component(&mut list, &piece);
            list
        },
        None => {
            let mut list: Vec<String> = Vec::new();
            add_component(&mut list, path);
            assert(text_views(list@) =~= component(path@));
            list
        },
    }
}

/// Tells whether a path lies in a directory.
pub fn is_within(path: &str, directory: &str) -> (found: bool)
    ensures
        found == within(path@, directory@),
{
    if !is_absolute(path) || !is_absolute(directory) {
        return false;
    }
    let inner: Vec<String> = path_components(path);
    let outer: Vec<String> = path_components(directory);
    let ghost inside = components(path@);
    let ghost outside = components(directory@);
    proof {
        assert(inside.len() == inner@.len());
        assert(outside.len() == outer@.len());
    }
    if outer.len() > inner.len() {
        return false;
    }
    let mut i: usize = 0;
    while i < outer.len()
        invariant
            i <= outer.len() <= inner.len(),
            inside == text_views(inner@),
            outside == text_views(outer@),
            inside == components(path@),
            outside == components(directory@),
            forall|j: int| 0 <= j < i ==> outside[j] == inside[j],
        decreases outer.len() - i,
    {
        if !same(&outer[i], &inner[i]) {
            assert(outside[i as int] != inside[i as int]);
            assert(inside.take(outside.len() as int)[i as int] == inside[i as int]);
            return false;
        }
        assert(outside[i as int] == inside[i as int]);
        i = i + 1;
    }
    assert(outside =~= inside.take(outside.len() as int));
    true
}

/// A path without the slashes and the dots between them at its end.
pub open spec fn trimmed(path: Seq<char>) -> Seq<char>
    decreases path.len(),
    via trimmed_decreases
{
    match split_at_last(path, '/') {
        Some((front, piece)) => if component(piece).len() > 0 {
            path
        } else if front.len() == 0 {
            seq!['/']
        } else {
            trimmed(front)
        },
        None => path,
    }
}

#[via_fn]
proof fn trimmed_decreases(path: Seq<char>) {
    lemma_split_at_last(path, '/');
}

/// Whether a name is a dot or two: that of a directory, or of the one above it.
pub open spec fn dots(name: Seq<char>) -> bool {
    name == seq!['.'] || name == seq!['.', '.']
}

/// The name of a file, unless it is a dot or two.
pub open spec fn file_name_of(name: Seq<char>) -> Option<Seq<char>> {
    if dots(name) {
        None
    } else {
        Some(name)
    }
}

/// The directory that a path lies in, and the name of the file there, if the path
/// names one. The root lies in no directory, and nor does the empty path.
pub open spec fn place_of(path: Seq<char>) -> Option<(Seq<char>, Option<Seq<char>>)> {
    let whole = trimmed(path);
    match split_at_last(whole, '/') {
        Some((front, piece)) => if piece.len() == 0 {
            None
        } else if front.len() == 0 {
            Some((seq!['/'], file_name_of(piece)))
        } else {
            Some((trimmed(front), file_name_of(piece)))
        },
        None => if whole.len() == 0 {
            None
        } else {
            Some((Seq::empty(), file_name_of(whole)))
        },
    }
}

/// The root has no components.
proof fn lemma_root_components()
    ensures
        components(seq!['/']) == Seq::<Seq<char>>::empty(),
{
    let root = seq!['/'];
    assert(root =~= Seq::<char>::empty() + seq!['/'] + Seq::<char>::empty());
    lemma_split_at_last_is(Seq::<char>::empty(), '/', Seq::<char>::empty());
    lemma_one_component(Seq::<char>::empty());
    assert(components(root) =~= Seq::<Seq<char>>::empty());
}

/// A path keeps its components where its end is trimmed.
proof fn lemma_trimmed_components(path: Seq<char>)
    ensures
        components(trimmed(path)) == components(path),
    decreases path.len(),
{
    lemma_split_at_last(path, '/');
    if let Some((front, piece)) = split_at_last(path, '/') {
        if component(piece).len() == 0 {
            assert(components(path) =~= components(front));
            if front.len() == 0 {
                lemma_root_components();
                lemma_one_component(front);
                assert(components(front) =~= Seq::<Seq<char>>::empty());
            } else {
                lemma_trimmed_components(front);
            }
        }
    }
}

/// A file has the components of its directory and its name, which has no slash.
pub proof fn lemma_place_components(path: Seq<char>)
    ensures
        place_of(path) matches Some((directory, Some(name))) ==> components(path) == components(directory).push(name)
            && !name.contains('/') && name.len() > 0,
{
    let whole = trimmed(path);
    lemma_trimmed_components(path);
    lemma_split_at_last(whole, '/');
    match split_at_last(whole, '/') {
        Some((front, piece)) => {
            lemma_trimmed_components(front);
            if front.len() == 0 {
                lemma_root_components();
                lemma_one_component(front);
                assert(components(front) =~= Seq::<Seq<char>>::empty());
            }
            if piece.len() > 0 && !dots(piece) {
                assert(components(whole) =~= components(front).push(piece));
            }
        },
        None => {
            lemma_one_component(Seq::<char>::empty());
            if whole.len() > 0 && !dots(whole) {
                assert(components(whole) =~= Seq::<Seq<char>>::empty().push(whole));
            }
        },
    }
}

/// A path without the slashes and the dots between them at its end.
fn trim(path: &str) -> (whole: String)
    ensures
        whole@ == trimmed(path@),
    decreases path@.len(),
{
    proof {
        lemma_split_at_last(path@, '/');
        reveal_strlit(".");
        reveal_strlit("/");
        assert("."@ =~= seq!['.']);
        assert("/"@ =~= seq!['/']);
    }
    match split_last(path, '/') {
        Some((front, piece)) => {
            if !piece.as_str().is_empty() && !same(&piece, ".") {
                path.to_owned()
            } else if front.as_str().is_empty() {
                "/".to_owned()
            } else {
                trim(&front)
            }
        },
        None => path.to_owned(),
    }
}

/// The model of the place of a file.
pub open spec fn place_model(place: Option<(String, Option<String>)>) -> Option<(Seq<char>, Option<Seq<char>>)> {
    match place {
        Some((directory, Some(name))) => Some((directory@, Some(name@))),
        Some((directory, None)) => Some((directory@, None)),
        None => None,
    }
}

/// The directory that a path lies in, and the name of the file there, if the path
/// names one.
pub fn file_place(path: &str) -> (place: Option<(String, Option<String>)>)
    ensures
        place_model(place) == place_of(path@),
{
    proof {
        reveal_strlit("");
        reveal_strlit(".");
        reveal_strlit("..");
        reveal_strlit("/");
        assert(""@ =~= Seq::<char>::empty());
        assert("."@ =~= seq!['.']);
        assert(".."@ =~= seq!['.', '.']);
        assert("/"@ =~= seq!['/']);
    }
    let whole: String = trim(path);
    let (directory, name): (String, String) = match split_last(&whole, '/') {
        Some((front, piece)) => {
            if piece.as_str().is_empty() {
                return None;
            }
            if front.as_str().is_empty() {
                ("/".to_owned(), piece)
            } else {
                (trim(&front), piece)
            }
        },
        None => {
            if whole.as_str().is_empty() {
                return None;
            }
            ("".to_owned(), whole)
        },
    };
    if same(&name, ".") || same(&name, "..") {
        Some((directory, None))
    } else {
        Some((directory, Some(name)))
    }
}

/// The name under which a file is written before it takes its place.
pub open spec fn temporary_name_of(name: Seq<char>, process: u32, sequence: u64) -> Seq<char> {
    "."@ + name + "."@ + decimal_text(process as nat) + "-"@ + decimal_text(sequence as nat) + ".tmp"@
}

/// The name under which a file is written before it takes its place.
pub fn temporary_name(name: &str, process: u32, sequence: u64) -> (temporary: String)
    ensures
        temporary@ == temporary_name_of(name@, process, sequence),
{
    let dotted = join(&join(".", name), ".");
    let numbered = join(&join(&join(&dotted, &decimal(process as u64)), "-"), &decimal(sequence));
    join(&numbered, ".tmp")
}

}
