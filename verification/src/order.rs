//! The order in which keys and package names are kept: by code point, from the
//! first character on.
use vstd::prelude::*;

use crate::text::to_chars;

verus! {

/// Whether `left` stands before `right`.
pub open spec fn before(left: Seq<char>, right: Seq<char>) -> bool
    decreases left.len(),
{
    &&& right.len() > 0
    &&& (left.len() == 0 || left[0] < right[0] || (left[0] == right[0] && before(
        left.drop_first(),
        right.drop_first(),
    )))
}

/// Where one text stands in relation to another.
#[derive(Clone, Copy, Debug, PartialEq, Eq, Structural)]
pub enum Place {
    Before,
    Same,
    After,
}

/// Nothing stands before itself.
pub proof fn lemma_before_irreflexive(text: Seq<char>)
    ensures
        !before(text, text),
    decreases text.len(),
{
    if text.len() > 0 {
        lemma_before_irreflexive(text.drop_first());
    }
}

/// The order is transitive.
pub proof fn lemma_before_transitive(left: Seq<char>, middle: Seq<char>, right: Seq<char>)
    requires
        before(left, middle),
        before(middle, right),
    ensures
        before(left, right),
    decreases left.len(),
{
    if left.len() > 0 {
        if left[0] == middle[0] && middle[0] == right[0] {
            lemma_before_transitive(left.drop_first(), middle.drop_first(), right.drop_first());
        }
    }
}

/// Two texts are the same or one stands before the other.
pub proof fn lemma_before_total(left: Seq<char>, right: Seq<char>)
    ensures
        left == right || before(left, right) || before(right, left),
    decreases left.len(),
{
    if left.len() == 0 || right.len() == 0 {
        if left.len() == right.len() {
            assert(left =~= right);
        }
    } else if left[0] == right[0] {
        lemma_before_total(left.drop_first(), right.drop_first());
        if left.drop_first() == right.drop_first() {
            assert(left =~= seq![left[0]] + left.drop_first());
            assert(right =~= seq![right[0]] + right.drop_first());
        }
    }
}

/// Compares two texts.
pub fn place(left: &str, right: &str) -> (place: Place)
    ensures
        place == Place::Before <==> before(left@, right@),
        place == Place::Same <==> left@ == right@,
        place == Place::After <==> before(right@, left@),
{
    let a: Vec<char> = to_chars(left);
    let b: Vec<char> = to_chars(right);
    let mut i: usize = 0;
    proof {
        lemma_before_irreflexive(left@);
        assert(left@.skip(0) =~= left@);
        assert(right@.skip(0) =~= right@);
    }
    while i < a.len() && i < b.len()
        invariant
            i <= a.len(),
            i <= b.len(),
            a@ == left@,
            b@ == right@,
            left@.take(i as int) == right@.take(i as int),
            before(left@, right@) == before(left@.skip(i as int), right@.skip(i as int)),
            before(right@, left@) == before(right@.skip(i as int), left@.skip(i as int)),
            !before(left@, left@),
        decreases a.len() - i,
    {
        let ghost x = left@.skip(i as int);
        let ghost y = right@.skip(i as int);
        if a[i] < b[i] {
            assert(x[0] < y[0]);
            assert(before(x, y) && !before(y, x));
            return Place::Before;
        }
        if b[i] < a[i] {
            assert(y[0] < x[0]);
            assert(before(y, x) && !before(x, y));
            return Place::After;
        }
        proof {
            assert(x[0] == y[0]);
            assert(x.drop_first() =~= left@.skip(i + 1));
            assert(y.drop_first() =~= right@.skip(i + 1));
            assert(left@.take(i + 1) =~= left@.take(i as int).push(left@[i as int]));
            assert(right@.take(i + 1) =~= right@.take(i as int).push(right@[i as int]));
        }
        i = i + 1;
    }
    if i < a.len() {
        assert(left@ != right@);
        Place::After
    } else if i < b.len() {
        assert(left@ != right@);
        Place::Before
    } else {
        assert(left@.take(i as int) =~= left@);
        assert(right@.take(i as int) =~= right@);
        Place::Same
    }
}

}
