//! Sets of packages.
use vstd::prelude::*;

use crate::order::{before, lemma_before_irreflexive, lemma_before_transitive, place, Place};
use crate::text::{copy_texts, same, text_views};

verus! {

/// A set of packages, kept in order.
#[derive(Debug, PartialEq, Eq)]
pub struct PackageSet {
    names: Vec<String>,
}

/// Whether texts stand in order, so that none stands twice.
pub open spec fn texts_in_order(texts: Seq<Seq<char>>) -> bool {
    forall|i: int, j: int| 0 <= i < j < texts.len() ==> before(#[trigger] texts[i], #[trigger] texts[j])
}

impl PackageSet {
    pub closed spec fn view(&self) -> Set<Seq<char>> {
        text_views(self.names@).to_set()
    }

    #[verifier::type_invariant]
    spec fn names_in_order(self) -> bool {
        texts_in_order(text_views(self.names@))
    }

    /// A set of nothing.
    pub fn new() -> (set: PackageSet)
        ensures
            set@ == Set::<Seq<char>>::empty(),
    {
        let names: Vec<String> = Vec::new();
        assert(text_views(names@).to_set() =~= Set::<Seq<char>>::empty());
        PackageSet { names }
    }

    /// Whether the set holds nothing.
    pub fn is_empty(&self) -> (empty: bool)
        ensures
            empty == (self@ == Set::<Seq<char>>::empty()),
    {
        proof {
            if self.names@.len() > 0 {
                assert(text_views(self.names@)[0] == self.names@[0]@);
                assert(self@.contains(self.names@[0]@));
            } else {
                assert(self@ =~= Set::<Seq<char>>::empty());
            }
        }
        self.names.len() == 0
    }

    /// Whether a package is in the set.
    pub fn contains(&self, package: &str) -> (found: bool)
        ensures
            found == self@.contains(package@),
    {
        let ghost model = text_views(self.names@);
        let mut i: usize = 0;
        while i < self.names.len()
            invariant
                i <= self.names.len(),
                model == text_views(self.names@),
                forall|j: int| 0 <= j < i ==> #[trigger] model[j] != package@,
            decreases self.names.len() - i,
        {
            assert(model[i as int] == self.names@[i as int]@);
            if same(&self.names[i], package) {
                assert(model.contains(package@));
                return true;
            }
            i = i + 1;
        }
        false
    }

    /// The packages in the set, in order.
    pub fn list(&self) -> (names: &Vec<String>)
        ensures
            text_views(names@).to_set() == self@,
            texts_in_order(text_views(names@)),
    {
        proof {
            use_type_invariant(self);
        }
        &self.names
    }

    /// Puts a package into the set.
    pub fn insert(&mut self, package: &str)
        ensures
            final(self)@ == old(self)@.insert(package@),
    {
        proof {
            use_type_invariant(&*self);
        }
        let mut names: Vec<String> = Vec::new();
        std::mem::swap(&mut names, &mut self.names);
        let ghost model = text_views(names@);
        let mut i: usize = 0;
        let mut found: bool = false;
        while i < names.len() && !found
            invariant
                i <= names.len(),
                model == text_views(names@),
                forall|j: int| 0 <= j < i ==> before(#[trigger] model[j], package@),
                found ==> i < names.len() && (model[i as int] == package@ || before(package@, model[i as int])),
            decreases names.len() - i, !found as int,
        {
            assert(model[i as int] == names@[i as int]@);
            match place(&names[i], package) {
                Place::Before => {
                    i = i + 1;
                },
                Place::Same => {
                    found = true;
                },
                Place::After => {
                    found = true;
                },
            }
        }
        let present: bool = i < names.len() && same(&names[i], package);
        if present {
            proof {
                assert(model[i as int] == package@);
                assert(model.to_set().insert(package@) =~= model.to_set());
            }
            self.names = names;
        } else {
            names.insert(i, package.to_owned());
            proof {
                let after = text_views(names@);
                assert(after =~= model.insert(i as int, package@));
                assert forall|j: int, k: int| 0 <= j < k < after.len() implies before(
                    #[trigger] after[j],
                    #[trigger] after[k],
                ) by {
                    if k == i {
                        assert(after[j] == model[j]);
                    } else if j == i {
                        assert(after[k] == model[k - 1]);
                        if k - 1 > i {
                            lemma_before_transitive(package@, model[i as int], model[k - 1]);
                        }
                    } else {
                        let a = if j < i { j } else { j - 1 };
                        let b = if k < i { k } else { k - 1 };
                        assert(before(model[a], model[b]));
                    }
                }
                assert forall|x: Seq<char>| after.to_set().contains(x) == model.to_set().insert(package@).contains(x) by {
                    if after.contains(x) {
                        let j = choose|j: int| 0 <= j < after.len() && after[j] == x;
                        if j < i {
                            assert(model[j] == x);
                        } else if j > i {
                            assert(model[j - 1] == x);
                        }
                    }
                    if model.contains(x) {
                        let j = choose|j: int| 0 <= j < model.len() && model[j] == x;
                        if j < i {
                            assert(after[j] == x);
                        } else {
                            assert(after[j + 1] == x);
                        }
                    }
                    if x == package@ {
                        assert(after[i as int] == x);
                    }
                }
                assert(after.to_set() =~= model.to_set().insert(package@));
            }
            self.names = names;
        }
    }

    /// Takes a package out of the set, and tells whether it was there.
    pub fn remove(&mut self, package: &str) -> (found: bool)
        ensures
            found == old(self)@.contains(package@),
            final(self)@ == old(self)@.remove(package@),
    {
        proof {
            use_type_invariant(&*self);
        }
        let mut names: Vec<String> = Vec::new();
        std::mem::swap(&mut names, &mut self.names);
        let ghost model = text_views(names@);
        let mut i: usize = 0;
        while i < names.len()
            invariant
                i <= names.len(),
                model == text_views(names@),
                texts_in_order(model),
                old(self)@ == model.to_set(),
                forall|j: int| 0 <= j < i ==> #[trigger] model[j] != package@,
                self.names@ == Seq::<String>::empty(),
            decreases names.len() - i,
        {
            assert(model[i as int] == names@[i as int]@);
            if same(&names[i], package) {
                names.remove(i);
                proof {
                    let after = text_views(names@);
                    assert(after =~= model.remove(i as int));
                    assert forall|j: int, k: int| 0 <= j < k < after.len() implies before(
                        #[trigger] after[j],
                        #[trigger] after[k],
                    ) by {
                        let a = if j < i { j } else { j + 1 };
                        let b = if k < i { k } else { k + 1 };
                        assert(before(model[a], model[b]));
                    }
                    assert(model.contains(package@));
                    assert forall|x: Seq<char>| after.to_set().contains(x) == model.to_set().remove(package@).contains(
                        x,
                    ) by {
                        if after.contains(x) {
                            let j = choose|j: int| 0 <= j < after.len() && after[j] == x;
                            let a = if j < i { j } else { j + 1 };
                            assert(model[a] == x);
                            lemma_before_irreflexive(x);
                            if x == package@ {
                                if a < i {
                                    assert(before(model[a], model[i as int]));
                                } else {
                                    assert(before(model[i as int], model[a]));
                                }
                            }
                        }
                        if model.contains(x) && x != package@ {
                            let j = choose|j: int| 0 <= j < model.len() && model[j] == x;
                            if j < i {
                                assert(after[j] == x);
                            } else {
                                assert(after[j - 1] == x);
                            }
                        }
                    }
                    assert(after.to_set() =~= model.to_set().remove(package@));
                }
                self.names = names;
                return true;
            }
            i = i + 1;
        }
        proof {
            assert(!model.contains(package@));
            assert(model.to_set().remove(package@) =~= model.to_set());
        }
        self.names = names;
        false
    }
}

impl Clone for PackageSet {
    fn clone(&self) -> (copy: PackageSet)
        ensures
            copy@ == self@,
    {
        proof {
            use_type_invariant(self);
        }
        PackageSet { names: copy_texts(&self.names) }
    }
}

}
