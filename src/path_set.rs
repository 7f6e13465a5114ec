//! A set of paths that answers ancestor and descendant questions.
use vstd::prelude::*;

use crate::path::{is_prefix_of, is_strict_ancestor, starts_with};

verus! {

/// Paths with the same components, in the same order.
pub fn same_path(a: &Vec<String>, b: &Vec<String>) -> (r: bool)
    ensures
        r == (a.deep_view() == b.deep_view()),
{
    let r = a.len() == b.len() && starts_with(a, b);
    proof {
        assert(a.deep_view().len() == a.len() && b.deep_view().len() == b.len());
        assert(a.deep_view().subrange(0, a.len() as int) =~= a.deep_view());
    }
    r
}

/// A set of paths, built fresh from the paths that one command works on.
pub struct PathSet {
    paths: Vec<Vec<String>>,
}

impl View for PathSet {
    type V = Set<Seq<Seq<char>>>;

    closed spec fn view(&self) -> Set<Seq<Seq<char>>> {
        self.paths.deep_view().to_set()
    }
}

impl PathSet {
    /// The empty set.
    pub fn new() -> (r: PathSet)
        ensures
            r@ == Set::<Seq<Seq<char>>>::empty(),
    {
        let r = PathSet { paths: Vec::new() };
        assert(r@ =~= Set::<Seq<Seq<char>>>::empty());
        r
    }

    /// Adds a copy of `path`.
    pub fn insert(&mut self, path: &Vec<String>)
        ensures
            final(self)@ == old(self)@.insert(path.deep_view()),
    {
        let ghost before = self.paths.deep_view();
        self.paths.push(path.clone());
        proof {
            assert(self.paths.deep_view() =~= before.push(path.deep_view()));
            assert(before.push(path.deep_view()) =~= before + seq![path.deep_view()]);
            Seq::lemma_to_set_insert_commutes(before, path.deep_view());
        }
    }

    /// Whether `path` itself is in the set.
    pub fn contains(&self, path: &Vec<String>) -> (r: bool)
        ensures
            r == self@.contains(path.deep_view()),
    {
        let mut k: usize = 0;
        while k < self.paths.len()
            invariant
                k <= self.paths.len(),
                forall|j: int| 0 <= j < k ==> self.paths.deep_view()[j] != path.deep_view(),
            decreases self.paths.len() - k,
        {
            if same_path(&self.paths[k], path) {
                assert(self.paths.deep_view()[k as int] == path.deep_view());
                return true;
            }
            k += 1;
        }
        false
    }

    /// Whether the set holds a proper ancestor of `path`.
    pub fn contains_ancestor_of(&self, path: &Vec<String>) -> (r: bool)
        ensures
            r == exists|a: Seq<Seq<char>>|
                #[trigger] self@.contains(a) && is_strict_ancestor(a, path.deep_view()),
    {
        let mut k: usize = 0;
        while k < self.paths.len()
            invariant
                k <= self.paths.len(),
                forall|j: int|
                    0 <= j < k ==> !is_strict_ancestor(
                        #[trigger] self.paths.deep_view()[j],
                        path.deep_view(),
                    ),
            decreases self.paths.len() - k,
        {
            if self.paths[k].len() < path.len() && starts_with(path, &self.paths[k]) {
                assert(self@.contains(self.paths.deep_view()[k as int]));
                return true;
            }
            k += 1;
        }
        false
    }

    /// Whether the set holds `path` or one of its ancestors.
    pub fn contains_prefix_of(&self, path: &Vec<String>) -> (r: bool)
        ensures
            r == exists|a: Seq<Seq<char>>|
                #[trigger] self@.contains(a) && is_prefix_of(a, path.deep_view()),
    {
        let mut k: usize = 0;
        while k < self.paths.len()
            invariant
                k <= self.paths.len(),
                forall|j: int|
                    0 <= j < k ==> !is_prefix_of(
                        #[trigger] self.paths.deep_view()[j],
                        path.deep_view(),
                    ),
            decreases self.paths.len() - k,
        {
            if starts_with(path, &self.paths[k]) {
                assert(self@.contains(self.paths.deep_view()[k as int]));
                return true;
            }
            k += 1;
        }
        false
    }

    /// Whether the set holds a proper descendant of `path`.
    pub fn contains_descendant_of(&self, path: &Vec<String>) -> (r: bool)
        ensures
            r == exists|d: Seq<Seq<char>>|
                #[trigger] self@.contains(d) && is_strict_ancestor(path.deep_view(), d),
    {
        let mut k: usize = 0;
        while k < self.paths.len()
            invariant
                k <= self.paths.len(),
                forall|j: int|
                    0 <= j < k ==> !is_strict_ancestor(
                        path.deep_view(),
                        #[trigger] self.paths.deep_view()[j],
                    ),
            decreases self.paths.len() - k,
        {
            if path.len() < self.paths[k].len() && starts_with(&self.paths[k], path) {
                assert(self@.contains(self.paths.deep_view()[k as int]));
                return true;
            }
            k += 1;
        }
        false
    }
}

} // verus!
