//! Paths as sequences of components, and the prefix relation between them.
use vstd::prelude::*;

verus! {

/// `prefix` is `path` itself or one of its ancestors.
pub open spec fn is_prefix_of(prefix: Seq<Seq<char>>, path: Seq<Seq<char>>) -> bool {
    prefix.len() <= path.len() && path.subrange(0, prefix.len() as int) == prefix
}

/// `ancestor` is a proper ancestor of `path`.
pub open spec fn is_strict_ancestor(ancestor: Seq<Seq<char>>, path: Seq<Seq<char>>) -> bool {
    is_prefix_of(ancestor, path) && ancestor.len() < path.len()
}

pub proof fn lemma_prefix_transitive(a: Seq<Seq<char>>, b: Seq<Seq<char>>, c: Seq<Seq<char>>)
    requires
        is_prefix_of(a, b),
        is_prefix_of(b, c),
    ensures
        is_prefix_of(a, c),
{
    assert(c.subrange(0, a.len() as int) =~= b.subrange(0, a.len() as int));
}

/// Compares two components.
pub fn same_component(a: &String, b: &String) -> (r: bool)
    ensures
        r == (a@ == b@),
{
    a.eq(b)
}

/// Appends a copy of `component` to `path`.
pub fn push_component(path: &mut Vec<String>, component: &String)
    ensures
        final(path).deep_view() == old(path).deep_view().push(component@),
{
    let c = component.clone();
    let ghost before = path.deep_view();
    path.push(c);
    assert(path.deep_view() =~= before.push(c@));
}

/// Whether `prefix` is `path` or one of its ancestors, component by component.
pub fn starts_with(path: &Vec<String>, prefix: &Vec<String>) -> (r: bool)
    ensures
        r == is_prefix_of(prefix.deep_view(), path.deep_view()),
{
    if prefix.len() > path.len() {
        return false;
    }
    let mut i: usize = 0;
    while i < prefix.len()
        invariant
            i <= prefix.len() <= path.len(),
            forall|k: int| 0 <= k < i ==> path.deep_view()[k] == prefix.deep_view()[k],
        decreases prefix.len() - i,
    {
        if !same_component(&path[i], &prefix[i]) {
            assert(path.deep_view().subrange(0, prefix.len() as int)[i as int]
                != prefix.deep_view()[i as int]);
            return false;
        }
        i += 1;
    }
    assert(path.deep_view().subrange(0, prefix.len() as int) =~= prefix.deep_view());
    true
}

/// Copies the components of `path` from `start` on into a new path.
pub fn suffix_from(path: &Vec<String>, start: usize) -> (r: Vec<String>)
    requires
        start <= path.len(),
    ensures
        r.deep_view() == path.deep_view().skip(start as int),
{
    let mut r: Vec<String> = Vec::new();
    let mut i: usize = start;
    while i < path.len()
        invariant
            start <= i <= path.len(),
            r.deep_view() == path.deep_view().subrange(start as int, i as int),
        decreases path.len() - i,
    {
        push_component(&mut r, &path[i]);
        assert(r.deep_view() =~= path.deep_view().subrange(start as int, i + 1));
        i += 1;
    }
    assert(path.deep_view().subrange(start as int, path.len() as int)
        =~= path.deep_view().skip(start as int));
    r
}

/// The part of `path` below `base`, if `base` is `path` or one of its ancestors.
pub fn strip_prefix(path: &Vec<String>, base: &Vec<String>) -> (r: Option<Vec<String>>)
    ensures
        r is Some <==> is_prefix_of(base.deep_view(), path.deep_view()),
        r matches Some(rest) ==> rest.deep_view() == path.deep_view().skip(base.len() as int),
{
    if starts_with(path, base) {
        Some(suffix_from(path, base.len()))
    } else {
        None
    }
}

/// `base` followed by the components of `relative`.
pub fn join(base: &Vec<String>, relative: &Vec<String>) -> (r: Vec<String>)
    ensures
        r.deep_view() == base.deep_view() + relative.deep_view(),
{
    let mut r = base.clone();
    assert(r.deep_view() =~= base.deep_view());
    let mut i: usize = 0;
    while i < relative.len()
        invariant
            i <= relative.len(),
            r.deep_view() == base.deep_view() + relative.deep_view().take(i as int),
        decreases relative.len() - i,
    {
        push_component(&mut r, &relative[i]);
        proof {
            assert(r.deep_view() =~= base.deep_view() + relative.deep_view().take(i + 1));
        }
        i += 1;
    }
    assert(relative.deep_view().take(relative.len() as int) =~= relative.deep_view());
    r
}

/// `path` without its last component; the empty path stays empty.
pub fn parent(path: &Vec<String>) -> (r: Vec<String>)
    ensures
        path.len() > 0 ==> r.deep_view() == path.deep_view().drop_last(),
        path.len() == 0 ==> r.deep_view().len() == 0,
{
    let mut r: Vec<String> = Vec::new();
    if path.len() == 0 {
        return r;
    }
    let mut i: usize = 0;
    while i + 1 < path.len()
        invariant
            0 < path.len(),
            i < path.len(),
            r.deep_view() == path.deep_view().take(i as int),
        decreases path.len() - i,
    {
        push_component(&mut r, &path[i]);
        proof {
            assert(r.deep_view() =~= path.deep_view().take(i + 1));
        }
        i += 1;
    }
    assert(path.deep_view().take(i as int) =~= path.deep_view().drop_last());
    r
}

} // verus!
