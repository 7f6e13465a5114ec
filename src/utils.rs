//! Small helpers over lists of paths.
use vstd::prelude::*;

use crate::path::is_strict_ancestor;
use crate::path_set::PathSet;

verus! {

/// Some path of `paths` is a proper ancestor of `p`.
pub open spec fn nested_in(paths: Seq<Seq<Seq<char>>>, p: Seq<Seq<char>>) -> bool {
    exists|j: int| 0 <= j < paths.len() && is_strict_ancestor(#[trigger] paths[j], p)
}

/// Removes every path that lies below another path of the list, keeping the
/// order of the rest. Equal paths are kept.
pub fn dedup_nested(paths: &mut Vec<Vec<String>>)
    ensures
        final(paths).deep_view() == old(paths).deep_view().filter(
            |p: Seq<Seq<char>>| !nested_in(old(paths).deep_view(), p),
        ),
{
    let ghost all = paths.deep_view();
    let ghost pred = |p: Seq<Seq<char>>| !nested_in(all, p);
    let mut set = PathSet::new();
    let mut k: usize = 0;
    while k < paths.len()
        invariant
            k <= paths.len(),
            all == paths.deep_view(),
            forall|a: Seq<Seq<char>>|
                set@.contains(a) <==> exists|j: int| 0 <= j < k && a == #[trigger] all[j],
        decreases paths.len() - k,
    {
        let ghost before = set@;
        set.insert(&paths[k]);
        proof {
            assert forall|a: Seq<Seq<char>>| set@.contains(a) implies exists|j: int|
                0 <= j < k + 1 && a == #[trigger] all[j] by {
                if a != all[k as int] {
                    assert(before.contains(a));
                }
            }
        }
        k += 1;
    }
    let mut kept: Vec<Vec<String>> = Vec::new();
    let mut i: usize = 0;
    while i < paths.len()
        invariant
            i <= paths.len(),
            all == paths.deep_view(),
            pred == (|p: Seq<Seq<char>>| !nested_in(all, p)),
            kept.deep_view() == all.take(i as int).filter(pred),
            forall|a: Seq<Seq<char>>|
                set@.contains(a) <==> exists|j: int| 0 <= j < all.len() && a == #[trigger] all[j],
        decreases paths.len() - i,
    {
        let keep = !set.contains_ancestor_of(&paths[i]);
        proof {
            reveal(Seq::filter);
            let t = all.take(i + 1);
            assert(t.drop_last() =~= all.take(i as int));
            assert(t.last() == all[i as int]);
            if keep {
                assert forall|j: int| 0 <= j < all.len() implies !is_strict_ancestor(
                    #[trigger] all[j],
                    all[i as int],
                ) by {
                    assert(set@.contains(all[j]));
                }
            } else {
                let a = choose|a: Seq<Seq<char>>|
                    #[trigger] set@.contains(a) && is_strict_ancestor(a, all[i as int]);
                assert(nested_in(all, all[i as int]));
            }
            assert(pred(all[i as int]) == keep);
        }
        if keep {
            let ghost before = kept.deep_view();
            kept.push(paths[i].clone());
            proof {
                assert(kept.deep_view() =~= before.push(all[i as int]));
            }
        }
        i += 1;
    }
    assert(all.take(paths.len() as int) =~= all);
    *paths = kept;
}

} // verus!
