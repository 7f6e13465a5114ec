//! The literal target that a link made for a group entry carries.
use vstd::prelude::*;

verus! {

/// `n` climbs out of a directory, `../` each.
pub open spec fn climb(n: nat) -> Seq<char>
    decreases n,
{
    if n == 0 {
        Seq::empty()
    } else {
        climb((n - 1) as nat) + seq!['.', '.', '/']
    }
}

/// The components written one after another with `/` between them.
pub open spec fn join_components(parts: Seq<Seq<char>>) -> Seq<char>
    decreases parts.len(),
{
    if parts.len() == 0 {
        Seq::empty()
    } else if parts.len() == 1 {
        parts[0]
    } else {
        join_components(parts.drop_last()) + seq!['/'] + parts.last()
    }
}

/// The name of the folder, directly under home, that holds the groups.
pub open spec fn store_name() -> Seq<char> {
    seq!['d', 'o', 't', 'f', 'i', 'l', 'e', 's']
}

/// How many directories a link at `relative` (below home) has to climb to reach home.
pub open spec fn depth_below_home(relative: Seq<Seq<char>>) -> nat {
    if relative.len() == 0 {
        0
    } else {
        (relative.len() - 1) as nat
    }
}

/// The target of the link at `relative` for group `group`: one climb for each
/// directory above the link, then `dotfiles/<group>/<relative>`.
pub open spec fn link_target(relative: Seq<Seq<char>>, group: Seq<char>) -> Seq<char> {
    climb(depth_below_home(relative)) + join_components(seq![store_name(), group] + relative)
}

/// Computes the literal target of the link at `relative` for the group `group_name`.
pub fn symlink_target(relative: &Vec<String>, group_name: &str) -> (r: String)
    ensures
        r@ == link_target(relative.deep_view(), group_name@),
{
    let mut r = String::new();
    let n = relative.len();
    let climbs: usize = if n == 0 { 0 } else { n - 1 };
    let mut i: usize = 0;
    while i < climbs
        invariant
            i <= climbs,
            r@ == climb(i as nat),
        decreases climbs - i,
    {
        r.append("../");
        proof {
            reveal_strlit("../");
        }
        i += 1;
    }
    let ghost head = r@;
    let ghost rel = relative.deep_view();
    let ghost base = seq![store_name(), group_name@];
    r.append("dotfiles");
    r.append("/");
    r.append(group_name);
    proof {
        reveal_strlit("dotfiles");
        reveal_strlit("/");
        assert(base.drop_last() =~= seq![store_name()]);
        assert(join_components(base.drop_last()) == store_name());
        assert(r@ =~= head + join_components(base));
        assert(base + rel.take(0) =~= base);
    }
    let mut j: usize = 0;
    while j < n
        invariant
            n == relative.len(),
            j <= n,
            rel == relative.deep_view(),
            base.len() == 2,
            r@ == head + join_components(base + rel.take(j as int)),
        decreases n - j,
    {
        let ghost before = r@;
        r.append("/");
        r.append(relative[j].as_str());
        proof {
            reveal_strlit("/");
            let parts = base + rel.take(j + 1);
            assert(parts.drop_last() =~= base + rel.take(j as int));
            assert(parts.last() == rel[j as int]);
            assert(r@ =~= head + join_components(parts));
        }
        j += 1;
    }
    proof {
        assert(rel.take(n as int) =~= rel);
        assert(climbs as nat == depth_below_home(rel));
    }
    r
}

/// An absolute path as text: `/` and then its components joined by `/`.
pub open spec fn rendered(path: Seq<Seq<char>>) -> Seq<char> {
    seq!['/'] + join_components(path)
}

/// Writes an absolute path as text.
pub fn render_absolute(path: &Vec<String>) -> (r: String)
    ensures
        r@ == rendered(path.deep_view()),
{
    let ghost p = path.deep_view();
    let mut r = String::new();
    r.append("/");
    proof {
        reveal_strlit("/");
        assert(p.take(0) =~= Seq::<Seq<char>>::empty());
        assert(r@ =~= rendered(p.take(0)));
    }
    let mut j: usize = 0;
    while j < path.len()
        invariant
            j <= path.len(),
            p == path.deep_view(),
            r@ == rendered(p.take(j as int)),
        decreases path.len() - j,
    {
        if j > 0 {
            r.append("/");
        }
        r.append(path[j].as_str());
        proof {
            reveal_strlit("/");
            let parts = p.take(j + 1);
            assert(parts.drop_last() =~= p.take(j as int));
            assert(parts.last() == p[j as int]);
            if j == 0 {
                assert(parts.len() == 1);
            }
            assert(r@ =~= rendered(parts));
        }
        j += 1;
    }
    assert(p.take(path.len() as int) =~= p);
    r
}

} // verus!
