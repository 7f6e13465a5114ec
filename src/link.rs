//! Linking a group into home, and taking those links away again.
use vstd::prelude::*;

use crate::path::{is_prefix_of, lemma_prefix_transitive};
use crate::path_set::PathSet;
use crate::probe::{entries_view, Entry, EntryView, FileKind, Probe, ProbeView};
use crate::target::{link_target, symlink_target};

verus! {

/// What linking does with one entry of the group tree.
pub enum LinkStep {
    /// Lies inside a directory that is already linked as a whole.
    Skip,
    /// Nothing at home: make a symlink there with this target.
    CreateSymlink(String),
    /// Nothing at home where a directory is mirrored: make a plain directory.
    CreateDirectory,
    /// Home already holds the right link.
    AlreadyLinked,
    /// Home already holds the directory to descend into.
    DirectoryPresent,
    /// Conflict: home holds a symlink with another target.
    WrongTarget { found: String, expected: String },
    /// Conflict: home holds a file or directory where the link should go.
    Occupied(FileKind),
    /// Conflict: home holds a non-directory where a directory is mirrored.
    NotADirectory(FileKind),
}

pub ghost enum LinkStepView {
    Skip,
    CreateSymlink(Seq<char>),
    CreateDirectory,
    AlreadyLinked,
    DirectoryPresent,
    WrongTarget { found: Seq<char>, expected: Seq<char> },
    Occupied(FileKind),
    NotADirectory(FileKind),
}

impl View for LinkStep {
    type V = LinkStepView;

    open spec fn view(&self) -> LinkStepView {
        match self {
            LinkStep::Skip => LinkStepView::Skip,
            LinkStep::CreateSymlink(t) => LinkStepView::CreateSymlink(t@),
            LinkStep::CreateDirectory => LinkStepView::CreateDirectory,
            LinkStep::AlreadyLinked => LinkStepView::AlreadyLinked,
            LinkStep::DirectoryPresent => LinkStepView::DirectoryPresent,
            LinkStep::WrongTarget { found, expected } => LinkStepView::WrongTarget {
                found: found@,
                expected: expected@,
            },
            LinkStep::Occupied(k) => LinkStepView::Occupied(*k),
            LinkStep::NotADirectory(k) => LinkStepView::NotADirectory(*k),
        }
    }
}

pub open spec fn steps_view(steps: Seq<LinkStep>) -> Seq<LinkStepView> {
    Seq::new(steps.len(), |i: int| steps[i]@)
}

/// A directory handled as a leaf whose home counterpart is already the right link:
/// nothing below it needs linking.
pub open spec fn fully_linked(e: EntryView, group: Seq<char>) -> bool {
    &&& e.is_leaf
    &&& e.kind == FileKind::Directory
    &&& e.home == ProbeView::Symlink(link_target(e.relative, group))
}

/// Entry `i` lies at or below an earlier entry that is fully linked.
pub open spec fn covered(entries: Seq<EntryView>, i: int, group: Seq<char>) -> bool {
    exists|j: int|
        0 <= j < i && #[trigger] fully_linked(entries[j], group) && is_prefix_of(
            entries[j].relative,
            entries[i].relative,
        )
}

/// What to do with an entry that no linked directory covers.
pub open spec fn decide_link(e: EntryView, group: Seq<char>) -> LinkStepView {
    let expected = link_target(e.relative, group);
    if e.is_leaf {
        match e.home {
            ProbeView::Absent => LinkStepView::CreateSymlink(expected),
            ProbeView::Symlink(t) => if t == expected {
                LinkStepView::AlreadyLinked
            } else {
                LinkStepView::WrongTarget { found: t, expected }
            },
            ProbeView::Regular => LinkStepView::Occupied(FileKind::Regular),
            ProbeView::Directory => LinkStepView::Occupied(FileKind::Directory),
        }
    } else {
        match e.home {
            ProbeView::Absent => LinkStepView::CreateDirectory,
            ProbeView::Directory => LinkStepView::DirectoryPresent,
            ProbeView::Regular => LinkStepView::NotADirectory(FileKind::Regular),
            ProbeView::Symlink(_) => LinkStepView::NotADirectory(FileKind::Symlink),
        }
    }
}

pub open spec fn link_step(entries: Seq<EntryView>, i: int, group: Seq<char>) -> LinkStepView {
    if covered(entries, i, group) {
        LinkStepView::Skip
    } else {
        decide_link(entries[i], group)
    }
}

/// The step for each entry of the walk, in walk order.
pub open spec fn link_plan(entries: Seq<EntryView>, group: Seq<char>) -> Seq<LinkStepView> {
    Seq::new(entries.len(), |i: int| link_step(entries, i, group))
}

fn decide(entry: &Entry, group_name: &str) -> (r: LinkStep)
    ensures
        r@ == decide_link(entry@, group_name@),
{
    let expected = symlink_target(&entry.relative, group_name);
    if entry.is_leaf {
        match &entry.home {
            Probe::Absent => LinkStep::CreateSymlink(expected),
            Probe::Symlink(t) => {
                if t.eq(&expected) {
                    LinkStep::AlreadyLinked
                } else {
                    LinkStep::WrongTarget { found: t.clone(), expected }
                }
            },
            Probe::Regular => LinkStep::Occupied(FileKind::Regular),
            Probe::Directory => LinkStep::Occupied(FileKind::Directory),
        }
    } else {
        match &entry.home {
            Probe::Absent => LinkStep::CreateDirectory,
            Probe::Directory => LinkStep::DirectoryPresent,
            Probe::Regular => LinkStep::NotADirectory(FileKind::Regular),
            Probe::Symlink(_) => LinkStep::NotADirectory(FileKind::Symlink),
        }
    }
}

/// `linked` holds the paths of fully linked entries before `i`, enough of them
/// to tell which later entries they cover.
#[verifier::opaque]
spec fn linked_so_far(
    linked: Set<Seq<Seq<char>>>,
    ev: Seq<EntryView>,
    i: int,
    group: Seq<char>,
) -> bool {
    &&& forall|a: Seq<Seq<char>>|
        #[trigger] linked.contains(a) ==> exists|j: int|
            0 <= j < i && fully_linked(ev[j], group) && a == ev[j].relative
    &&& forall|j: int|
        0 <= j < i && #[trigger] fully_linked(ev[j], group) ==> exists|a: Seq<Seq<char>>|
            linked.contains(a) && is_prefix_of(a, ev[j].relative)
}

proof fn lemma_prefix_reflexive(p: Seq<Seq<char>>)
    ensures
        is_prefix_of(p, p),
{
    assert(p.subrange(0, p.len() as int) =~= p);
}

proof fn lemma_covered_by_linked(
    linked: Set<Seq<Seq<char>>>,
    ev: Seq<EntryView>,
    i: int,
    group: Seq<char>,
)
    requires
        0 <= i < ev.len(),
        linked_so_far(linked, ev, i, group),
    ensures
        covered(ev, i, group) == exists|a: Seq<Seq<char>>|
            #[trigger] linked.contains(a) && is_prefix_of(a, ev[i].relative),
{
    reveal(linked_so_far);
    if exists|a: Seq<Seq<char>>| #[trigger] linked.contains(a) && is_prefix_of(a, ev[i].relative) {
        let a = choose|a: Seq<Seq<char>>| #[trigger]
            linked.contains(a) && is_prefix_of(a, ev[i].relative);
        let j = choose|j: int| 0 <= j < i && fully_linked(ev[j], group) && a == ev[j].relative;
        assert(covered(ev, i, group));
    }
    if covered(ev, i, group) {
        let j = choose|j: int|
            0 <= j < i && #[trigger] fully_linked(ev[j], group) && is_prefix_of(
                ev[j].relative,
                ev[i].relative,
            );
        let a = choose|a: Seq<Seq<char>>| linked.contains(a) && is_prefix_of(a, ev[j].relative);
        lemma_prefix_transitive(a, ev[j].relative, ev[i].relative);
        assert(linked.contains(a) && is_prefix_of(a, ev[i].relative));
    }
}

proof fn lemma_linked_advance(
    linked: Set<Seq<Seq<char>>>,
    ev: Seq<EntryView>,
    i: int,
    group: Seq<char>,
)
    requires
        0 <= i < ev.len(),
        linked_so_far(linked, ev, i, group),
    ensures
        (!covered(ev, i, group) && fully_linked(ev[i], group)) ==> linked_so_far(
            linked.insert(ev[i].relative),
            ev,
            i + 1,
            group,
        ),
        !(!covered(ev, i, group) && fully_linked(ev[i], group)) ==> linked_so_far(
            linked,
            ev,
            i + 1,
            group,
        ),
{
    lemma_covered_by_linked(linked, ev, i, group);
    reveal(linked_so_far);
    if !covered(ev, i, group) && fully_linked(ev[i], group) {
        let n = linked.insert(ev[i].relative);
        assert forall|a: Seq<Seq<char>>| #[trigger] n.contains(a) implies exists|j: int|
            0 <= j < i + 1 && fully_linked(ev[j], group) && a == ev[j].relative by {
            if a != ev[i].relative {
                assert(linked.contains(a));
            }
        }
        assert forall|j: int|
            0 <= j < i + 1 && #[trigger] fully_linked(ev[j], group) implies exists|
            a: Seq<Seq<char>>,
        | n.contains(a) && is_prefix_of(a, ev[j].relative) by {
            if j < i {
                let a = choose|a: Seq<Seq<char>>|
                    linked.contains(a) && is_prefix_of(a, ev[j].relative);
                assert(n.contains(a));
            } else {
                lemma_prefix_reflexive(ev[i].relative);
                assert(n.contains(ev[j].relative));
            }
        }
    } else {
        assert forall|j: int|
            0 <= j < i + 1 && #[trigger] fully_linked(ev[j], group) implies exists|
            a: Seq<Seq<char>>,
        | linked.contains(a) && is_prefix_of(a, ev[j].relative) by {
            if j == i {
                let a = choose|a: Seq<Seq<char>>|
                    #[trigger] linked.contains(a) && is_prefix_of(a, ev[i].relative);
                assert(linked.contains(a) && is_prefix_of(a, ev[j].relative));
            }
        }
    }
}

/// Decides, for each entry of a walk over the group tree (parents before
/// children), what linking it into home takes.
pub fn link(entries: &Vec<Entry>, group_name: &str) -> (steps: Vec<LinkStep>)
    ensures
        steps_view(steps@) == link_plan(entries_view(entries@), group_name@),
{
    let ghost ev = entries_view(entries@);
    let ghost group = group_name@;
    let mut linked = PathSet::new();
    let mut steps: Vec<LinkStep> = Vec::new();
    proof {
        reveal(linked_so_far);
    }
    let mut i: usize = 0;
    while i < entries.len()
        invariant
            i <= entries.len(),
            ev == entries_view(entries@),
            group == group_name@,
            steps@.len() == i,
            forall|k: int| 0 <= k < i ==> #[trigger] steps@[k]@ == link_step(ev, k, group),
            linked_so_far(linked@, ev, i as int, group),
        decreases entries.len() - i,
    {
        let entry = &entries[i];
        assert(ev[i as int] == entry@);
        let is_covered = linked.contains_prefix_of(&entry.relative);
        proof {
            lemma_covered_by_linked(linked@, ev, i as int, group);
            lemma_linked_advance(linked@, ev, i as int, group);
        }
        let step = if is_covered {
            LinkStep::Skip
        } else {
            let s = decide(entry, group_name);
            if entry.is_leaf && entry.kind == FileKind::Directory {
                if let LinkStep::AlreadyLinked = s {
                    linked.insert(&entry.relative);
                }
            }
            s
        };
        steps.push(step);
        i += 1;
    }
    assert(steps_view(steps@) =~= link_plan(ev, group));
    steps
}

/// The step changes home.
pub open spec fn is_mutation(step: LinkStepView) -> bool {
    step is CreateSymlink || step is CreateDirectory
}

/// The entry as a later probe finds it once `step` has been carried out.
pub open spec fn after_step(e: EntryView, step: LinkStepView) -> EntryView {
    match step {
        LinkStepView::CreateSymlink(t) => EntryView { home: ProbeView::Symlink(t), ..e },
        LinkStepView::CreateDirectory => EntryView { home: ProbeView::Directory, ..e },
        _ => e,
    }
}

/// The entries as probed again after a whole link pass.
pub open spec fn apply_link(entries: Seq<EntryView>, group: Seq<char>) -> Seq<EntryView> {
    Seq::new(entries.len(), |i: int| after_step(entries[i], link_step(entries, i, group)))
}

/// Linking is idempotent: a second pass over the home tree that a first pass
/// left behind plans no change at all, so the home tree stays as it was.
pub proof fn lemma_link_idempotent(entries: Seq<EntryView>, group: Seq<char>)
    ensures
        forall|i: int|
            0 <= i < entries.len() ==> !is_mutation(
                #[trigger] link_plan(apply_link(entries, group), group)[i],
            ),
        apply_link(apply_link(entries, group), group) == apply_link(entries, group),
{
    let after = apply_link(entries, group);
    assert forall|j: int|
        0 <= j < entries.len() && #[trigger] fully_linked(entries[j], group) implies fully_linked(
        after[j],
        group,
    ) by {
        assert(!is_mutation(link_step(entries, j, group)));
    }
    assert forall|i: int| 0 <= i < entries.len() implies !is_mutation(
        #[trigger] link_step(after, i, group),
    ) && after_step(after[i], link_step(after, i, group)) == after[i] by {
        if !covered(after, i, group) {
            if covered(entries, i, group) {
                let j = choose|j: int|
                    0 <= j < i && #[trigger] fully_linked(entries[j], group) && is_prefix_of(
                        entries[j].relative,
                        entries[i].relative,
                    );
                assert(fully_linked(after[j], group));
                assert(covered(after, i, group));
            }
        }
    }
    assert(apply_link(after, group) =~= after);
}

} // verus!
