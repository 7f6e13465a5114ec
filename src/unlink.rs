//! Taking away the links that linking a group made.
use vstd::prelude::*;

use crate::link::{apply_link, link_plan};
use crate::probe::{entries_view, Entry, EntryView, Probe, ProbeView};
use crate::target::{link_target, symlink_target};

verus! {

/// What unlinking does with one home entry.
pub enum UnlinkStep {
    /// Not a symlink: never touched.
    Keep,
    /// A symlink with exactly the target that linking gives it: delete it.
    RemoveLink,
    /// Conflict: a symlink with some other target, left alone.
    WrongTarget { found: String, expected: String },
}

pub ghost enum UnlinkStepView {
    Keep,
    RemoveLink,
    WrongTarget { found: Seq<char>, expected: Seq<char> },
}

impl View for UnlinkStep {
    type V = UnlinkStepView;

    open spec fn view(&self) -> UnlinkStepView {
        match self {
            UnlinkStep::Keep => UnlinkStepView::Keep,
            UnlinkStep::RemoveLink => UnlinkStepView::RemoveLink,
            UnlinkStep::WrongTarget { found, expected } => UnlinkStepView::WrongTarget {
                found: found@,
                expected: expected@,
            },
        }
    }
}

pub open spec fn decide_unlink(e: EntryView, group: Seq<char>) -> UnlinkStepView {
    match e.home {
        ProbeView::Symlink(t) => if t == link_target(e.relative, group) {
            UnlinkStepView::RemoveLink
        } else {
            UnlinkStepView::WrongTarget { found: t, expected: link_target(e.relative, group) }
        },
        _ => UnlinkStepView::Keep,
    }
}

pub open spec fn unlink_plan(entries: Seq<EntryView>, group: Seq<char>) -> Seq<UnlinkStepView> {
    Seq::new(entries.len(), |i: int| decide_unlink(entries[i], group))
}

/// Decides, for each home entry at a path of the group tree, whether it is a
/// link of this group to delete.
pub fn unlink(entries: &Vec<Entry>, group_name: &str) -> (steps: Vec<UnlinkStep>)
    ensures
        steps@.len() == entries@.len(),
        forall|i: int|
            0 <= i < entries@.len() ==> #[trigger] steps@[i]@ == unlink_plan(
                entries_view(entries@),
                group_name@,
            )[i],
{
    let mut steps: Vec<UnlinkStep> = Vec::new();
    let mut i: usize = 0;
    while i < entries.len()
        invariant
            i <= entries.len(),
            steps@.len() == i,
            forall|k: int|
                0 <= k < i ==> #[trigger] steps@[k]@ == decide_unlink(entries@[k]@, group_name@),
        decreases entries.len() - i,
    {
        let entry = &entries[i];
        let step = match &entry.home {
            Probe::Symlink(t) => {
                let expected = symlink_target(&entry.relative, group_name);
                if t.eq(&expected) {
                    UnlinkStep::RemoveLink
                } else {
                    UnlinkStep::WrongTarget { found: t.clone(), expected }
                }
            },
            _ => UnlinkStep::Keep,
        };
        steps.push(step);
        i += 1;
    }
    steps
}

/// Unlinking undoes linking: every link that a link pass made or found in
/// place is deleted by an unlink pass over the tree it left behind.
pub proof fn lemma_unlink_removes_links(entries: Seq<EntryView>, group: Seq<char>, i: int)
    requires
        0 <= i < entries.len(),
        link_plan(entries, group)[i] is CreateSymlink || link_plan(entries, group)[i]
            is AlreadyLinked,
    ensures
        unlink_plan(apply_link(entries, group), group)[i] == UnlinkStepView::RemoveLink,
{
}

/// The group paths whose home counterpart is a symlink, whatever its target;
/// the group folder itself is left out.
pub open spec fn is_link_below_root(e: EntryView) -> bool {
    e.relative.len() > 0 && e.home is Symlink
}

/// Picks the home paths that hold a symlink of any target, among the paths of
/// a group tree.
pub fn remove_links(entries: &Vec<Entry>) -> (r: Vec<Vec<String>>)
    ensures
        r.deep_view() == entries_view(entries@).filter(|e: EntryView| is_link_below_root(e)).map_values(
            |e: EntryView| e.relative,
        ),
{
    let ghost ev = entries_view(entries@);
    let ghost pred = |e: EntryView| is_link_below_root(e);
    let mut r: Vec<Vec<String>> = Vec::new();
    let mut i: usize = 0;
    while i < entries.len()
        invariant
            i <= entries.len(),
            ev == entries_view(entries@),
            pred == (|e: EntryView| is_link_below_root(e)),
            r.deep_view() == ev.take(i as int).filter(pred).map_values(|e: EntryView| e.relative),
        decreases entries.len() - i,
    {
        let entry = &entries[i];
        proof {
            reveal(Seq::filter);
            assert(ev.take(i + 1).drop_last() =~= ev.take(i as int));
            assert(ev.take(i + 1).last() == entry@);
        }
        let is_link = match &entry.home {
            Probe::Symlink(_) => true,
            _ => false,
        };
        if entry.relative.len() > 0 && is_link {
            let ghost before = r.deep_view();
            r.push(entry.relative.clone());
            proof {
                assert(r.deep_view() =~= before.push(entry.relative.deep_view()));
                assert(ev.take(i + 1).filter(pred) == ev.take(i as int).filter(pred).push(entry@));
                assert(r.deep_view() =~= ev.take(i + 1).filter(pred).map_values(
                    |e: EntryView| e.relative,
                ));
            }
        } else {
            assert(ev.take(i + 1).filter(pred) == ev.take(i as int).filter(pred));
        }
        i += 1;
    }
    assert(ev.take(entries.len() as int) =~= ev);
    r
}

} // verus!
