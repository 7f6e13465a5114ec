//! The copy that stands in for a rename across filesystems.
use vstd::prelude::*;

use crate::path::join;
use crate::probe::{Probe, ProbeView};

verus! {

/// One entry of a walk over the tree to move, parents before children.
pub struct TreeItem {
    /// The path below the root of the walk; empty for the root itself.
    pub relative: Vec<String>,
    pub found: Probe,
}

/// One step of the copy.
pub enum CopyStep {
    CreateDirectory(Vec<String>),
    CopyFile { from: Vec<String>, to: Vec<String> },
    CreateSymlink { at: Vec<String>, target: String },
    /// The entry was gone by the time it was probed.
    Nothing,
}

pub ghost enum CopyStepView {
    CreateDirectory(Seq<Seq<char>>),
    CopyFile { from: Seq<Seq<char>>, to: Seq<Seq<char>> },
    CreateSymlink { at: Seq<Seq<char>>, target: Seq<char> },
    Nothing,
}

impl View for CopyStep {
    type V = CopyStepView;

    open spec fn view(&self) -> CopyStepView {
        match self {
            CopyStep::CreateDirectory(p) => CopyStepView::CreateDirectory(p.deep_view()),
            CopyStep::CopyFile { from, to } => CopyStepView::CopyFile {
                from: from.deep_view(),
                to: to.deep_view(),
            },
            CopyStep::CreateSymlink { at, target } => CopyStepView::CreateSymlink {
                at: at.deep_view(),
                target: target@,
            },
            CopyStep::Nothing => CopyStepView::Nothing,
        }
    }
}

/// The step that recreates, below `destination`, the entry found below `source`.
pub open spec fn copy_step(
    source: Seq<Seq<char>>,
    destination: Seq<Seq<char>>,
    relative: Seq<Seq<char>>,
    found: ProbeView,
) -> CopyStepView {
    match found {
        ProbeView::Directory => CopyStepView::CreateDirectory(destination + relative),
        ProbeView::Regular => CopyStepView::CopyFile {
            from: source + relative,
            to: destination + relative,
        },
        ProbeView::Symlink(t) => CopyStepView::CreateSymlink { at: destination + relative, target: t },
        ProbeView::Absent => CopyStepView::Nothing,
    }
}

/// What a step leaves behind: the path it makes and what a probe then finds there.
pub open spec fn made_by(step: CopyStepView) -> Option<(Seq<Seq<char>>, ProbeView)> {
    match step {
        CopyStepView::CreateDirectory(p) => Some((p, ProbeView::Directory)),
        CopyStepView::CopyFile { to, .. } => Some((to, ProbeView::Regular)),
        CopyStepView::CreateSymlink { at, target } => Some((at, ProbeView::Symlink(target))),
        CopyStepView::Nothing => None,
    }
}

/// Plans the copy of the tree walked below `source` to `destination`, in walk
/// order, so that every directory exists before what goes in it.
pub fn plan_copy(source: &Vec<String>, destination: &Vec<String>, walk: &Vec<TreeItem>) -> (steps:
    Vec<CopyStep>)
    ensures
        steps@.len() == walk@.len(),
        forall|i: int|
            0 <= i < walk@.len() ==> #[trigger] steps@[i]@ == copy_step(
                source.deep_view(),
                destination.deep_view(),
                walk@[i].relative.deep_view(),
                walk@[i].found@,
            ),
{
    let mut steps: Vec<CopyStep> = Vec::new();
    let mut i: usize = 0;
    while i < walk.len()
        invariant
            i <= walk.len(),
            steps@.len() == i,
            forall|k: int|
                0 <= k < i ==> #[trigger] steps@[k]@ == copy_step(
                    source.deep_view(),
                    destination.deep_view(),
                    walk@[k].relative.deep_view(),
                    walk@[k].found@,
                ),
        decreases walk.len() - i,
    {
        let item = &walk[i];
        let step = match &item.found {
            Probe::Directory => CopyStep::CreateDirectory(join(destination, &item.relative)),
            Probe::Regular => CopyStep::CopyFile {
                from: join(source, &item.relative),
                to: join(destination, &item.relative),
            },
            Probe::Symlink(t) => CopyStep::CreateSymlink {
                at: join(destination, &item.relative),
                target: t.clone(),
            },
            Probe::Absent => CopyStep::Nothing,
        };
        steps.push(step);
        i += 1;
    }
    steps
}

/// The copy keeps the tree: every entry found below `source` is made again at
/// the same relative place below `destination`, of the same kind and, for a
/// symlink, with the very same target; a file's bytes come from its
/// counterpart below `source`.
pub proof fn lemma_copy_keeps_tree(
    source: Seq<Seq<char>>,
    destination: Seq<Seq<char>>,
    relative: Seq<Seq<char>>,
    found: ProbeView,
)
    requires
        !(found is Absent),
    ensures
        made_by(copy_step(source, destination, relative, found)) == Some(
            (destination + relative, found),
        ),
        copy_step(source, destination, relative, found) matches CopyStepView::CopyFile { from, .. }
            ==> from == source + relative,
{
}

} // verus!
