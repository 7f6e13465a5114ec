//! Moving files from below home into a group folder.
use vstd::prelude::*;

use crate::path::{is_prefix_of, is_strict_ancestor, join, parent, strip_prefix};
use crate::path_set::PathSet;
use crate::probe::{found_kind, kind_name, ConflictResolution, FileKind, Found, FoundView};
use crate::target::{render_absolute, rendered};

verus! {

/// One path to import, resolved against both trees.
pub struct ImportTarget {
    /// The path as it was given, for messages.
    pub given: String,
    /// The absolute path below home.
    pub source: Vec<String>,
    /// The path below home, and below the group folder.
    pub relative: Vec<String>,
    /// The absolute path inside the group folder that it moves to.
    pub destination: Vec<String>,
}

/// Why an import cannot go on.
pub enum ImportError {
    /// The path lies outside home.
    OutsideHome { given: String, absolute: Vec<String> },
    /// Nothing stands at the path to import.
    SourceMissing { source: Vec<String> },
    /// Both are regular files, with different bytes.
    ContentDiffers { source: Vec<String>, destination: Vec<String> },
    /// Both are symlinks, with different targets.
    TargetDiffers { source: Vec<String>, destination: Vec<String> },
    /// Both are directories, and the one in the group folder is not empty.
    DirectoryNotEmpty { source: Vec<String>, destination: Vec<String> },
    /// The two are of different kinds.
    KindMismatch {
        source: Vec<String>,
        destination: Vec<String>,
        source_kind: FileKind,
        destination_kind: FileKind,
    },
}

/// The text that reports an import error.
pub open spec fn import_message(e: ImportError) -> Seq<char> {
    match e {
        ImportError::OutsideHome { given, absolute } => "only files below home can be imported, but "@
            + given@ + " is at "@ + rendered(absolute.deep_view()),
        ImportError::SourceMissing { source } => "nothing to import at "@ + rendered(
            source.deep_view(),
        ),
        ImportError::ContentDiffers { source, destination } => "cannot import "@ + rendered(
            source.deep_view(),
        ) + ": "@ + rendered(destination.deep_view()) + " already exists and its content differs"@,
        ImportError::TargetDiffers { source, destination } => "cannot import "@ + rendered(
            source.deep_view(),
        ) + ": "@ + rendered(destination.deep_view())
            + " already exists as a symlink with another target"@,
        ImportError::DirectoryNotEmpty { source, destination } => "cannot import "@ + rendered(
            source.deep_view(),
        ) + ": "@ + rendered(destination.deep_view()) + " already exists and is not empty"@,
        ImportError::KindMismatch { source, destination, source_kind, destination_kind } =>
            "cannot import "@ + rendered(source.deep_view()) + ", a "@ + kind_name(source_kind)
            + ": "@ + rendered(destination.deep_view()) + " already exists as a "@ + kind_name(
            destination_kind,
        ),
    }
}

impl ImportError {
    /// Describes the error, naming the paths involved.
    pub fn message(&self) -> (r: String)
        ensures
            r@ == import_message(*self),
    {
        let mut r = String::new();
        match self {
            ImportError::OutsideHome { given, absolute } => {
                r.append("only files below home can be imported, but ");
                r.append(given.as_str());
                r.append(" is at ");
                r.append(render_absolute(absolute).as_str());
            },
            ImportError::SourceMissing { source } => {
                r.append("nothing to import at ");
                r.append(render_absolute(source).as_str());
            },
            ImportError::ContentDiffers { source, destination } => {
                r.append("cannot import ");
                r.append(render_absolute(source).as_str());
                r.append(": ");
                r.append(render_absolute(destination).as_str());
                r.append(" already exists and its content differs");
            },
            ImportError::TargetDiffers { source, destination } => {
                r.append("cannot import ");
                r.append(render_absolute(source).as_str());
                r.append(": ");
                r.append(render_absolute(destination).as_str());
                r.append(" already exists as a symlink with another target");
            },
            ImportError::DirectoryNotEmpty { source, destination } => {
                r.append("cannot import ");
                r.append(render_absolute(source).as_str());
                r.append(": ");
                r.append(render_absolute(destination).as_str());
                r.append(" already exists and is not empty");
            },
            ImportError::KindMismatch { source, destination, source_kind, destination_kind } => {
                r.append("cannot import ");
                r.append(render_absolute(source).as_str());
                r.append(", a ");
                r.append(source_kind.name());
                r.append(": ");
                r.append(render_absolute(destination).as_str());
                r.append(" already exists as a ");
                r.append(destination_kind.name());
            },
        }
        proof {
            assert(r@ =~= import_message(*self));
        }
        r
    }
}

/// Where an absolute path moves to: `Some(None)` when it already lies in the
/// group folder, `Some(Some((relative, destination)))` when it lies elsewhere
/// below home, `None` when it lies outside home.
pub open spec fn import_destination(
    home: Seq<Seq<char>>,
    group: Seq<Seq<char>>,
    absolute: Seq<Seq<char>>,
) -> Option<Option<(Seq<Seq<char>>, Seq<Seq<char>>)>> {
    if is_prefix_of(group, absolute) {
        Some(None)
    } else if is_prefix_of(home, absolute) {
        Some(Some((absolute.skip(home.len() as int), group + absolute.skip(home.len() as int))))
    } else {
        None
    }
}

/// Resolves an absolute path given to import; `Ok(None)` means it already
/// lies in the group folder and is skipped.
pub fn resolve_import(home: &Vec<String>, group: &Vec<String>, given: String, absolute: Vec<String>) -> (r:
    Result<Option<ImportTarget>, ImportError>)
    ensures
        ({
            let expected = import_destination(
                home.deep_view(),
                group.deep_view(),
                absolute.deep_view(),
            );
            match r {
                Ok(None) => expected == Some(None::<(Seq<Seq<char>>, Seq<Seq<char>>)>),
                Ok(Some(t)) => {
                    &&& expected == Some(Some((t.relative.deep_view(), t.destination.deep_view())))
                    &&& t.source.deep_view() == absolute.deep_view()
                    &&& t.given == given
                },
                Err(e) => expected is None && e is OutsideHome,
            }
        }),
{
    if strip_prefix(&absolute, group).is_some() {
        return Ok(None);
    }
    match strip_prefix(&absolute, home) {
        Some(relative) => {
            let destination = join(group, &relative);
            Ok(Some(ImportTarget { given, source: absolute, relative, destination }))
        },
        None => Err(ImportError::OutsideHome { given, absolute }),
    }
}

/// Byte equality, checking the lengths first.
pub fn same_content(a: &Vec<u8>, b: &Vec<u8>) -> (r: bool)
    ensures
        r == (a@ == b@),
{
    if a.len() != b.len() {
        return false;
    }
    let mut i: usize = 0;
    while i < a.len()
        invariant
            i <= a.len() == b.len(),
            forall|k: int| 0 <= k < i ==> a@[k] == b@[k],
        decreases a.len() - i,
    {
        if a[i] != b[i] {
            return false;
        }
        i += 1;
    }
    assert(a@ =~= b@);
    true
}

/// How an import meets what already stands in the group folder, if it may go on.
pub open spec fn import_resolution(source: FoundView, destination: FoundView) -> Option<
    ConflictResolution,
> {
    match (source, destination) {
        (FoundView::Absent, _) => None,
        (_, FoundView::Absent) => Some(ConflictResolution::NoConflict),
        (FoundView::Regular(a), FoundView::Regular(b)) => if a == b {
            Some(ConflictResolution::SkipThis)
        } else {
            None
        },
        (FoundView::Symlink { target: a, .. }, FoundView::Symlink { target: b, .. }) => if a == b {
            Some(ConflictResolution::SkipThis)
        } else {
            None
        },
        (FoundView::Directory(_), FoundView::Directory(true)) => Some(
            ConflictResolution::DeleteDirectory,
        ),
        _ => None,
    }
}

/// The error that an import meets, where it meets one.
pub open spec fn import_error_fits(e: ImportError, source: FoundView, destination: FoundView) -> bool {
    match (source, destination) {
        (FoundView::Absent, _) => e is SourceMissing,
        (FoundView::Regular(_), FoundView::Regular(_)) => e is ContentDiffers,
        (FoundView::Symlink { .. }, FoundView::Symlink { .. }) => e is TargetDiffers,
        (FoundView::Directory(_), FoundView::Directory(_)) => e is DirectoryNotEmpty,
        _ => e matches ImportError::KindMismatch { source_kind, destination_kind, .. } && Some(
            source_kind,
        ) == found_kind(source) && Some(destination_kind) == found_kind(destination),
    }
}

fn kind_of(f: &Found) -> (r: FileKind)
    requires
        !(f@ is Absent),
    ensures
        Some(r) == found_kind(f@),
{
    match f {
        Found::Regular(_) => FileKind::Regular,
        Found::Directory(_) => FileKind::Directory,
        _ => FileKind::Symlink,
    }
}

/// Checks what stands at both ends of an import before anything moves.
pub fn classify_import(target: &ImportTarget, source_found: &Found, destination_found: &Found) -> (r:
    Result<ConflictResolution, ImportError>)
    ensures
        r matches Ok(c) ==> import_resolution(source_found@, destination_found@) == Some(c),
        r matches Err(e) ==> import_resolution(source_found@, destination_found@) is None
            && import_error_fits(e, source_found@, destination_found@),
{
    match (source_found, destination_found) {
        (Found::Absent, _) => Err(ImportError::SourceMissing { source: target.source.clone() }),
        (_, Found::Absent) => Ok(ConflictResolution::NoConflict),
        (Found::Regular(a), Found::Regular(b)) => {
            if same_content(a, b) {
                Ok(ConflictResolution::SkipThis)
            } else {
                Err(
                    ImportError::ContentDiffers {
                        source: target.source.clone(),
                        destination: target.destination.clone(),
                    },
                )
            }
        },
        (Found::Symlink { target: a, .. }, Found::Symlink { target: b, .. }) => {
            if a.eq(b) {
                Ok(ConflictResolution::SkipThis)
            } else {
                Err(
                    ImportError::TargetDiffers {
                        source: target.source.clone(),
                        destination: target.destination.clone(),
                    },
                )
            }
        },
        (Found::Directory(_), Found::Directory(is_empty)) => {
            if *is_empty {
                Ok(ConflictResolution::DeleteDirectory)
            } else {
                Err(
                    ImportError::DirectoryNotEmpty {
                        source: target.source.clone(),
                        destination: target.destination.clone(),
                    },
                )
            }
        },
        _ => Err(
            ImportError::KindMismatch {
                source: target.source.clone(),
                destination: target.destination.clone(),
                source_kind: kind_of(source_found),
                destination_kind: kind_of(destination_found),
            },
        ),
    }
}

/// An import that passed its checks.
pub struct ImportItem {
    pub target: ImportTarget,
    pub resolution: ConflictResolution,
}

/// What an import batch does, once every target has been checked.
pub struct ImportPlan {
    /// Directories to create (with their ancestors) before any move.
    pub directories: Vec<Vec<String>>,
    /// The moves, in the order given.
    pub moves: Vec<ImportItem>,
}

pub open spec fn moves_of(items: Seq<ImportItem>) -> Seq<ImportItem> {
    items.filter(|it: ImportItem| it.resolution != ConflictResolution::SkipThis)
}

/// The directory that a move's destination lies in.
pub open spec fn parent_of(p: Seq<Seq<char>>) -> Seq<Seq<char>> {
    if p.len() == 0 {
        p
    } else {
        p.drop_last()
    }
}

pub open spec fn parents_of(moves: Seq<ImportItem>) -> Seq<Seq<Seq<char>>> {
    moves.map_values(|it: ImportItem| parent_of(it.target.destination.deep_view()))
}

/// The parent directories that no other parent directory lies below:
/// creating them, ancestors included, creates every parent.
pub open spec fn deepest(parents: Seq<Seq<Seq<char>>>) -> Set<Seq<Seq<char>>> {
    Set::new(
        |p: Seq<Seq<char>>|
            parents.contains(p) && !(exists|q: Seq<Seq<char>>|
                #[trigger] parents.contains(q) && is_strict_ancestor(p, q)),
    )
}

/// Puts the checked targets of one import in order: the moves, and the
/// directories to create first, each once.
pub fn import(items: Vec<ImportItem>) -> (plan: ImportPlan)
    ensures
        plan.moves@ == moves_of(items@),
        plan.directories.deep_view().to_set() == deepest(parents_of(moves_of(items@))),
        plan.directories.deep_view().no_duplicates(),
{
    let ghost all = items@;
    let ghost pred = |it: ImportItem| it.resolution != ConflictResolution::SkipThis;
    let mut moves: Vec<ImportItem> = Vec::new();
    let mut parents: Vec<Vec<String>> = Vec::new();
    let mut rest = items;
    let ghost mut seen: Seq<ImportItem> = Seq::empty();
    while rest.len() > 0
        invariant
            seen + rest@ =~= all,
            moves@ == seen.filter(pred),
            pred == (|it: ImportItem| it.resolution != ConflictResolution::SkipThis),
            parents.deep_view() == parents_of(moves@),
        decreases rest.len(),
    {
        let item = rest.remove(0);
        proof {
            reveal(Seq::filter);
            let s2 = seen.push(item);
            assert(s2.drop_last() =~= seen);
            assert(s2.last() == item);
            if item.resolution != ConflictResolution::SkipThis {
                assert(s2.filter(pred) == seen.filter(pred).push(item));
            } else {
                assert(s2.filter(pred) == seen.filter(pred));
            }
            seen = s2;
        }
        if item.resolution != ConflictResolution::SkipThis {
            let p = parent(&item.target.destination);
            assert(p.deep_view() =~= parent_of(item.target.destination.deep_view()));
            let ghost pd = p.deep_view();
            let ghost before = parents.deep_view();
            let ghost moves_before = moves@;
            parents.push(p);
            moves.push(item);
            proof {
                assert(parents.deep_view() =~= before.push(pd));
                assert(parents_of(moves@) =~= parents_of(moves_before).push(
                    parent_of(item.target.destination.deep_view()),
                ));
            }
        }
    }
    assert(seen =~= all);
    let ghost pv = parents.deep_view();
    let mut all_parents = PathSet::new();
    let mut k: usize = 0;
    while k < parents.len()
        invariant
            k <= parents.len(),
            pv == parents.deep_view(),
            forall|a: Seq<Seq<char>>|
                all_parents@.contains(a) <==> exists|j: int| 0 <= j < k && a == #[trigger] pv[j],
        decreases parents.len() - k,
    {
        let ghost before = all_parents@;
        all_parents.insert(&parents[k]);
        proof {
            assert forall|a: Seq<Seq<char>>| all_parents@.contains(a) implies exists|j: int|
                0 <= j < k + 1 && a == #[trigger] pv[j] by {
                if a != pv[k as int] {
                    assert(before.contains(a));
                }
            }
        }
        k += 1;
    }
    let mut chosen = PathSet::new();
    let mut directories: Vec<Vec<String>> = Vec::new();
    let mut i: usize = 0;
    while i < parents.len()
        invariant
            i <= parents.len(),
            pv == parents.deep_view(),
            forall|a: Seq<Seq<char>>|
                all_parents@.contains(a) <==> exists|j: int|
                    0 <= j < pv.len() && a == #[trigger] pv[j],
            chosen@ == directories.deep_view().to_set(),
            directories.deep_view().no_duplicates(),
            forall|a: Seq<Seq<char>>|
                #[trigger] chosen@.contains(a) <==> (pv.take(i as int).contains(a) && deepest(
                    pv,
                ).contains(a)),
        decreases parents.len() - i,
    {
        let p = &parents[i];
        let has_below = all_parents.contains_descendant_of(p);
        let already = chosen.contains(p);
        proof {
            assert(pv.take(i + 1) =~= pv.take(i as int).push(pv[i as int]));
            assert(pv.contains(pv[i as int]));
            if has_below {
                let d = choose|d: Seq<Seq<char>>|
                    #[trigger] all_parents@.contains(d) && is_strict_ancestor(pv[i as int], d);
                assert(pv.contains(d));
                assert(!deepest(pv).contains(pv[i as int]));
            } else {
                assert forall|q: Seq<Seq<char>>| #[trigger]
                    pv.contains(q) implies !is_strict_ancestor(pv[i as int], q) by {
                    let j = choose|j: int| 0 <= j < pv.len() && #[trigger] pv[j] == q;
                    assert(all_parents@.contains(pv[j]));
                }
                assert(deepest(pv).contains(pv[i as int]));
            }
            assert forall|a: Seq<Seq<char>>|
                pv.take(i + 1).contains(a) <==> (pv.take(i as int).contains(a) || a == pv[i as int]) by {
                if pv.take(i + 1).contains(a) {
                    let j = choose|j: int| 0 <= j < i + 1 && #[trigger] pv.take(i + 1)[j] == a;
                    if j < i {
                        assert(pv.take(i as int)[j] == a);
                    }
                }
                if pv.take(i as int).contains(a) {
                    let j = choose|j: int| 0 <= j < i && #[trigger] pv.take(i as int)[j] == a;
                    assert(pv.take(i + 1)[j] == a);
                }
                if a == pv[i as int] {
                    assert(pv.take(i + 1)[i as int] == a);
                }
            }
        }
        if !has_below && !already {
            let ghost before = directories.deep_view();
            let ghost chosen_before = chosen@;
            chosen.insert(p);
            directories.push(p.clone());
            proof {
                assert(directories.deep_view() =~= before.push(pv[i as int]));
                assert(before.push(pv[i as int]) =~= before + seq![pv[i as int]]);
                Seq::lemma_to_set_insert_commutes(before, pv[i as int]);
                assert(!before.contains(pv[i as int]));
                assert forall|x: int, y: int|
                    0 <= x < directories.deep_view().len() && 0 <= y
                        < directories.deep_view().len() && x != y implies directories.deep_view()[x]
                    != directories.deep_view()[y] by {
                    if x == before.len() {
                        assert(before.contains(directories.deep_view()[y]));
                    } else if y == before.len() {
                        assert(before.contains(directories.deep_view()[x]));
                    }
                }
            }
        }
        i += 1;
    }
    proof {
        assert(pv.take(pv.len() as int) =~= pv);
        assert(directories.deep_view().to_set() =~= deepest(pv));
    }
    ImportPlan { directories, moves }
}

} // verus!
