//! Moving files out of a group folder, back to where they belong below home.
use vstd::prelude::*;

use crate::path::{is_prefix_of, is_strict_ancestor, join, strip_prefix};
use crate::import::import_destination;
use crate::path_set::{same_path, PathSet};
use crate::probe::{ConflictResolution, Found, FoundView};
use crate::target::{render_absolute, rendered};

verus! {

/// One path to discard, resolved against both trees.
pub struct DiscardTarget {
    /// The path as it was given, for messages.
    pub given: String,
    /// The path below the group folder, and below home.
    pub relative: Vec<String>,
    /// The absolute path inside the group folder.
    pub source: Vec<String>,
    /// The absolute path below home that it moves to.
    pub destination: Vec<String>,
}

/// Why a path cannot be discarded.
pub enum DiscardError {
    /// The path exists but lies outside home.
    OutsideHome { given: String },
    /// Nothing to discard was found for the path.
    NotFound { given: String, source: Vec<String> },
    /// A regular file already stands at the destination.
    FileExists { given: String, destination: Vec<String> },
    /// A directory that is not empty already stands at the destination.
    NonEmptyDirectory { given: String, destination: Vec<String> },
    /// A symlink that does not lead to the source stands at the destination.
    ForeignSymlink { destination: Vec<String>, found: String, source: Vec<String> },
}

/// The text that reports a discard error.
pub open spec fn discard_message(e: DiscardError) -> Seq<char> {
    match e {
        DiscardError::OutsideHome { given } => "given path "@ + given@ + " is outside of home"@,
        DiscardError::NotFound { given, source } => "couldn't find "@ + given@ + " to discard it, nothing at "@
            + rendered(source.deep_view()),
        DiscardError::FileExists { given, destination } => "file at "@ + rendered(
            destination.deep_view(),
        ) + " already exists, so "@ + given@ + " cannot be discarded to that place"@,
        DiscardError::NonEmptyDirectory { given, destination } => "non-empty directory at "@
            + rendered(destination.deep_view()) + " already exists, couldn't discard "@ + given@,
        DiscardError::ForeignSymlink { destination, found, source } => "there is a symlink at "@
            + rendered(destination.deep_view()) + ", but it points to "@ + found@ + " and not "@
            + rendered(source.deep_view()),
    }
}

impl DiscardError {
    /// Describes the error, naming the paths involved.
    pub fn message(&self) -> (r: String)
        ensures
            r@ == discard_message(*self),
    {
        let mut r = String::new();
        match self {
            DiscardError::OutsideHome { given } => {
                r.append("given path ");
                r.append(given.as_str());
                r.append(" is outside of home");
            },
            DiscardError::NotFound { given, source } => {
                r.append("couldn't find ");
                r.append(given.as_str());
                r.append(" to discard it, nothing at ");
                r.append(render_absolute(source).as_str());
            },
            DiscardError::FileExists { given, destination } => {
                r.append("file at ");
                r.append(render_absolute(destination).as_str());
                r.append(" already exists, so ");
                r.append(given.as_str());
                r.append(" cannot be discarded to that place");
            },
            DiscardError::NonEmptyDirectory { given, destination } => {
                r.append("non-empty directory at ");
                r.append(render_absolute(destination).as_str());
                r.append(" already exists, couldn't discard ");
                r.append(given.as_str());
            },
            DiscardError::ForeignSymlink { destination, found, source } => {
                r.append("there is a symlink at ");
                r.append(render_absolute(destination).as_str());
                r.append(", but it points to ");
                r.append(found.as_str());
                r.append(" and not ");
                r.append(render_absolute(source).as_str());
            },
        }
        proof {
            assert(r@ =~= discard_message(*self));
        }
        r
    }
}

/// Where a path given to discard leads, as (relative path, source), if anywhere.
///
/// An existing path is taken as it is when it lies in the group folder, and as
/// its counterpart in the group folder when it lies elsewhere below home. A
/// path that does not exist is read as relative to the group folder.
pub open spec fn discard_source(
    home: Seq<Seq<char>>,
    group: Seq<Seq<char>>,
    fragment: Option<Seq<Seq<char>>>,
    absolute: Seq<Seq<char>>,
    exists: bool,
) -> Option<(Seq<Seq<char>>, Seq<Seq<char>>)> {
    if exists {
        if is_prefix_of(group, absolute) {
            Some((absolute.skip(group.len() as int), absolute))
        } else if is_prefix_of(home, absolute) {
            Some((absolute.skip(home.len() as int), group + absolute.skip(home.len() as int)))
        } else {
            None
        }
    } else {
        match fragment {
            Some(f) => Some((f, group + f)),
            None => None,
        }
    }
}

/// Resolves a path given to discard.
///
/// `absolute` is the given path made absolute, `exists` whether something is
/// there (following symlinks), and `fragment` its components when it was
/// given as a relative path.
pub fn resolve_discard(
    home: &Vec<String>,
    group: &Vec<String>,
    given: String,
    fragment: Option<Vec<String>>,
    absolute: Vec<String>,
    exists: bool,
) -> (r: Result<DiscardTarget, DiscardError>)
    ensures
        ({
            let fv = match fragment {
                Some(f) => Some(f.deep_view()),
                None => None,
            };
            let expected = discard_source(
                home.deep_view(),
                group.deep_view(),
                fv,
                absolute.deep_view(),
                exists,
            );
            match r {
                Ok(t) => {
                    &&& expected == Some((t.relative.deep_view(), t.source.deep_view()))
                    &&& t.destination.deep_view() == home.deep_view() + t.relative.deep_view()
                    &&& t.given == given
                },
                Err(e) => {
                    &&& expected is None
                    &&& exists ==> e == (DiscardError::OutsideHome { given })
                    &&& !exists ==> e is NotFound
                },
            }
        }),
{
    let (relative, source) = if exists {
        match strip_prefix(&absolute, group) {
            Some(rel) => (rel, absolute),
            None => match strip_prefix(&absolute, home) {
                Some(rel) => {
                    let source = join(group, &rel);
                    (rel, source)
                },
                None => {
                    return Err(DiscardError::OutsideHome { given });
                },
            },
        }
    } else {
        match fragment {
            Some(f) => {
                let source = join(group, &f);
                (f, source)
            },
            None => {
                return Err(DiscardError::NotFound { given, source: absolute });
            },
        }
    };
    let destination = join(home, &relative);
    Ok(DiscardTarget { given, relative, source, destination })
}

/// What stands at the destination decides how the move proceeds.
pub open spec fn discard_resolution(
    source: Seq<Seq<char>>,
    source_found: FoundView,
    destination_found: FoundView,
) -> Option<ConflictResolution> {
    match source_found {
        FoundView::Absent => None,
        _ => match destination_found {
            FoundView::Absent => Some(ConflictResolution::NoConflict),
            FoundView::Directory(true) => Some(ConflictResolution::DeleteDirectory),
            FoundView::Symlink { resolved: Some(p), .. } => if p == source {
                Some(ConflictResolution::DeleteSymlink)
            } else {
                None
            },
            _ => None,
        },
    }
}

/// Checks what stands at both ends of a discard before anything moves.
pub fn classify_discard(target: &DiscardTarget, source_found: &Found, destination_found: &Found) -> (r:
    Result<ConflictResolution, DiscardError>)
    ensures
        r matches Ok(c) ==> discard_resolution(
            target.source.deep_view(),
            source_found@,
            destination_found@,
        ) == Some(c),
        r is Err ==> discard_resolution(
            target.source.deep_view(),
            source_found@,
            destination_found@,
        ) is None,
        r matches Err(e) ==> match (source_found@, destination_found@) {
            (FoundView::Absent, _) => e is NotFound,
            (_, FoundView::Regular(_)) => e is FileExists,
            (_, FoundView::Directory(_)) => e is NonEmptyDirectory,
            (_, FoundView::Symlink { target: t, .. }) => e matches DiscardError::ForeignSymlink {
                found,
                ..
            } && found@ == t,
            _ => false,
        },
{
    if let Found::Absent = source_found {
        return Err(
            DiscardError::NotFound { given: target.given.clone(), source: target.source.clone() },
        );
    }
    match destination_found {
        Found::Absent => Ok(ConflictResolution::NoConflict),
        Found::Regular(_) => Err(
            DiscardError::FileExists {
                given: target.given.clone(),
                destination: target.destination.clone(),
            },
        ),
        Found::Directory(is_empty) => {
            if *is_empty {
                Ok(ConflictResolution::DeleteDirectory)
            } else {
                Err(
                    DiscardError::NonEmptyDirectory {
                        given: target.given.clone(),
                        destination: target.destination.clone(),
                    },
                )
            }
        },
        Found::Symlink { target: link_target, resolved } => {
            if let Some(p) = resolved {
                if same_path(p, &target.source) {
                    return Ok(ConflictResolution::DeleteSymlink);
                }
            }
            Err(
                DiscardError::ForeignSymlink {
                    destination: target.destination.clone(),
                    found: link_target.clone(),
                    source: target.source.clone(),
                },
            )
        },
    }
}

/// A discard that passed its checks.
pub struct DiscardItem {
    pub target: DiscardTarget,
    pub resolution: ConflictResolution,
}

/// The destination of some other item is a proper ancestor of this one's.
pub open spec fn has_ancestor_among(items: Seq<DiscardItem>, item: DiscardItem) -> bool {
    exists|j: int|
        0 <= j < items.len() && is_strict_ancestor(
            #[trigger] items[j].target.destination.deep_view(),
            item.target.destination.deep_view(),
        )
}

/// The items that move: those whose destination lies below no other item's,
/// in the order given. Each carries its whole subtree.
pub open spec fn discard_moves(items: Seq<DiscardItem>) -> Seq<DiscardItem> {
    items.filter(|it: DiscardItem| !has_ancestor_among(items, it))
}

/// Drops the items that a move of an ancestor already carries.
pub fn discard(items: Vec<DiscardItem>) -> (r: Vec<DiscardItem>)
    ensures
        r@ == discard_moves(items@),
{
    let ghost all = items@;
    let ghost pred = |it: DiscardItem| !has_ancestor_among(all, it);
    let mut destinations = PathSet::new();
    let mut k: usize = 0;
    while k < items.len()
        invariant
            k <= items.len(),
            all == items@,
            forall|a: Seq<Seq<char>>|
                destinations@.contains(a) <==> exists|j: int|
                    0 <= j < k && a == #[trigger] all[j].target.destination.deep_view(),
        decreases items.len() - k,
    {
        let ghost before = destinations@;
        destinations.insert(&items[k].target.destination);
        proof {
            assert forall|a: Seq<Seq<char>>|
                destinations@.contains(a) implies exists|j: int|
                    0 <= j < k + 1 && a == #[trigger] all[j].target.destination.deep_view() by {
                if a != all[k as int].target.destination.deep_view() {
                    assert(before.contains(a));
                }
            }
        }
        k += 1;
    }
    let mut r: Vec<DiscardItem> = Vec::new();
    let mut rest = items;
    let ghost mut seen: Seq<DiscardItem> = Seq::empty();
    while rest.len() > 0
        invariant
            seen + rest@ =~= all,
            r@ == seen.filter(pred),
            pred == (|it: DiscardItem| !has_ancestor_among(all, it)),
            forall|a: Seq<Seq<char>>|
                destinations@.contains(a) <==> exists|j: int|
                    0 <= j < all.len() && a == #[trigger] all[j].target.destination.deep_view(),
        decreases rest.len(),
    {
        let item = rest.remove(0);
        let keep = !destinations.contains_ancestor_of(&item.target.destination);
        proof {
            reveal(Seq::filter);
            let s2 = seen.push(item);
            assert(s2.drop_last() =~= seen);
            if keep {
                assert forall|j: int| 0 <= j < all.len() implies !is_strict_ancestor(
                    #[trigger] all[j].target.destination.deep_view(),
                    item.target.destination.deep_view(),
                ) by {
                    assert(destinations@.contains(all[j].target.destination.deep_view()));
                }
            } else {
                let a = choose|a: Seq<Seq<char>>|
                    #[trigger] destinations@.contains(a) && is_strict_ancestor(
                        a,
                        item.target.destination.deep_view(),
                    );
                assert(has_ancestor_among(all, item));
            }
            assert(s2.last() == item);
            assert(pred(item) == keep);
            if keep {
                assert(s2.filter(pred) == seen.filter(pred).push(item));
            } else {
                assert(s2.filter(pred) == seen.filter(pred));
            }
            seen = s2;
        }
        if keep {
            r.push(item);
        }
    }
    assert(seen =~= all);
    r
}

/// Discarding a path together with a path below it makes one move, the
/// ancestor's, exactly as discarding the ancestor alone does; the order in
/// which the two are given does not matter.
pub proof fn lemma_ancestor_dedup(a: DiscardItem, b: DiscardItem)
    requires
        is_strict_ancestor(a.target.destination.deep_view(), b.target.destination.deep_view()),
    ensures
        discard_moves(seq![a, b]) == seq![a],
        discard_moves(seq![b, a]) == seq![a],
        discard_moves(seq![a]) == seq![a],
{
    reveal(Seq::filter);
    let ab = seq![a, b];
    let ba = seq![b, a];
    let one = seq![a];
    assert(has_ancestor_among(ab, b)) by {
        assert(is_strict_ancestor(ab[0].target.destination.deep_view(), b.target.destination.deep_view()));
    }
    assert(has_ancestor_among(ba, b)) by {
        assert(is_strict_ancestor(ba[1].target.destination.deep_view(), b.target.destination.deep_view()));
    }
    assert(!has_ancestor_among(ab, a));
    assert(!has_ancestor_among(ba, a));
    assert(!has_ancestor_among(one, a));
    assert(ab.drop_last() =~= one);
    assert(ba.drop_last() =~= seq![b]);
    assert(seq![b].drop_last() =~= Seq::<DiscardItem>::empty());
    assert(one.drop_last() =~= Seq::<DiscardItem>::empty());
    let pab = |it: DiscardItem| !has_ancestor_among(ab, it);
    let pba = |it: DiscardItem| !has_ancestor_among(ba, it);
    let pone = |it: DiscardItem| !has_ancestor_among(one, it);
    assert(Seq::<DiscardItem>::empty().filter(pab) =~= Seq::<DiscardItem>::empty());
    assert(Seq::<DiscardItem>::empty().filter(pba) =~= Seq::<DiscardItem>::empty());
    assert(Seq::<DiscardItem>::empty().filter(pone) =~= Seq::<DiscardItem>::empty());
    assert(one.filter(pab) =~= one);
    assert(ab.filter(pab) =~= one);
    assert(seq![b].filter(pba) =~= Seq::<DiscardItem>::empty());
    assert(ba.filter(pba) =~= one);
    assert(one.filter(pone) =~= one);
}

/// Discarding undoes importing: a path below home and outside the group
/// folder is moved by import to a place in the group folder; discarding that
/// place, once the import has left nothing at the old path, moves it back to
/// exactly the old path, with nothing to clear first.
pub proof fn lemma_discard_inverts_import(
    home: Seq<Seq<char>>,
    group: Seq<Seq<char>>,
    absolute: Seq<Seq<char>>,
    fragment: Option<Seq<Seq<char>>>,
    moved: FoundView,
)
    requires
        import_destination(home, group, absolute) matches Some(Some(_)),
        !(moved is Absent),
    ensures
        ({
            let (relative, destination) = import_destination(home, group, absolute)->0->0;
            &&& discard_source(home, group, fragment, destination, true) == Some(
                (relative, destination),
            )
            &&& home + relative == absolute
            &&& discard_resolution(destination, moved, FoundView::Absent) == Some(
                ConflictResolution::NoConflict,
            )
        }),
{
    let (relative, destination) = import_destination(home, group, absolute)->0->0;
    assert(destination.subrange(0, group.len() as int) =~= group);
    assert(destination.skip(group.len() as int) =~= relative);
    assert(home + relative =~= absolute);
}

} // verus!
