//! What stands at a path, as read without following a final symlink.
use vstd::prelude::*;

verus! {

/// The kind of a filesystem entry; a broken symlink is still a symlink.
#[derive(Clone, Copy, Debug, PartialEq, Eq, Structural)]
pub enum FileKind {
    Regular,
    Directory,
    Symlink,
}

/// The name of a kind, as messages write it.
pub open spec fn kind_name(k: FileKind) -> Seq<char> {
    match k {
        FileKind::Regular => "regular file"@,
        FileKind::Directory => "directory"@,
        FileKind::Symlink => "symlink"@,
    }
}

impl FileKind {
    /// The name of the kind, as messages write it.
    pub fn name(&self) -> (r: &'static str)
        ensures
            r@ == kind_name(*self),
    {
        match self {
            FileKind::Regular => "regular file",
            FileKind::Directory => "directory",
            FileKind::Symlink => "symlink",
        }
    }
}

/// What a non-following probe found at a path.
pub enum Probe {
    Absent,
    Regular,
    Directory,
    /// A symlink, with its raw target.
    Symlink(String),
}

pub ghost enum ProbeView {
    Absent,
    Regular,
    Directory,
    Symlink(Seq<char>),
}

impl View for Probe {
    type V = ProbeView;

    open spec fn view(&self) -> ProbeView {
        match self {
            Probe::Absent => ProbeView::Absent,
            Probe::Regular => ProbeView::Regular,
            Probe::Directory => ProbeView::Directory,
            Probe::Symlink(t) => ProbeView::Symlink(t@),
        }
    }
}

/// Whether a folder still has to be made where `found` stands: not when a
/// directory is there, and not at all when something else is in the way.
pub fn needs_folder(found: &Probe) -> (r: Result<bool, FileKind>)
    ensures
        r == match found@ {
            ProbeView::Absent => Ok(true),
            ProbeView::Directory => Ok(false),
            ProbeView::Regular => Err(FileKind::Regular),
            ProbeView::Symlink(_) => Err(FileKind::Symlink),
        },
{
    match found {
        Probe::Absent => Ok(true),
        Probe::Directory => Ok(false),
        Probe::Regular => Err(FileKind::Regular),
        Probe::Symlink(_) => Err(FileKind::Symlink),
    }
}

/// One entry of a group tree, in walk order, with what stands at the
/// same relative path below home.
pub struct Entry {
    /// The path below the group folder, and below home.
    pub relative: Vec<String>,
    pub kind: FileKind,
    /// Handled as one unit: a file, a symlink or an empty directory.
    pub is_leaf: bool,
    pub home: Probe,
}

pub ghost struct EntryView {
    pub relative: Seq<Seq<char>>,
    pub kind: FileKind,
    pub is_leaf: bool,
    pub home: ProbeView,
}

impl View for Entry {
    type V = EntryView;

    open spec fn view(&self) -> EntryView {
        EntryView {
            relative: self.relative.deep_view(),
            kind: self.kind,
            is_leaf: self.is_leaf,
            home: self.home@,
        }
    }
}

pub open spec fn entries_view(entries: Seq<Entry>) -> Seq<EntryView> {
    Seq::new(entries.len(), |i: int| entries[i]@)
}

/// A fuller look at a path, for moving files between the trees.
pub enum Found {
    Absent,
    /// A regular file, with its bytes.
    Regular(Vec<u8>),
    /// A directory, and whether it is empty.
    Directory(bool),
    /// A symlink, with its raw target and, where it resolves, the absolute
    /// path that it leads to.
    Symlink { target: String, resolved: Option<Vec<String>> },
}

pub ghost enum FoundView {
    Absent,
    Regular(Seq<u8>),
    Directory(bool),
    Symlink { target: Seq<char>, resolved: Option<Seq<Seq<char>>> },
}

impl View for Found {
    type V = FoundView;

    open spec fn view(&self) -> FoundView {
        match self {
            Found::Absent => FoundView::Absent,
            Found::Regular(b) => FoundView::Regular(b@),
            Found::Directory(e) => FoundView::Directory(*e),
            Found::Symlink { target, resolved } => FoundView::Symlink {
                target: target@,
                resolved: match resolved {
                    Some(p) => Some(p.deep_view()),
                    None => None,
                },
            },
        }
    }
}

/// The kind of what was found, if anything.
pub open spec fn found_kind(f: FoundView) -> Option<FileKind> {
    match f {
        FoundView::Absent => None,
        FoundView::Regular(_) => Some(FileKind::Regular),
        FoundView::Directory(_) => Some(FileKind::Directory),
        FoundView::Symlink { .. } => Some(FileKind::Symlink),
    }
}

/// How an entry already at a destination is dealt with before a move.
#[derive(Clone, Copy, Debug, PartialEq, Eq, Structural)]
pub enum ConflictResolution {
    /// Nothing is there.
    NoConflict,
    /// An empty directory is there: remove it right before the move.
    DeleteDirectory,
    /// A symlink to the very source is there: remove it right before the move.
    DeleteSymlink,
    /// The same content is already there: do not move.
    SkipThis,
}

} // verus!
