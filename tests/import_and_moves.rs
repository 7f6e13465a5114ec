use dotin::discard::{classify_discard, resolve_discard};
use dotin::import::{classify_import, import, resolve_import, same_content, ImportError, ImportItem};
use dotin::link::{link, LinkStep};
use dotin::moves::{plan_copy, CopyStep, TreeItem};
use dotin::path_set::PathSet;
use dotin::probe::{ConflictResolution, Entry, FileKind, Found, Probe};
use dotin::target::render_absolute;
use dotin::unlink::{unlink, UnlinkStep};

fn p(s: &str) -> Vec<String> {
    s.split('/').filter(|c| !c.is_empty()).map(String::from).collect()
}

fn home() -> Vec<String> {
    p("/home/u")
}

fn group() -> Vec<String> {
    p("/home/u/dotfiles/i3")
}

fn item(abs: &str, resolution: ConflictResolution) -> ImportItem {
    let target = resolve_import(&home(), &group(), abs.to_string(), p(abs)).ok().unwrap().unwrap();
    ImportItem { target, resolution }
}

#[test]
fn import_resolves_below_home() {
    let t = resolve_import(&home(), &group(), "config".to_string(), p("/home/u/.config/i3/config"))
        .ok()
        .unwrap()
        .unwrap();
    assert_eq!(t.relative, p(".config/i3/config"));
    assert_eq!(t.destination, p("/home/u/dotfiles/i3/.config/i3/config"));
    assert_eq!(t.source, p("/home/u/.config/i3/config"));
}

#[test]
fn import_skips_paths_inside_group() {
    let r = resolve_import(&home(), &group(), "x".to_string(), p("/home/u/dotfiles/i3/x"));
    assert!(matches!(r, Ok(None)));
}

#[test]
fn import_rejects_paths_outside_home() {
    match resolve_import(&home(), &group(), "/etc/hosts".to_string(), p("/etc/hosts")) {
        Err(e) => {
            assert!(matches!(e, ImportError::OutsideHome { .. }));
            assert_eq!(
                e.message(),
                "only files below home can be imported, but /etc/hosts is at /etc/hosts"
            );
        }
        Ok(_) => panic!("expected an error"),
    }
}

#[test]
fn import_content_conflict_names_both_paths() {
    let t = item("/home/u/.vimrc", ConflictResolution::NoConflict).target;
    let r = classify_import(&t, &Found::Regular(b"set nu".to_vec()), &Found::Regular(b"set rnu".to_vec()));
    match r {
        Err(e) => {
            assert!(matches!(e, ImportError::ContentDiffers { .. }));
            let m = e.message();
            assert!(m.contains("/home/u/.vimrc"));
            assert!(m.contains("/home/u/dotfiles/i3/.vimrc"));
            assert!(m.contains("content differs"));
        }
        Ok(_) => panic!("expected an error"),
    }
}

#[test]
fn import_identical_content_is_skipped() {
    let t = item("/home/u/.vimrc", ConflictResolution::NoConflict).target;
    let r = classify_import(&t, &Found::Regular(b"same".to_vec()), &Found::Regular(b"same".to_vec()));
    assert_eq!(r.ok(), Some(ConflictResolution::SkipThis));
    let plan = import(vec![ImportItem { target: t, resolution: ConflictResolution::SkipThis }]);
    assert!(plan.moves.is_empty());
    assert!(plan.directories.is_empty());
}

#[test]
fn import_other_conflicts() {
    let t = item("/home/u/a", ConflictResolution::NoConflict).target;
    let link = |s: &str| Found::Symlink { target: s.to_string(), resolved: None };
    assert_eq!(classify_import(&t, &link("x"), &link("x")).ok(), Some(ConflictResolution::SkipThis));
    assert!(matches!(
        classify_import(&t, &link("x"), &link("y")),
        Err(ImportError::TargetDiffers { .. })
    ));
    assert_eq!(
        classify_import(&t, &Found::Directory(false), &Found::Directory(true)).ok(),
        Some(ConflictResolution::DeleteDirectory)
    );
    assert!(matches!(
        classify_import(&t, &Found::Directory(true), &Found::Directory(false)),
        Err(ImportError::DirectoryNotEmpty { .. })
    ));
    match classify_import(&t, &Found::Regular(vec![]), &Found::Directory(true)) {
        Err(e) => {
            assert!(matches!(
                e,
                ImportError::KindMismatch {
                    source_kind: FileKind::Regular,
                    destination_kind: FileKind::Directory,
                    ..
                }
            ));
            assert_eq!(
                e.message(),
                "cannot import /home/u/a, a regular file: /home/u/dotfiles/i3/a already exists as a directory"
            );
        }
        Ok(_) => panic!("expected an error"),
    }
    assert!(matches!(
        classify_import(&t, &Found::Absent, &Found::Absent),
        Err(ImportError::SourceMissing { .. })
    ));
    assert_eq!(
        classify_import(&t, &link("x"), &Found::Absent).ok(),
        Some(ConflictResolution::NoConflict)
    );
}

#[test]
fn import_plan_creates_deepest_directories_once() {
    let plan = import(vec![
        item("/home/u/.config/i3/config", ConflictResolution::NoConflict),
        item("/home/u/.config/i3/extra", ConflictResolution::NoConflict),
        item("/home/u/.config/top", ConflictResolution::NoConflict),
        item("/home/u/.vimrc", ConflictResolution::SkipThis),
    ]);
    assert_eq!(plan.moves.len(), 3);
    assert_eq!(plan.directories, vec![p("/home/u/dotfiles/i3/.config/i3")]);
}

#[test]
fn same_content_compares_bytes() {
    assert!(same_content(&vec![1, 2, 3], &vec![1, 2, 3]));
    assert!(!same_content(&vec![1, 2, 3], &vec![1, 2, 4]));
    assert!(!same_content(&vec![1, 2], &vec![1, 2, 3]));
    assert!(same_content(&vec![], &vec![]));
}

#[test]
fn import_then_discard_restores_the_path() {
    let imported = item("/home/u/.config/i3/config", ConflictResolution::NoConflict).target;
    let back = resolve_discard(
        &home(),
        &group(),
        "x".to_string(),
        None,
        imported.destination.clone(),
        true,
    )
    .ok()
    .unwrap();
    assert_eq!(back.source, imported.destination);
    assert_eq!(back.destination, imported.source);
    let moved = Found::Regular(b"cfg".to_vec());
    assert_eq!(
        classify_discard(&back, &moved, &Found::Absent).ok(),
        Some(ConflictResolution::NoConflict)
    );
}

#[test]
fn end_to_end_import_link_unlink() {
    // import: the plain file moves into the empty group
    let resolution = classify_import(
        &item("/home/u/.config/i3/config", ConflictResolution::NoConflict).target,
        &Found::Regular(b"bar".to_vec()),
        &Found::Absent,
    )
    .ok()
    .unwrap();
    let plan = import(vec![item("/home/u/.config/i3/config", resolution)]);
    assert_eq!(plan.moves.len(), 1);
    assert_eq!(plan.moves[0].target.destination, p("/home/u/dotfiles/i3/.config/i3/config"));
    assert_eq!(plan.directories, vec![p("/home/u/dotfiles/i3/.config/i3")]);

    // link: the directories stay at home, the file is gone from there
    let entries = vec![
        Entry { relative: p(".config"), kind: FileKind::Directory, is_leaf: false, home: Probe::Directory },
        Entry { relative: p(".config/i3"), kind: FileKind::Directory, is_leaf: false, home: Probe::Directory },
        Entry { relative: p(".config/i3/config"), kind: FileKind::Regular, is_leaf: true, home: Probe::Absent },
    ];
    let steps = link(&entries, "i3");
    let target = match &steps[2] {
        LinkStep::CreateSymlink(t) => t.clone(),
        _ => panic!("expected a new link"),
    };
    assert_eq!(target, "../../dotfiles/i3/.config/i3/config");

    // unlink: only that link goes
    let linked = vec![
        Entry { relative: p(".config"), kind: FileKind::Directory, is_leaf: false, home: Probe::Directory },
        Entry { relative: p(".config/i3"), kind: FileKind::Directory, is_leaf: false, home: Probe::Directory },
        Entry { relative: p(".config/i3/config"), kind: FileKind::Regular, is_leaf: true, home: Probe::Symlink(target) },
    ];
    let undo = unlink(&linked, "i3");
    assert!(matches!(undo[0], UnlinkStep::Keep));
    assert!(matches!(undo[1], UnlinkStep::Keep));
    assert!(matches!(undo[2], UnlinkStep::RemoveLink));
}

#[test]
fn copy_plan_keeps_structure_and_targets() {
    let walk = vec![
        TreeItem { relative: p(""), found: Probe::Directory },
        TreeItem { relative: p("sub"), found: Probe::Directory },
        TreeItem { relative: p("sub/file"), found: Probe::Regular },
        TreeItem { relative: p("link"), found: Probe::Symlink("../elsewhere".to_string()) },
        TreeItem { relative: p("gone"), found: Probe::Absent },
    ];
    let steps = plan_copy(&p("/mnt/a/dir"), &p("/home/u/dir"), &walk);
    assert_eq!(steps.len(), 5);
    assert!(matches!(&steps[0], CopyStep::CreateDirectory(d) if *d == p("/home/u/dir")));
    assert!(matches!(&steps[1], CopyStep::CreateDirectory(d) if *d == p("/home/u/dir/sub")));
    assert!(matches!(&steps[2], CopyStep::CopyFile { from, to }
        if *from == p("/mnt/a/dir/sub/file") && *to == p("/home/u/dir/sub/file")));
    assert!(matches!(&steps[3], CopyStep::CreateSymlink { at, target }
        if *at == p("/home/u/dir/link") && target == "../elsewhere"));
    assert!(matches!(steps[4], CopyStep::Nothing));
}

#[test]
fn path_set_answers_ancestor_questions() {
    let mut set = PathSet::new();
    set.insert(&p("/a/b"));
    set.insert(&p("/x"));
    assert!(set.contains(&p("/a/b")));
    assert!(!set.contains(&p("/a")));
    assert!(set.contains_ancestor_of(&p("/a/b/c")));
    assert!(!set.contains_ancestor_of(&p("/a/b")));
    assert!(!set.contains_ancestor_of(&p("/a/bc")));
    assert!(set.contains_prefix_of(&p("/a/b")));
    assert!(set.contains_descendant_of(&p("/a")));
    assert!(!set.contains_descendant_of(&p("/a/b")));
}

#[test]
fn render_absolute_paths() {
    assert_eq!(render_absolute(&p("/home/u/.vimrc")), "/home/u/.vimrc");
    assert_eq!(render_absolute(&p("/")), "/");
}
