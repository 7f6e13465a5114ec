use dotin::discard::{
    classify_discard, discard, resolve_discard, DiscardError, DiscardItem, DiscardTarget,
};
use dotin::probe::{ConflictResolution, Found};
use dotin::utils::dedup_nested;

fn p(s: &str) -> Vec<String> {
    s.split('/').filter(|c| !c.is_empty()).map(String::from).collect()
}

fn home() -> Vec<String> {
    p("/tmp/test_dir")
}

fn group(name: &str) -> Vec<String> {
    p(&format!("/tmp/test_dir/dotfiles/{name}"))
}

/// Resolves `given` as typed in the home directory.
fn resolve(group_name: &str, given: &str, exists_at_home: bool) -> Result<DiscardTarget, DiscardError> {
    let absolute = p(&format!("/tmp/test_dir/{given}"));
    resolve_discard(&home(), &group(group_name), given.to_string(), Some(p(given)), absolute, exists_at_home)
}

fn regular() -> Found {
    Found::Regular(b"content".to_vec())
}

fn error_text(r: Result<ConflictResolution, DiscardError>) -> String {
    match r {
        Err(e) => e.message(),
        Ok(c) => panic!("expected an error, got {c:?}"),
    }
}

#[test]
fn test_discard_fails_conflict_file_already_exists() {
    let target = resolve("example_group", "discarded_path", true).ok().unwrap();
    assert_eq!(target.source, p("/tmp/test_dir/dotfiles/example_group/discarded_path"));
    let error_message = error_text(classify_discard(&target, &regular(), &regular()));
    assert!(error_message.contains("already exists, so"));
    assert!(error_message.contains("cannot be discarded to that place"));
}

#[test]
fn test_discard_succeeds_conflict_with_empty_dir() {
    let target = resolve("example_group", "discarded_path", true).ok().unwrap();
    let resolution = classify_discard(&target, &regular(), &Found::Directory(true)).ok().unwrap();
    assert_eq!(resolution, ConflictResolution::DeleteDirectory);
    let moves = discard(vec![DiscardItem { target, resolution }]);
    assert_eq!(moves.len(), 1);
    assert_eq!(moves[0].target.source, p("/tmp/test_dir/dotfiles/example_group/discarded_path"));
    assert_eq!(moves[0].target.destination, p("/tmp/test_dir/discarded_path"));
}

#[test]
fn test_discard_fails_conflict_with_non_empty_dir() {
    let target = resolve("example_group", "discarded_path", true).ok().unwrap();
    let error_message = error_text(classify_discard(&target, &regular(), &Found::Directory(false)));
    assert!(error_message.contains("non-empty directory at"));
    assert!(error_message.contains("already exists, couldn't discard"));
}

#[test]
fn test_discard_succeeds_conflict_with_link_with_correct_target() {
    let target = resolve("example_group", "discarded_path", true).ok().unwrap();
    let at_home = Found::Symlink {
        target: "/tmp/test_dir/dotfiles/example_group/discarded_path".to_string(),
        resolved: Some(p("/tmp/test_dir/dotfiles/example_group/discarded_path")),
    };
    let resolution = classify_discard(&target, &regular(), &at_home).ok().unwrap();
    assert_eq!(resolution, ConflictResolution::DeleteSymlink);
    let moves = discard(vec![DiscardItem { target, resolution }]);
    assert_eq!(moves.len(), 1);
    assert_eq!(moves[0].target.destination, p("/tmp/test_dir/discarded_path"));
}

#[test]
fn test_discard_fails_conflict_with_link_with_incorrect_target() {
    // the link at home is broken, so the given path reads as a piece of the group folder
    let target = resolve("example_group", "discarded_path", false).ok().unwrap();
    assert_eq!(target.source, p("/tmp/test_dir/dotfiles/example_group/discarded_path"));
    let at_home = Found::Symlink {
        target: "/tmp/test_dir/dotfiles/incorrect_path".to_string(),
        resolved: None,
    };
    let error_message = error_text(classify_discard(&target, &regular(), &at_home));
    assert!(error_message.contains("there is a symlink at"));
    assert!(error_message.contains("but it points to"));
}

#[test]
fn test_discard_succeeds_nested_files_and_folders() {
    let files_to_discard = [
        "move_1_full_dir",
        "partial_move_2_merging_dir/move_3",
        "partial_move_7_new_dir/move_4",
        "partial_move_7_new_dir/partial_move_8_new_dir/move_5_full_dir",
        "partial_move_7_new_dir/partial_move_8_new_dir/move_6",
    ];
    let mut items = vec![];
    for given in files_to_discard {
        let target = resolve("group_name", given, false).ok().unwrap();
        let source = if given.ends_with("dir") { Found::Directory(false) } else { regular() };
        let resolution = classify_discard(&target, &source, &Found::Absent).ok().unwrap();
        assert_eq!(resolution, ConflictResolution::NoConflict);
        items.push(DiscardItem { target, resolution });
    }
    let moves = discard(items);
    let destinations: Vec<String> = moves.iter().map(|m| m.target.destination.join("/")).collect();
    let expected: Vec<String> =
        files_to_discard.iter().map(|f| format!("tmp/test_dir/{f}")).collect();
    assert_eq!(destinations, expected);
    let sources: Vec<String> = moves.iter().map(|m| m.target.source.join("/")).collect();
    let expected: Vec<String> =
        files_to_discard.iter().map(|f| format!("tmp/test_dir/dotfiles/group_name/{f}")).collect();
    assert_eq!(sources, expected);
}

#[test]
fn test_discard_passing_file_and_its_parent() {
    let mut items = vec![];
    for given in ["dir/parent", "dir/parent/file"] {
        let target = resolve("group", given, false).ok().unwrap();
        let resolution = classify_discard(&target, &regular(), &Found::Absent).ok().unwrap();
        items.push(DiscardItem { target, resolution });
    }
    let moves = discard(items);
    assert_eq!(moves.len(), 1);
    assert_eq!(moves[0].target.source, p("/tmp/test_dir/dotfiles/group/dir/parent"));
    assert_eq!(moves[0].target.destination, p("/tmp/test_dir/dir/parent"));
}

#[test]
fn test_discard_symlink_itself() {
    let target = resolve("group", "link", false).ok().unwrap();
    let link = Found::Symlink { target: "any_target".to_string(), resolved: None };
    let resolution = classify_discard(&target, &link, &Found::Absent).ok().unwrap();
    assert_eq!(resolution, ConflictResolution::NoConflict);
    let moves = discard(vec![DiscardItem { target, resolution }]);
    assert_eq!(moves[0].target.source, p("/tmp/test_dir/dotfiles/group/link"));
    assert_eq!(moves[0].target.destination, p("/tmp/test_dir/link"));
}

#[test]
fn discard_order_of_nested_targets_does_not_matter() {
    let mut items = vec![];
    for given in ["dir/parent/file", "dir/parent"] {
        let target = resolve("group", given, false).ok().unwrap();
        items.push(DiscardItem { target, resolution: ConflictResolution::NoConflict });
    }
    let moves = discard(items);
    assert_eq!(moves.len(), 1);
    assert_eq!(moves[0].target.relative, p("dir/parent"));
}

#[test]
fn discard_path_inside_group_folder() {
    let absolute = p("/tmp/test_dir/dotfiles/g/.vimrc");
    let target = resolve_discard(&home(), &group("g"), "x".to_string(), None, absolute, true)
        .ok()
        .unwrap();
    assert_eq!(target.relative, p(".vimrc"));
    assert_eq!(target.source, p("/tmp/test_dir/dotfiles/g/.vimrc"));
    assert_eq!(target.destination, p("/tmp/test_dir/.vimrc"));
}

#[test]
fn discard_path_outside_home_fails() {
    let r = resolve_discard(&home(), &group("g"), "/etc/x".to_string(), None, p("/etc/x"), true);
    match r {
        Err(e) => {
            assert!(matches!(e, DiscardError::OutsideHome { .. }));
            assert_eq!(e.message(), "given path /etc/x is outside of home");
        }
        Ok(_) => panic!("expected an error"),
    }
}

#[test]
fn discard_missing_absolute_path_fails() {
    let r = resolve_discard(&home(), &group("g"), "/nope".to_string(), None, p("/nope"), false);
    assert!(matches!(r, Err(DiscardError::NotFound { .. })));
}

#[test]
fn discard_missing_source_fails() {
    let target = resolve("g", "ghost", false).ok().unwrap();
    match classify_discard(&target, &Found::Absent, &Found::Absent) {
        Err(e) => assert_eq!(
            e.message(),
            "couldn't find ghost to discard it, nothing at /tmp/test_dir/dotfiles/g/ghost"
        ),
        Ok(_) => panic!("expected an error"),
    }
}

#[test]
fn discard_file_exists_message_is_exact() {
    let target = resolve("g", "a", true).ok().unwrap();
    let e = classify_discard(&target, &regular(), &regular()).err().unwrap();
    assert_eq!(
        e.message(),
        "file at /tmp/test_dir/a already exists, so a cannot be discarded to that place"
    );
}

#[test]
fn dedup_nested_keeps_outermost() {
    let mut paths = vec![p("/a/b/c"), p("/a/b"), p("/x"), p("/a/b/d/e"), p("/a/bc")];
    dedup_nested(&mut paths);
    assert_eq!(paths, vec![p("/a/b"), p("/x"), p("/a/bc")]);
}

#[test]
fn dedup_nested_keeps_equal_paths() {
    let mut paths = vec![p("/a"), p("/a")];
    dedup_nested(&mut paths);
    assert_eq!(paths, vec![p("/a"), p("/a")]);
    let mut empty: Vec<Vec<String>> = vec![];
    dedup_nested(&mut empty);
    assert!(empty.is_empty());
}
