use syntaxis::tree::{EntryKind, ExplorerTree, FileEntry};

fn entry(path: &str, kind: EntryKind) -> FileEntry {
    FileEntry {
        path: path.into(),
        name: path.rsplit('/').next().unwrap().into(),
        kind,
        size: 0,
        version: None,
    }
}

fn none() -> Vec<String> {
    Vec::new()
}

#[test]
fn flattening_only_descends_into_expanded_directories() {
    let mut tree = ExplorerTree::default();
    tree.replace_directory("", vec![entry("src", EntryKind::Directory)]);
    tree.replace_directory("src", vec![entry("src/main.rs", EntryKind::File)]);
    assert_eq!(tree.flattened("", None, &none(), false).len(), 1);
    tree.expand("src");
    assert_eq!(tree.flattened("", None, &none(), false).len(), 2);
}

#[test]
fn view_only_expansion_does_not_change_tree_state() {
    let mut tree = ExplorerTree::default();
    tree.replace_directory("", vec![entry("src", EntryKind::Directory)]);
    tree.replace_directory("src", vec![entry("src/main.rs", EntryKind::File)]);
    assert_eq!(tree.flattened_with_expansion("", None, &none(), false, true).len(), 2);
    assert_eq!(tree.flattened("", None, &none(), false).len(), 1);
}

#[test]
fn ignored_directories_are_hidden_or_marked_with_their_children() {
    let mut tree = ExplorerTree::default();
    tree.replace_directory("", vec![entry("target", EntryKind::Directory)]);
    tree.replace_directory("target", vec![entry("target/app", EntryKind::File)]);
    tree.expand("target");
    let ignored = vec!["target".to_owned()];
    assert!(tree.flattened("", None, &ignored, false).is_empty());
    assert!(tree.flattened("", None, &ignored, true).iter().all(|node| node.ignored));
}

#[test]
fn toggling_opens_and_closes_and_reloading_replaces() {
    let mut tree = ExplorerTree::new();
    assert!(!tree.is_loaded("src"));
    tree.replace_directory("", vec![entry("src", EntryKind::Directory)]);
    tree.replace_directory("src", vec![entry("src/a.rs", EntryKind::File), entry("src/b.rs", EntryKind::File)]);
    assert!(tree.is_loaded("src"));
    assert!(tree.toggle("src"));
    assert_eq!(tree.flattened("", None, &none(), false).len(), 3);
    tree.replace_directory("src", vec![entry("src/a.rs", EntryKind::File)]);
    let rows = tree.flattened("", None, &none(), false);
    assert_eq!(rows.len(), 2);
    assert!(rows[0].expanded);
    assert_eq!(rows[1].depth, 1);
    assert!(!tree.toggle("src"));
    assert_eq!(tree.flattened("", None, &none(), false).len(), 1);
}

#[test]
fn search_enters_closed_directories_and_git_filter_keeps_changed_paths() {
    let mut tree = ExplorerTree::new();
    tree.replace_directory(
        "",
        vec![entry(".git", EntryKind::Directory), entry("src", EntryKind::Directory), entry("README.md", EntryKind::File)],
    );
    tree.replace_directory("src", vec![entry("src/Main.rs", EntryKind::File), entry("src/lib.rs", EntryKind::File)]);
    let found = tree.flattened("  MAIN ", None, &none(), false);
    assert_eq!(found.len(), 1);
    assert_eq!(found[0].entry.path, "src/Main.rs");
    assert_eq!(found[0].depth, 1);
    let changed = vec!["src/lib.rs".to_owned()];
    let rows = tree.flattened_with_expansion("", Some(&changed), &none(), false, true);
    let paths: Vec<&str> = rows.iter().map(|node| node.entry.path.as_str()).collect();
    assert_eq!(paths, vec!["src", "src/lib.rs"]);
    let all = tree.flattened("", None, &none(), false);
    assert!(all.iter().all(|node| node.entry.path != ".git"));
}

#[test]
fn ignore_rules_match_whole_components() {
    let mut tree = ExplorerTree::new();
    tree.replace_directory("", vec![entry("target", EntryKind::File), entry("targets", EntryKind::File)]);
    let ignored = vec!["target".to_owned()];
    let rows = tree.flattened("", None, &ignored, false);
    assert_eq!(rows.len(), 1);
    assert_eq!(rows[0].entry.path, "targets");
    assert!(!rows[0].ignored);
}
