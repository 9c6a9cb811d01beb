use gud::error::GudError;
use gud::hash::ContentHash;
use gud::ignore::{is_ignored, normalize_ignore_entry, process_ignore_file};
use gud::tree::{resolve, split_path, TreeEntry, TreeNode};

fn strings(v: &[&str]) -> Vec<String> {
    v.iter().map(|s| s.to_string()).collect()
}

fn sample_tree() -> TreeNode {
    TreeNode::Directory(vec![
        TreeEntry { name: "a.txt".to_string(), node: TreeNode::File(ContentHash { value: 1 }) },
        TreeEntry {
            name: "src".to_string(),
            node: TreeNode::Directory(vec![
                TreeEntry {
                    name: "main.rs".to_string(),
                    node: TreeNode::File(ContentHash { value: 2 }),
                },
                TreeEntry { name: "empty".to_string(), node: TreeNode::Directory(vec![]) },
            ]),
        },
    ])
}

#[test]
fn splitting_paths() {
    assert_eq!(split_path("a.txt"), strings(&["a.txt"]));
    assert_eq!(split_path("src/main.rs"), strings(&["src", "main.rs"]));
    assert_eq!(split_path("./src//main.rs/"), strings(&["src", "main.rs"]));
    assert_eq!(split_path(""), Vec::<String>::new());
    assert_eq!(split_path(".."), strings(&[".."]));
}

#[test]
fn resolving_tracked_files() {
    let t = sample_tree();
    assert_eq!(resolve(&t, &strings(&["a.txt"])), Ok(Some(ContentHash { value: 1 })));
    assert_eq!(resolve(&t, &strings(&["src", "main.rs"])), Ok(Some(ContentHash { value: 2 })));
}

#[test]
fn resolving_untracked_paths() {
    let t = sample_tree();
    assert_eq!(resolve(&t, &strings(&["b.txt"])), Ok(None));
    assert_eq!(resolve(&t, &strings(&["src", "lib.rs"])), Ok(None));
    assert_eq!(resolve(&t, &strings(&["src"])), Ok(None));
    assert_eq!(resolve(&t, &strings(&["src", "empty", "x"])), Ok(None));
    assert_eq!(resolve(&t, &strings(&["nope", "deeper", "x"])), Ok(None));
    assert_eq!(resolve(&t, &Vec::new()), Ok(None));
}

#[test]
fn resolving_through_a_file() {
    let t = sample_tree();
    assert_eq!(resolve(&t, &strings(&["a.txt", "x"])), Err(GudError::CorruptManifest));
    assert_eq!(resolve(&t, &strings(&["src", "main.rs", "x", "y"])), Err(GudError::CorruptManifest));
}

#[test]
fn ignore_entries() {
    assert_eq!(normalize_ignore_entry("  build/ "), "build");
    assert_eq!(normalize_ignore_entry("./target//"), "./target");
    assert_eq!(normalize_ignore_entry("a/b"), "a/b");
    assert_eq!(normalize_ignore_entry(" \t"), "");
    assert_eq!(normalize_ignore_entry("\u{a0}\u{3000}logs\u{2003}\u{85}"), "logs");
    assert_eq!(normalize_ignore_entry("build/ /"), "build/ ");
    assert_eq!(normalize_ignore_entry("\x0bout\x0c"), "out");
}

#[test]
fn ignore_file_text() {
    assert_eq!(process_ignore_file(""), strings(&[".gud"]));
    assert_eq!(process_ignore_file("build/\n"), strings(&[".gud", "build"]));
    assert_eq!(process_ignore_file("\n"), strings(&[".gud", ""]));
    assert_eq!(process_ignore_file("  "), strings(&[".gud", ""]));
    assert_eq!(
        process_ignore_file("build/\n\n  ./docs/api \r\nlogs"),
        strings(&[".gud", "build", "", "./docs/api", "logs"])
    );
}

#[test]
fn ignore_matching_is_exact() {
    let ignore = strings(&[".gud", "build"]);
    assert!(is_ignored(&ignore, "build"));
    assert!(is_ignored(&ignore, ".gud"));
    assert!(!is_ignored(&ignore, "build2"));
    assert!(!is_ignored(&ignore, "src/build"));
    let listed = process_ignore_file("./build\n\n");
    assert!(!is_ignored(&listed, "build"));
    assert!(!is_ignored(&listed, "a"));
}
