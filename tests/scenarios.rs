use gud::builder::{build, WorkEntry, WorkItem};
use gud::cli::Flags;
use gud::compression::{decompress, CompressionType};
use gud::diff::{materialize_original, Detection, DiffAction, DiffResult};
use gud::error::GudError;
use gud::hash::content_hash;
use gud::ignore::process_ignore_file;
use gud::init::InitAction;
use gud::manifest::Manifest;
use gud::store::ObjectStore;
use gud::tree::{resolve, TreeNode};

fn file(name: &str, bytes: &[u8]) -> WorkEntry {
    WorkEntry { name: name.to_string(), item: WorkItem::File(bytes.to_vec()) }
}

fn dir(name: &str, entries: Vec<WorkEntry>) -> WorkEntry {
    WorkEntry { name: name.to_string(), item: WorkItem::Directory(entries) }
}

fn path(v: &[&str]) -> Vec<String> {
    v.iter().map(|s| s.to_string()).collect()
}

fn init(
    root: Vec<WorkEntry>,
    ignore_text: &str,
    compression: Option<&str>,
    store: &mut ObjectStore,
) -> Manifest {
    let action = InitAction::new(
        process_ignore_file(ignore_text),
        Flags { compression: compression.map(|c| c.to_string()), name: Some("repo".to_string()) },
    );
    let mut raw = Vec::new();
    let m = action.run(&root, store, &mut raw).unwrap();
    assert!(raw.is_empty());
    m
}

fn diff_action(manifest: Manifest, name: &str) -> DiffAction {
    DiffAction::new(&Flags { compression: None, name: Some(name.to_string()) }, vec![], manifest)
        .unwrap()
}

#[test]
fn scenario_init_single_file() {
    let mut store = ObjectStore::new();
    let m = init(vec![file("a.txt", b"hello")], "", None, &mut store);
    let h = content_hash(b"hello");
    assert_eq!(resolve(&m.tree, &path(&["a.txt"])), Ok(Some(h)));
    match &m.tree {
        TreeNode::Directory(es) => assert_eq!(es.len(), 1),
        TreeNode::File(_) => panic!("the root must be a directory"),
    }
    assert_eq!(store.hashes(), vec![h]);
    let blob = store.get(&h).unwrap();
    assert_eq!(decompress(m.compression, &blob).unwrap(), b"hello".to_vec());
    assert_eq!(m.repository_name, "repo");
    assert_eq!(m.compression, CompressionType::Zlib);
}

#[test]
fn scenario_modified_file() {
    for compression in [None, Some("lz4")] {
        let mut store = ObjectStore::new();
        let m = init(vec![file("a.txt", b"hello")], "", compression, &mut store);
        let action = diff_action(m, "a.txt");
        let live = Some(b"hello!".to_vec());
        assert_eq!(
            action.detect(&live),
            Ok(Detection::Changed { original: content_hash(b"hello") })
        );
        match action.run(live, &store).unwrap() {
            DiffResult::Changed { original_hash, original, current } => {
                assert_eq!(original_hash, content_hash(b"hello"));
                assert_eq!(original, b"hello".to_vec());
                assert_eq!(current, b"hello!".to_vec());
            },
            other => panic!("unexpected result {:?}", other),
        }
    }
}

#[test]
fn scenario_unchanged_file() {
    let mut store = ObjectStore::new();
    let m = init(vec![file("a.txt", b"hello")], "", None, &mut store);
    let action = diff_action(m, "a.txt");
    assert_eq!(action.detect(&Some(b"hello".to_vec())), Ok(Detection::Unchanged));
    assert!(matches!(action.run(Some(b"hello".to_vec()), &store), Ok(DiffResult::NoChanges)));
}

#[test]
fn scenario_new_file() {
    let mut store = ObjectStore::new();
    let m = init(vec![file("a.txt", b"hello")], "", None, &mut store);
    let action = diff_action(m, "new.txt");
    assert_eq!(action.detect(&Some(b"fresh".to_vec())), Ok(Detection::New));
    let empty = ObjectStore::new();
    assert!(matches!(action.run(Some(b"fresh".to_vec()), &empty), Ok(DiffResult::Untracked)));
}

#[test]
fn scenario_ignored_directory() {
    let mut store = ObjectStore::new();
    let root = vec![
        file("a.txt", b"hello"),
        dir("build", vec![file("out.bin", b"artifact"), dir("deep", vec![file("x", b"xx")])]),
        dir("build2", vec![file("kept.txt", b"kept")]),
        dir(".gud", vec![file("info", b"{}")]),
    ];
    let m = init(root, "build/\n", None, &mut store);
    assert_eq!(resolve(&m.tree, &path(&["build"])), Ok(None));
    assert_eq!(resolve(&m.tree, &path(&["build", "out.bin"])), Ok(None));
    assert_eq!(resolve(&m.tree, &path(&[".gud", "info"])), Ok(None));
    assert_eq!(
        resolve(&m.tree, &path(&["build2", "kept.txt"])),
        Ok(Some(content_hash(b"kept")))
    );
    assert!(!store.contains(&content_hash(b"artifact")));
    assert!(!store.contains(&content_hash(b"xx")));
    assert!(!store.contains(&content_hash(b"{}")));
    assert_eq!(store.hashes().len(), 2);
}

#[test]
fn scenario_deleted_file() {
    let mut store = ObjectStore::new();
    let m = init(vec![file("a.txt", b"hello")], "", None, &mut store);
    let action = diff_action(m, "a.txt");
    assert_eq!(action.detect(&None), Err(GudError::WorkingFileMissing));
    assert!(matches!(action.run(None, &store), Err(GudError::WorkingFileMissing)));
}

#[test]
fn nested_files_and_empty_directories() {
    let mut store = ObjectStore::new();
    let root = vec![
        dir("src", vec![file("main.rs", b"fn main() {}"), dir("empty", vec![])]),
        WorkEntry { name: "locked".to_string(), item: WorkItem::Unreadable },
        WorkEntry { name: "link".to_string(), item: WorkItem::Other },
        file("same.txt", b"fn main() {}"),
    ];
    let m = init(root, "", None, &mut store);
    let h = content_hash(b"fn main() {}");
    assert_eq!(resolve(&m.tree, &path(&["src", "main.rs"])), Ok(Some(h)));
    assert_eq!(resolve(&m.tree, &path(&["same.txt"])), Ok(Some(h)));
    assert_eq!(resolve(&m.tree, &path(&["src", "empty"])), Ok(None));
    assert_eq!(resolve(&m.tree, &path(&["locked"])), Ok(None));
    assert_eq!(resolve(&m.tree, &path(&["link"])), Ok(None));
    assert_eq!(store.hashes(), vec![h]);
}

#[test]
fn diff_from_a_subdirectory() {
    let mut store = ObjectStore::new();
    let m = init(vec![dir("src", vec![file("lib.rs", b"old")])], "", None, &mut store);
    let action = DiffAction::new(
        &Flags { compression: None, name: Some("lib.rs".to_string()) },
        vec!["src".to_string()],
        m,
    )
    .unwrap();
    assert_eq!(action.tracked_path(), path(&["src", "lib.rs"]));
    assert_eq!(
        action.detect(&Some(b"new".to_vec())),
        Ok(Detection::Changed { original: content_hash(b"old") })
    );
}

#[test]
fn missing_and_corrupt_objects() {
    let mut store = ObjectStore::new();
    let m = init(vec![file("a.txt", b"hello")], "", None, &mut store);
    let action = diff_action(m, "a.txt");
    let empty = ObjectStore::new();
    assert!(matches!(action.run(Some(b"x".to_vec()), &empty), Err(GudError::ObjectNotFound)));
    let mut bad = ObjectStore::new();
    bad.put(content_hash(b"hello"), vec![0xff, 0xff, 0xff, 0xff]);
    assert!(matches!(action.run(Some(b"x".to_vec()), &bad), Err(GudError::CorruptObject)));
    assert_eq!(
        materialize_original(CompressionType::Zlib, None),
        Err(GudError::ObjectNotFound)
    );
}

#[test]
fn commands_without_a_name() {
    let action = InitAction::new(vec![], Flags { compression: None, name: None });
    let mut store = ObjectStore::new();
    let mut raw = Vec::new();
    assert!(matches!(
        action.run(&vec![file("a.txt", b"hello")], &mut store, &mut raw),
        Err(GudError::MissingArgument)
    ));
    assert!(store.hashes().is_empty());
    let m = Manifest {
        tree: TreeNode::Directory(vec![]),
        repository_name: String::new(),
        compression: CompressionType::Zlib,
    };
    assert!(matches!(
        DiffAction::new(&Flags { compression: None, name: None }, vec![], m),
        Err(GudError::MissingArgument)
    ));
}

#[test]
fn build_reports_ignored_content_absent() {
    let mut store = ObjectStore::new();
    let mut raw = Vec::new();
    let ignore = process_ignore_file("docs");
    let t = build(
        &vec![dir("docs", vec![file("a.md", b"doc")]), file("b", b"b")],
        &ignore,
        CompressionType::Lz4,
        &mut store,
        &mut raw,
    );
    assert_eq!(resolve(&t, &path(&["docs", "a.md"])), Ok(None));
    assert_eq!(resolve(&t, &path(&["b"])), Ok(Some(content_hash(b"b"))));
    assert_eq!(store.hashes(), vec![content_hash(b"b")]);
}

#[test]
fn manifest_written_by_init_reads_back() {
    let mut store = ObjectStore::new();
    let root = vec![file("a.txt", b"hello"), dir("src", vec![file("lib.rs", b"code")])];
    let m = init(root, "", Some("lz4"), &mut store);
    let text = m.to_json();
    let back = Manifest::from_json(&text).unwrap();
    assert_eq!(back.repository_name, "repo");
    assert_eq!(back.compression, CompressionType::Lz4);
    assert_eq!(resolve(&back.tree, &path(&["a.txt"])), Ok(Some(content_hash(b"hello"))));
    assert_eq!(resolve(&back.tree, &path(&["src", "lib.rs"])), Ok(Some(content_hash(b"code"))));
    let action = diff_action(back, "a.txt");
    match action.run(Some(b"hello!".to_vec()), &store).unwrap() {
        DiffResult::Changed { original, .. } => assert_eq!(original, b"hello".to_vec()),
        other => panic!("unexpected result {:?}", other),
    }
}
