use gud::compression::CompressionType;
use gud::error::GudError;
use gud::hash::ContentHash;
use gud::manifest::Manifest;
use gud::tree::{resolve, TreeEntry, TreeNode};

fn path(v: &[&str]) -> Vec<String> {
    v.iter().map(|s| s.to_string()).collect()
}

fn sample() -> Manifest {
    Manifest {
        tree: TreeNode::Directory(vec![
            TreeEntry { name: "a.txt".to_string(), node: TreeNode::File(ContentHash { value: 1 }) },
            TreeEntry {
                name: "d\"ir".to_string(),
                node: TreeNode::Directory(vec![
                    TreeEntry {
                        name: "b.txt".to_string(),
                        node: TreeNode::File(ContentHash { value: 0xabc }),
                    },
                    TreeEntry { name: "e".to_string(), node: TreeNode::Directory(vec![]) },
                ]),
            },
        ]),
        repository_name: "my repo".to_string(),
        compression: CompressionType::Lz4,
    }
}

#[test]
fn manifest_text_layout() {
    let text = sample().to_json();
    assert_eq!(
        text,
        "{\"tree\":{\"a.txt\":\"00000000000000000000000000000001\",\"d\\\"ir\":{\"b.txt\":\"00000000000000000000000000000abc\",\"e\":{}}},\"repository_name\":\"my repo\",\"compression_type\":\"lz4\"}"
    );
}

#[test]
fn manifest_round_trip() {
    let text = sample().to_json();
    let m = Manifest::from_json(&text).unwrap();
    assert_eq!(m.repository_name, "my repo");
    assert_eq!(m.compression, CompressionType::Lz4);
    assert_eq!(resolve(&m.tree, &path(&["a.txt"])), Ok(Some(ContentHash { value: 1 })));
    assert_eq!(
        resolve(&m.tree, &path(&["d\"ir", "b.txt"])),
        Ok(Some(ContentHash { value: 0xabc }))
    );
    assert_eq!(resolve(&m.tree, &path(&["d\"ir", "e"])), Ok(None));
}

#[test]
fn manifest_defaults() {
    let m = Manifest::from_json("{\"tree\":{}}").unwrap();
    assert_eq!(m.repository_name, "");
    assert_eq!(m.compression, CompressionType::Default);
    let m = Manifest::from_json("{\"tree\":{},\"compression_type\":\"zstd\"}").unwrap();
    assert_eq!(m.compression, CompressionType::Default);
    let m = Manifest::from_json("{\"tree\":{},\"compression_type\":\"zlib\"}").unwrap();
    assert_eq!(m.compression, CompressionType::Zlib);
}

#[test]
fn not_a_repository() {
    for text in [
        "",
        "not json",
        "{}",
        "{\"tree\":3}",
        "{\"tree\":{\"a\":\"nothex\"}}",
        "{\"tree\":{\"a\":[1,2]}}",
        "{\"tree\":{\"a\":{\"b\":5}}}",
        "{\"tree\":\"00000000000000000000000000000001\"}",
        "[1,2,3]",
    ] {
        assert!(matches!(Manifest::from_json(text), Err(GudError::NotARepository)), "{}", text);
    }
}
