//! The manifest: the repository's name, its compression algorithm and its
//! tree, kept as one JSON document with the members `tree`,
//! `repository_name` and `compression_type`. In the tree a directory is an
//! object and a file is the string of its hash.

use vstd::prelude::*;
use crate::compression::{
    CompressionType, compression_from_name, compression_name, compression_type_from_str,
    compression_type_to_str,
};
use crate::error::GudError;
use crate::hash::{ContentHash, hex_of, lemma_hex_round_trip, parse_hex};
use crate::tree::{TreeEntry, TreeNode};

verus! {

/// A parsed JSON document of serde_json.
#[verifier::external_type_specification]
#[verifier::external_body]
pub struct ExJsonValue(serde_json::Value);

/// A JSON syntax or encoding failure of serde_json.
#[verifier::external_type_specification]
#[verifier::external_body]
pub struct ExJsonError(serde_json::Error);

/// The shape of a parsed JSON value, as far as a manifest is read from it:
/// an object with its members in the order that the parsed map yields them,
/// a string, or anything else.
pub ghost enum JsonShape {
    Object(Seq<(Seq<char>, JsonShape)>),
    Text(Seq<char>),
    Other,
}

/// The shape of what `serde_json::from_str` parses a text into: `None` where
/// the text is no JSON document.
pub uninterp spec fn json_parsed(text: Seq<char>) -> Option<JsonShape>;

/// The shape of a `serde_json::Value`.
pub uninterp spec fn json_shape(v: serde_json::Value) -> JsonShape;

/// The first member of `members` with the given name.
pub open spec fn first_member(members: Seq<(Seq<char>, JsonShape)>, key: Seq<char>) -> Option<
    JsonShape,
>
    decreases members.len(),
{
    if members.len() == 0 {
        None
    } else if members[0].0 == key {
        Some(members[0].1)
    } else {
        first_member(members.drop_first(), key)
    }
}

/// The member of an object with the given name; nothing for other values.
pub open spec fn member_of(doc: JsonShape, key: Seq<char>) -> Option<JsonShape> {
    match doc {
        JsonShape::Object(members) => first_member(members, key),
        _ => None,
    }
}

/// The shapes of members handed out by `json_members`.
pub open spec fn members_shape(ms: Seq<(String, serde_json::Value)>) -> Seq<(Seq<char>, JsonShape)> {
    ms.map_values(|m: (String, serde_json::Value)| (m.0@, json_shape(m.1)))
}

/// Relies on `serde_json::from_str` into a `serde_json::Value`: parses a JSON
/// document (nested at most 128 levels deep), or fails.
#[verifier::external_body]
fn parse_json(text: &str) -> (r: Result<serde_json::Value, serde_json::Error>)
    ensures
        match r {
            Ok(v) => json_parsed(text@) == Some(json_shape(v)),
            Err(_) => json_parsed(text@) is None,
        },
{
    serde_json::from_str(text)
}

/// Relies on `serde_json::Value::get` with a member name: the member of an
/// object (whose names are unique), `None` where there is none or the value
/// is no object.
#[verifier::external_body]
fn json_member<'a>(v: &'a serde_json::Value, key: &str) -> (r: Option<&'a serde_json::Value>)
    ensures
        match r {
            Some(x) => member_of(json_shape(*v), key@) == Some(json_shape(*x)),
            None => member_of(json_shape(*v), key@) is None,
        },
{
    v.get(key)
}

/// Relies on `serde_json::Value::as_str`: the text of a JSON string, `None`
/// for any other value.
#[verifier::external_body]
fn json_text(v: &serde_json::Value) -> (r: Option<String>)
    ensures
        match r {
            Some(s) => json_shape(*v) == JsonShape::Text(s@),
            None => !(json_shape(*v) is Text),
        },
{
    v.as_str().map(|s| s.to_string())
}

/// Relies on `serde_json::Value::as_object`: the members of a JSON object in
/// the map's order, `None` for any other value.
#[verifier::external_body]
fn json_members(v: &serde_json::Value) -> (r: Option<Vec<(String, serde_json::Value)>>)
    ensures
        match r {
            Some(ms) => json_shape(*v) == JsonShape::Object(members_shape(ms@)),
            None => !(json_shape(*v) is Object),
        },
{
    v.as_object().map(|m| m.iter().map(|(k, x)| (k.clone(), x.clone())).collect())
}

/// Whether an object's member names are distinct.
pub open spec fn names_distinct(ms: Seq<(Seq<char>, JsonShape)>) -> bool {
    forall|i: int, j: int| 0 <= i < j < ms.len() ==> ms[i].0 != ms[j].0
}

/// Whether a value holds only objects and strings, with objects nested at
/// most `depth` deep.
pub open spec fn nested_within(s: JsonShape, depth: nat) -> bool
    decreases depth,
{
    match s {
        JsonShape::Text(_) => true,
        JsonShape::Other => false,
        JsonShape::Object(ms) => depth > 0 && forall|i: int|
            0 <= i < ms.len() ==> nested_within(#[trigger] ms[i].1, (depth - 1) as nat),
    }
}

/// Relies on `serde_json::Value::String`: a JSON string of the text.
#[verifier::external_body]
fn json_from_text(s: String) -> (r: serde_json::Value)
    ensures
        json_shape(r) == JsonShape::Text(s@),
{
    serde_json::Value::String(s)
}

/// Relies on collecting into `serde_json::Map`, which keeps insertion order
/// under the `preserve_order` feature, and on `serde_json::Value::Object`:
/// where the names are distinct, an object with the members in the given order.
#[verifier::external_body]
fn json_object(members: Vec<(String, serde_json::Value)>) -> (r: serde_json::Value)
    ensures
        names_distinct(members_shape(members@)) ==> json_shape(r) == JsonShape::Object(
            members_shape(members@),
        ),
{
    serde_json::Value::Object(members.into_iter().collect())
}

/// Relies on `serde_json::to_string` on a `serde_json::Value`: compact JSON
/// text, written without fail (a value's map keys are strings). Where the
/// value holds only objects and strings, nested at most 127 objects deep
/// (the parser's recursion limit), `serde_json::from_str` reads the text back
/// into a value of the same shape.
#[verifier::external_body]
fn json_render(v: &serde_json::Value) -> (r: Result<String, serde_json::Error>)
    ensures
        r is Ok,
        r matches Ok(t) ==> (nested_within(json_shape(*v), 127) ==> json_parsed(t@) == Some(
            json_shape(*v),
        )),
{
    serde_json::to_string(v)
}

/// Nesting that a stored tree may have: serde_json reads at most 127 nested
/// objects, one of which is the document around the tree.
pub const MAX_TREE_DEPTH: usize = 126;

/// The recorded state of a repository.
#[derive(Debug)]
pub struct Manifest {
    pub tree: TreeNode,
    pub repository_name: String,
    pub compression: CompressionType,
}

/// The JSON shape in which a directory's entries are written: one member per
/// entry, in order, a hash string for a file and an object for a directory.
pub open spec fn entries_shape(es: Seq<TreeEntry>) -> Seq<(Seq<char>, JsonShape)>
    decreases es,
{
    if es.len() == 0 {
        seq![]
    } else {
        let e = es.last();
        entries_shape(es.drop_last()).push(
            (
                e.name@,
                match e.node {
                    TreeNode::File(h) => JsonShape::Text(hex_of(h)),
                    TreeNode::Directory(sub) => JsonShape::Object(entries_shape(sub@)),
                },
            ),
        )
    }
}

/// The JSON shape in which a node is written.
pub open spec fn node_shape(node: TreeNode) -> JsonShape {
    match node {
        TreeNode::File(h) => JsonShape::Text(hex_of(h)),
        TreeNode::Directory(es) => JsonShape::Object(entries_shape(es@)),
    }
}

/// The JSON shape in which a manifest is written.
pub open spec fn manifest_shape(m: Manifest) -> JsonShape {
    JsonShape::Object(
        seq![
            ("tree"@, node_shape(m.tree)),
            ("repository_name"@, JsonShape::Text(m.repository_name@)),
            ("compression_type"@, JsonShape::Text(compression_name(m.compression))),
        ],
    )
}

/// Whether entries are a well-formed directory nested at most `depth` deep:
/// names are distinct within every directory.
pub open spec fn entries_wf(es: Seq<TreeEntry>, depth: nat) -> bool
    decreases depth,
{
    &&& depth > 0
    &&& forall|i: int, j: int| 0 <= i < j < es.len() ==> es[i].name@ != es[j].name@
    &&& forall|i: int|
        0 <= i < es.len() ==> ((#[trigger] es[i]).node matches TreeNode::Directory(sub)
            ==> entries_wf(sub@, (depth - 1) as nat))
}

/// Whether a manifest can be written and read back: its tree is a directory
/// with distinct names in every directory, nested at most `MAX_TREE_DEPTH` deep.
pub open spec fn manifest_wf(m: Manifest) -> bool {
    m.tree matches TreeNode::Directory(es) && entries_wf(es@, MAX_TREE_DEPTH as nat)
}

proof fn lemma_entries_shape_index(es: Seq<TreeEntry>)
    ensures
        entries_shape(es).len() == es.len(),
        forall|i: int|
            0 <= i < es.len() ==> #[trigger] entries_shape(es)[i] == (
                es[i].name@,
                node_shape(es[i].node),
            ),
    decreases es.len(),
{
    if es.len() > 0 {
        lemma_entries_shape_index(es.drop_last());
        assert forall|i: int| 0 <= i < es.len() implies #[trigger] entries_shape(es)[i] == (
            es[i].name@,
            node_shape(es[i].node),
        ) by {
            if i < es.len() - 1 {
                assert(es.drop_last()[i] == es[i]);
            }
        }
    }
}

proof fn lemma_written_tree_nested(es: Seq<TreeEntry>, depth: nat)
    requires
        entries_wf(es, depth),
    ensures
        nested_within(JsonShape::Object(entries_shape(es)), depth),
        names_distinct(entries_shape(es)),
    decreases depth,
{
    lemma_entries_shape_index(es);
    let ms = entries_shape(es);
    assert forall|i: int| 0 <= i < ms.len() implies nested_within(
        #[trigger] ms[i].1,
        (depth - 1) as nat,
    ) by {
        match es[i].node {
            TreeNode::File(_) => {},
            TreeNode::Directory(sub) => {
                lemma_written_tree_nested(sub@, (depth - 1) as nat);
            },
        }
    }
}

proof fn lemma_written_tree_read(es: Seq<TreeEntry>, depth: nat)
    requires
        entries_wf(es, depth),
    ensures
        dir_readable(JsonShape::Object(entries_shape(es)), depth),
        dir_read(JsonShape::Object(entries_shape(es)), depth, es),
    decreases depth,
{
    lemma_entries_shape_index(es);
    let ms = entries_shape(es);
    assert forall|i: int| 0 <= i < ms.len() implies {
        &&& match #[trigger] ms[i].1 {
            JsonShape::Text(t) => parse_hex(t) is Some,
            x => dir_readable(x, (depth - 1) as nat),
        }
        &&& es[i].name@ == ms[i].0 && match ms[i].1 {
            JsonShape::Text(t) => parse_hex(t) matches Some(h) && es[i].node == TreeNode::File(h),
            x => es[i].node matches TreeNode::Directory(sub) && dir_read(
                x,
                (depth - 1) as nat,
                sub@,
            ),
        }
    } by {
        match es[i].node {
            TreeNode::File(h) => {
                lemma_hex_round_trip(h);
            },
            TreeNode::Directory(sub) => {
                lemma_written_tree_read(sub@, (depth - 1) as nat);
            },
        }
    }
}

/// Reading back a document of the shape that `to_json` writes for a
/// well-formed manifest gives that manifest: its tree, name and compression.
pub proof fn lemma_manifest_round_trip(m: Manifest, text: Seq<char>)
    requires
        manifest_wf(m),
        json_parsed(text) == Some(manifest_shape(m)),
    ensures
        manifest_readable(text),
        manifest_read(text, m),
{
    reveal_strlit("tree");
    reveal_strlit("repository_name");
    reveal_strlit("compression_type");
    let es = m.tree->Directory_0;
    lemma_written_tree_read(es@, MAX_TREE_DEPTH as nat);
    let doc = manifest_shape(m);
    let ms = doc->Object_0;
    assert("tree"@.len() == 4 && "repository_name"@.len() == 15 && "compression_type"@.len()
        == 16);
    assert(first_member(ms, "tree"@) == Some(node_shape(m.tree)));
    let ms1 = ms.drop_first();
    let ms2 = ms1.drop_first();
    assert(ms1[0].0 == "repository_name"@);
    assert(first_member(ms1, "repository_name"@) == Some(JsonShape::Text(m.repository_name@)));
    assert(ms[0].0 != "repository_name"@);
    assert(first_member(ms, "repository_name"@) == first_member(ms1, "repository_name"@));
    assert(ms2[0].0 == "compression_type"@);
    assert(first_member(ms2, "compression_type"@) == Some(
        JsonShape::Text(compression_name(m.compression)),
    ));
    assert(ms1[0].0 != "compression_type"@);
    assert(ms[0].0 != "compression_type"@);
    assert(first_member(ms1, "compression_type"@) == first_member(ms2, "compression_type"@));
    assert(first_member(ms, "compression_type"@) == first_member(ms1, "compression_type"@));
}

/// Whether a JSON value can be read as a stored directory within `depth`
/// levels of nesting: an object whose members are hash strings or directories.
pub open spec fn dir_readable(s: JsonShape, depth: nat) -> bool
    decreases depth,
{
    depth > 0 && match s {
        JsonShape::Object(ms) => forall|i: int|
            0 <= i < ms.len() ==> match #[trigger] ms[i].1 {
                JsonShape::Text(t) => parse_hex(t) is Some,
                x => dir_readable(x, (depth - 1) as nat),
            },
        _ => false,
    }
}

/// Whether `es` is the directory read from a JSON value: one entry per member,
/// in order, a file for a hash string and a directory for anything else.
pub open spec fn dir_read(s: JsonShape, depth: nat, es: Seq<TreeEntry>) -> bool
    decreases depth,
{
    depth > 0 && match s {
        JsonShape::Object(ms) => es.len() == ms.len() && forall|i: int|
            0 <= i < ms.len() ==> (#[trigger] es[i]).name@ == ms[i].0 && match ms[i].1 {
                JsonShape::Text(t) => parse_hex(t) matches Some(h) && es[i].node == TreeNode::File(h),
                x => es[i].node matches TreeNode::Directory(sub) && dir_read(
                    x,
                    (depth - 1) as nat,
                    sub@,
                ),
            },
        _ => false,
    }
}

/// The text of a string member of a document.
pub open spec fn text_member(doc: JsonShape, key: Seq<char>) -> Option<Seq<char>> {
    match member_of(doc, key) {
        Some(JsonShape::Text(s)) => Some(s),
        _ => None,
    }
}

/// Whether a text holds a readable manifest: it is a JSON document whose
/// `tree` member is a stored directory.
pub open spec fn manifest_readable(text: Seq<char>) -> bool {
    json_parsed(text) matches Some(doc) && member_of(doc, "tree"@) matches Some(t) && dir_readable(
        t,
        MAX_TREE_DEPTH as nat,
    )
}

/// Whether `m` is the manifest read from a text: the tree of its `tree`
/// member, the `repository_name` string (empty where there is none) and the
/// compression that the `compression_type` string selects (`Default` where
/// there is none).
pub open spec fn manifest_read(text: Seq<char>, m: Manifest) -> bool {
    json_parsed(text) matches Some(doc) && member_of(doc, "tree"@) matches Some(t) && {
        &&& m.tree matches TreeNode::Directory(es) && dir_read(t, MAX_TREE_DEPTH as nat, es@)
        &&& m.repository_name@ == match text_member(doc, "repository_name"@) {
            Some(name) => name,
            None => Seq::<char>::empty(),
        }
        &&& m.compression == match text_member(doc, "compression_type"@) {
            Some(c) => compression_from_name(c),
            None => CompressionType::Default,
        }
    }
}

fn entries_to_json(es: &Vec<TreeEntry>, Ghost(depth): Ghost<nat>) -> (r: serde_json::Value)
    ensures
        entries_wf(es@, depth) ==> json_shape(r) == JsonShape::Object(entries_shape(es@)),
    decreases es@,
{
    let mut members: Vec<(String, serde_json::Value)> = Vec::new();
    let mut i: usize = 0;
    assert(es@.take(0) =~= Seq::<TreeEntry>::empty());
    assert(members_shape(members@) =~= Seq::<(Seq<char>, JsonShape)>::empty());
    while i < es.len()
        invariant
            i <= es@.len(),
            entries_wf(es@, depth) ==> members_shape(members@) == entries_shape(es@.take(i as int)),
        decreases es@.len() - i,
    {
        let e = &es[i];
        let ghost next = es@.take(i as int + 1);
        assert(next.drop_last() =~= es@.take(i as int));
        assert(next.last() == *e);
        let value = match &e.node {
            TreeNode::File(h) => json_from_text(h.to_hex()),
            TreeNode::Directory(sub) => entries_to_json(sub, Ghost((depth - 1) as nat)),
        };
        let ghost before = members@;
        members.push((e.name.clone(), value));
        proof {
            if entries_wf(es@, depth) {
                assert(members@.drop_last() == before);
                assert(members_shape(members@) =~= members_shape(before).push(
                    (e.name@, json_shape(value)),
                ));
                assert(es@[i as int] == *e);
            }
        }
        i = i + 1;
    }
    proof {
        assert(es@.take(es@.len() as int) =~= es@);
        if entries_wf(es@, depth) {
            lemma_written_tree_nested(es@, depth);
        }
    }
    json_object(members)
}

fn tree_from_json(v: &serde_json::Value, depth: usize) -> (r: Result<Vec<TreeEntry>, GudError>)
    ensures
        r is Ok <==> dir_readable(json_shape(*v), depth as nat),
        r matches Ok(es) ==> dir_read(json_shape(*v), depth as nat, es@),
        r matches Err(e) ==> e == GudError::NotARepository,
    decreases depth,
{
    if depth == 0 {
        return Err(GudError::NotARepository);
    }
    let members = match json_members(v) {
        Some(m) => m,
        None => {
            return Err(GudError::NotARepository);
        },
    };
    let ghost ms = members_shape(members@);
    let mut out: Vec<TreeEntry> = Vec::new();
    let mut i: usize = 0;
    while i < members.len()
        invariant
            i <= members@.len(),
            depth > 0,
            ms == members_shape(members@),
            json_shape(*v) == JsonShape::Object(ms),
            out@.len() == i,
            forall|j: int|
                0 <= j < i ==> match #[trigger] ms[j].1 {
                    JsonShape::Text(t) => parse_hex(t) is Some,
                    x => dir_readable(x, (depth - 1) as nat),
                },
            forall|j: int|
                0 <= j < i ==> (#[trigger] out@[j]).name@ == ms[j].0 && match ms[j].1 {
                    JsonShape::Text(t) => parse_hex(t) matches Some(h) && out@[j].node
                        == TreeNode::File(h),
                    x => out@[j].node matches TreeNode::Directory(sub) && dir_read(
                        x,
                        (depth - 1) as nat,
                        sub@,
                    ),
                },
        decreases members@.len() - i,
    {
        let (name, value) = &members[i];
        assert(ms[i as int] == (name@, json_shape(*value)));
        let node = match json_text(value) {
            Some(s) => match ContentHash::from_hex(s.as_str()) {
                Some(h) => TreeNode::File(h),
                None => {
                    assert(!dir_readable(json_shape(*v), depth as nat)) by {
                        assert(!match ms[i as int].1 {
                            JsonShape::Text(t) => parse_hex(t) is Some,
                            x => dir_readable(x, (depth - 1) as nat),
                        });
                    }
                    return Err(GudError::NotARepository);
                },
            },
            None => match tree_from_json(value, depth - 1) {
                Ok(sub) => TreeNode::Directory(sub),
                Err(e) => {
                    assert(!dir_readable(json_shape(*v), depth as nat)) by {
                        assert(!match ms[i as int].1 {
                            JsonShape::Text(t) => parse_hex(t) is Some,
                            x => dir_readable(x, (depth - 1) as nat),
                        });
                    }
                    return Err(e);
                },
            },
        };
        out.push(TreeEntry { name: name.clone(), node });
        i = i + 1;
    }
    assert(dir_readable(json_shape(*v), depth as nat));
    assert(dir_read(json_shape(*v), depth as nat, out@));
    Ok(out)
}

impl Manifest {
    /// The manifest's JSON document, written by serde_json. A well-formed
    /// manifest is written so that it reads back as itself.
    pub fn to_json(&self) -> (r: String)
        ensures
            manifest_wf(*self) ==> json_parsed(r@) == Some(manifest_shape(*self)),
    {
        let tree = match &self.tree {
            TreeNode::File(h) => json_from_text(h.to_hex()),
            TreeNode::Directory(es) => entries_to_json(es, Ghost(MAX_TREE_DEPTH as nat)),
        };
        let mut members: Vec<(String, serde_json::Value)> = Vec::new();
        members.push((String::from_str("tree"), tree));
        members.push(
            (
                String::from_str("repository_name"),
                json_from_text(self.repository_name.clone()),
            ),
        );
        members.push(
            (
                String::from_str("compression_type"),
                json_from_text(compression_type_to_str(&self.compression)),
            ),
        );
        proof {
            reveal_strlit("tree");
            reveal_strlit("repository_name");
            reveal_strlit("compression_type");
            assert("tree"@.len() == 4 && "repository_name"@.len() == 15
                && "compression_type"@.len() == 16);
            assert(members_shape(members@) =~= seq![
                ("tree"@, json_shape(tree)),
                ("repository_name"@, JsonShape::Text(self.repository_name@)),
                ("compression_type"@, JsonShape::Text(compression_name(self.compression))),
            ]);
        }
        let doc = json_object(members);
        proof {
            if manifest_wf(*self) {
                let es = self.tree->Directory_0;
                lemma_written_tree_nested(es@, MAX_TREE_DEPTH as nat);
                assert(names_distinct(members_shape(members@)));
                assert(members_shape(members@) =~= manifest_shape(*self)->Object_0);
                assert(json_shape(doc) == manifest_shape(*self));
                let ms = manifest_shape(*self)->Object_0;
                assert forall|i: int| 0 <= i < ms.len() implies nested_within(
                    #[trigger] ms[i].1,
                    126,
                ) by {}
            }
        }
        match json_render(&doc) {
            Ok(t) => t,
            Err(_) => String::new(),
        }
    }

    /// Reads a manifest from its JSON document. A text that does not parse,
    /// has no `tree` member, or whose tree is not a nesting of objects with
    /// hash strings at the leaves, gives `NotARepository`. A missing name
    /// reads as empty; a missing or unknown compression identifier reads as
    /// `Default`.
    pub fn from_json(text: &str) -> (r: Result<Manifest, GudError>)
        ensures
            r is Ok <==> manifest_readable(text@),
            r matches Ok(m) ==> manifest_read(text@, m),
            r matches Err(e) ==> e == GudError::NotARepository,
    {
        let doc = match parse_json(text) {
            Ok(d) => d,
            Err(_) => {
                return Err(GudError::NotARepository);
            },
        };
        let tree = match json_member(&doc, "tree") {
            Some(t) => match tree_from_json(t, MAX_TREE_DEPTH) {
                Ok(es) => TreeNode::Directory(es),
                Err(e) => {
                    return Err(e);
                },
            },
            None => {
                return Err(GudError::NotARepository);
            },
        };
        let repository_name = match json_member(&doc, "repository_name") {
            Some(n) => match json_text(n) {
                Some(s) => s,
                None => String::new(),
            },
            None => String::new(),
        };
        let compression = match json_member(&doc, "compression_type") {
            Some(c) => match json_text(c) {
                Some(s) => compression_type_from_str(s.as_str()),
                None => CompressionType::Default,
            },
            None => CompressionType::Default,
        };
        let m = Manifest { tree, repository_name, compression };
        assert(manifest_read(text@, m));
        Ok(m)
    }
}

} // verus!
