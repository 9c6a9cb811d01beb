//! The manifest tree: a directory maps entry names to files (by content hash)
//! or to nested directories; a path is resolved one segment at a time.

use vstd::prelude::*;
use crate::error::GudError;
use crate::hash::ContentHash;
use crate::text::push_char;

verus! {

/// One named entry of a directory.
#[derive(Debug)]
pub struct TreeEntry {
    pub name: String,
    pub node: TreeNode,
}

/// A file, identified by the hash of its content, or a directory.
#[derive(Debug)]
pub enum TreeNode {
    File(ContentHash),
    Directory(Vec<TreeEntry>),
}

/// The node recorded under `name` among `entries` (the first, should names repeat).
pub open spec fn find_entry(entries: Seq<TreeEntry>, name: Seq<char>) -> Option<TreeNode>
    decreases entries.len(),
{
    if entries.len() == 0 {
        None
    } else if entries[0].name@ == name {
        Some(entries[0].node)
    } else {
        find_entry(entries.drop_first(), name)
    }
}

/// The node that a path of segments leads to, if every segment is found and
/// every segment but the last names a directory.
pub open spec fn node_at(node: TreeNode, path: Seq<Seq<char>>) -> Option<TreeNode>
    decreases path.len(),
{
    if path.len() == 0 {
        Some(node)
    } else {
        match node {
            TreeNode::File(_) => None,
            TreeNode::Directory(entries) => match find_entry(entries@, path[0]) {
                None => None,
                Some(child) => node_at(child, path.drop_first()),
            },
        }
    }
}

/// The node that a non-empty path leads to from a directory's entries.
pub open spec fn node_at_entries(entries: Seq<TreeEntry>, path: Seq<Seq<char>>) -> Option<TreeNode> {
    match find_entry(entries, path[0]) {
        None => None,
        Some(child) => node_at(child, path.drop_first()),
    }
}

/// Resolution of a path: `Ok(Some(h))` for a tracked file, `Ok(None)` for a
/// path that is not tracked, and `CorruptManifest` where a file stands where
/// segments remain.
pub open spec fn resolve_spec(node: TreeNode, path: Seq<Seq<char>>) -> Result<
    Option<ContentHash>,
    GudError,
>
    decreases path.len(),
{
    match node {
        TreeNode::File(h) => if path.len() == 0 {
            Ok(Some(h))
        } else {
            Err(GudError::CorruptManifest)
        },
        TreeNode::Directory(entries) => if path.len() == 0 {
            Ok(None)
        } else {
            match find_entry(entries@, path[0]) {
                None => Ok(None),
                Some(child) => resolve_spec(child, path.drop_first()),
            }
        },
    }
}

/// Whether some proper prefix of the path leads to a file: the only shape of
/// tree that a path cannot be resolved against.
pub open spec fn blocked_by_file(node: TreeNode, path: Seq<Seq<char>>) -> bool {
    exists|k: int| 0 <= k < path.len() && #[trigger] node_at(node, path.take(k)) matches Some(
        TreeNode::File(_),
    )
}

proof fn lemma_node_at_step(node: TreeNode, path: Seq<Seq<char>>, child: TreeNode, k: int)
    requires
        node is Directory,
        path.len() > 0,
        find_entry(node->Directory_0@, path[0]) == Some(child),
        1 <= k <= path.len(),
    ensures
        node_at(node, path.take(k)) == node_at(child, path.drop_first().take(k - 1)),
{
    assert(path.take(k)[0] == path[0]);
    assert(path.take(k).drop_first() =~= path.drop_first().take(k - 1));
}

/// Resolution is total: it fails, always with `CorruptManifest`, exactly where
/// a proper prefix of the path names a file; otherwise it yields the hash of
/// the file that the path leads to, or "not tracked" where the path leads to
/// nothing or to a directory.
pub proof fn lemma_resolve_total(node: TreeNode, path: Seq<Seq<char>>)
    ensures
        resolve_spec(node, path) is Err <==> blocked_by_file(node, path),
        resolve_spec(node, path) is Err ==> resolve_spec(node, path) == Err::<
            Option<ContentHash>,
            GudError,
        >(GudError::CorruptManifest),
        !blocked_by_file(node, path) ==> resolve_spec(node, path) == Ok::<
            Option<ContentHash>,
            GudError,
        >(
            match node_at(node, path) {
                Some(TreeNode::File(h)) => Some(h),
                _ => None,
            },
        ),
    decreases path.len(),
{
    if path.len() > 0 {
        assert(path.take(0) =~= Seq::<Seq<char>>::empty());
        assert(node_at(node, path.take(0)) == Some(node));
    }
    match node {
        TreeNode::File(h) => {
            if path.len() > 0 {
                assert(blocked_by_file(node, path));
            }
        },
        TreeNode::Directory(entries) => {
            if path.len() > 0 {
                match find_entry(entries@, path[0]) {
                    None => {
                        assert forall|k: int| 0 <= k < path.len() implies !(#[trigger] node_at(
                            node,
                            path.take(k),
                        ) matches Some(TreeNode::File(_))) by {
                            if k > 0 {
                                assert(path.take(k)[0] == path[0]);
                            }
                        }
                    },
                    Some(child) => {
                        let rest = path.drop_first();
                        lemma_resolve_total(child, rest);
                        if blocked_by_file(child, rest) {
                            let k = choose|k: int| 0 <= k < rest.len() && #[trigger] node_at(
                                child,
                                rest.take(k),
                            ) matches Some(TreeNode::File(_));
                            lemma_node_at_step(node, path, child, k + 1);
                            assert(node_at(node, path.take(k + 1)) matches Some(
                                TreeNode::File(_),
                            ));
                        }
                        if blocked_by_file(node, path) {
                            let k = choose|k: int| 0 <= k < path.len() && #[trigger] node_at(
                                node,
                                path.take(k),
                            ) matches Some(TreeNode::File(_));
                            lemma_node_at_step(node, path, child, k);
                            assert(node_at(child, rest.take(k - 1)) matches Some(
                                TreeNode::File(_),
                            ));
                        }
                    },
                }
            }
        },
    }
}

/// The views of a sequence of strings.
pub open spec fn strings_view(v: Seq<String>) -> Seq<Seq<char>> {
    v.map_values(|s: String| s@)
}

/// A segment is kept unless it is empty or `.`.
pub open spec fn kept_segment(cur: Seq<char>) -> Seq<Seq<char>> {
    if cur.len() == 0 || cur == seq!['.'] {
        seq![]
    } else {
        seq![cur]
    }
}

/// The segments of `s`, with `cur` already read of the first one.
pub open spec fn segments_from(s: Seq<char>, cur: Seq<char>) -> Seq<Seq<char>>
    decreases s.len(),
{
    if s.len() == 0 {
        kept_segment(cur)
    } else if s[0] == '/' {
        kept_segment(cur) + segments_from(s.drop_first(), seq![])
    } else {
        segments_from(s.drop_first(), cur.push(s[0]))
    }
}

/// The segments of a relative path: split on `/`, without empty or `.` segments.
pub open spec fn path_segments(s: Seq<char>) -> Seq<Seq<char>> {
    segments_from(s, seq![])
}

fn keep_segment(out: &mut Vec<String>, cur: String)
    ensures
        strings_view(final(out)@) == strings_view(old(out)@) + kept_segment(cur@),
{
    let n = cur.unicode_len();
    let dot = n == 1 && cur.as_str().get_char(0) == '.';
    proof {
        if cur@.len() == 1 {
            if cur@[0] == '.' {
                assert(cur@ =~= seq!['.']);
            }
            if cur@ == seq!['.'] {
                assert(cur@[0] == '.');
            }
        }
    }
    if n == 0 || dot {
        assert(strings_view(old(out)@) + kept_segment(cur@) =~= strings_view(old(out)@));
    } else {
        out.push(cur);
        assert(strings_view(final(out)@) =~= strings_view(old(out)@) + kept_segment(cur@));
    }
}

/// Splits a relative path into the segments that resolution walks.
pub fn split_path(path: &str) -> (r: Vec<String>)
    ensures
        strings_view(r@) == path_segments(path@),
{
    let n = path.unicode_len();
    let mut out: Vec<String> = Vec::new();
    let mut cur = String::new();
    let mut i: usize = 0;
    assert(path@.subrange(0, n as int) =~= path@);
    while i < n
        invariant
            n == path@.len(),
            i <= n,
            strings_view(out@) + segments_from(path@.subrange(i as int, n as int), cur@)
                == path_segments(path@),
        decreases n - i,
    {
        let c = path.get_char(i);
        let ghost rest = path@.subrange(i as int, n as int);
        assert(rest.drop_first() =~= path@.subrange(i as int + 1, n as int));
        if c == '/' {
            let done = cur;
            cur = String::new();
            keep_segment(&mut out, done);
            assert(strings_view(out@) + segments_from(
                path@.subrange(i as int + 1, n as int),
                cur@,
            ) =~= path_segments(path@));
        } else {
            push_char(&mut cur, c);
        }
        i = i + 1;
    }
    assert(path@.subrange(n as int, n as int) =~= Seq::<char>::empty());
    keep_segment(&mut out, cur);
    assert(strings_view(out@) =~= path_segments(path@));
    out
}

fn find_index(entries: &Vec<TreeEntry>, name: &String) -> (r: Option<usize>)
    ensures
        match r {
            Some(j) => j < entries@.len() && find_entry(entries@, name@) == Some(
                entries@[j as int].node,
            ),
            None => find_entry(entries@, name@) is None,
        },
{
    let mut j: usize = 0;
    assert(entries@.subrange(0, entries@.len() as int) =~= entries@);
    while j < entries.len()
        invariant
            j <= entries@.len(),
            find_entry(entries@, name@) == find_entry(entries@.subrange(j as int, entries@.len() as int), name@),
        decreases entries@.len() - j,
    {
        let ghost rest = entries@.subrange(j as int, entries@.len() as int);
        assert(rest.drop_first() =~= entries@.subrange(j as int + 1, entries@.len() as int));
        if entries[j].name == *name {
            return Some(j);
        }
        j = j + 1;
    }
    None
}

/// Resolves a path of segments in the tree.
pub fn resolve(tree: &TreeNode, path: &Vec<String>) -> (r: Result<Option<ContentHash>, GudError>)
    ensures
        r == resolve_spec(*tree, strings_view(path@)),
{
    let ghost full = strings_view(path@);
    let mut cur: &TreeNode = tree;
    let mut i: usize = 0;
    assert(full.subrange(0, full.len() as int) =~= full);
    loop
        invariant
            i <= path@.len(),
            full == strings_view(path@),
            resolve_spec(*cur, full.subrange(i as int, full.len() as int)) == resolve_spec(*tree, full),
        decreases path@.len() - i,
    {
        let ghost rest = full.subrange(i as int, full.len() as int);
        match cur {
            TreeNode::File(h) => {
                if i == path.len() {
                    return Ok(Some(*h));
                } else {
                    return Err(GudError::CorruptManifest);
                }
            },
            TreeNode::Directory(entries) => {
                if i == path.len() {
                    return Ok(None);
                }
                assert(rest[0] == path@[i as int]@);
                assert(rest.drop_first() =~= full.subrange(i as int + 1, full.len() as int));
                match find_index(entries, &path[i]) {
                    None => {
                        return Ok(None);
                    },
                    Some(j) => {
                        cur = &entries[j].node;
                        i = i + 1;
                    },
                }
            },
        }
    }
}

} // verus!
