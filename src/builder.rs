//! The tree builder: walks a snapshot of the working directory, skipping
//! ignored paths, stores each file's compressed content under its hash, and
//! returns the nested tree of names and hashes.

use vstd::prelude::*;
use crate::compression::{CompressionType, compress, compressed_spec, decompress_spec};
use crate::error::GudError;
use crate::hash::{content_hash, hash_of, xxh3_digest};
use crate::ignore::is_ignored;
use crate::manifest::entries_wf;
use crate::store::{ObjectStore, put_spec};
use crate::tree::{TreeEntry, TreeNode, find_entry, node_at_entries, strings_view};

verus! {

/// What the walk found at one directory entry.
#[derive(Debug)]
pub enum WorkItem {
    /// A regular file and its bytes.
    File(Vec<u8>),
    /// A regular file whose bytes could not be read.
    Unreadable,
    /// A directory and its entries.
    Directory(Vec<WorkEntry>),
    /// Anything else: a symbolic link, a device.
    Other,
}

/// One named entry of a directory in the snapshot.
#[derive(Debug)]
pub struct WorkEntry {
    pub name: String,
    pub item: WorkItem,
}

/// The path of an entry relative to the repository root, given its parent's.
pub open spec fn child_path(parent: Seq<char>, name: Seq<char>) -> Seq<char> {
    if parent.len() == 0 {
        name
    } else {
        parent + seq!['/'] + name
    }
}

/// Whether the builder leaves an entry out of the tree: it is ignored,
/// unreadable, or neither a file nor a directory.
pub open spec fn skipped(w: WorkEntry, parent: Seq<char>, ignore: Seq<Seq<char>>) -> bool {
    ignore.contains(child_path(parent, w.name@)) || w.item is Unreadable || w.item is Other
}

/// Whether `ts` is the tree that the builder makes of the entries `ws` of the
/// directory at `parent`: the kept entries in their order, each file by the
/// hash of its bytes, each directory by the tree of its own entries (empty or not).
pub open spec fn dir_built(
    ws: Seq<WorkEntry>,
    parent: Seq<char>,
    ignore: Seq<Seq<char>>,
    ts: Seq<TreeEntry>,
) -> bool
    decreases ws,
{
    if ws.len() == 0 {
        ts.len() == 0
    } else {
        let w = ws.last();
        if skipped(w, parent, ignore) {
            dir_built(ws.drop_last(), parent, ignore, ts)
        } else {
            &&& ts.len() > 0
            &&& dir_built(ws.drop_last(), parent, ignore, ts.drop_last())
            &&& ts.last().name@ == w.name@
            &&& match w.item {
                WorkItem::File(b) => ts.last().node == TreeNode::File(hash_of(b@)),
                WorkItem::Directory(sub) => match ts.last().node {
                    TreeNode::Directory(es) => dir_built(
                        sub@,
                        child_path(parent, w.name@),
                        ignore,
                        es@,
                    ),
                    TreeNode::File(_) => false,
                },
                _ => false,
            }
        }
    }
}

/// The first kept file, in walk order, for each hash found under a
/// directory: its path relative to the repository root and its content.
pub open spec fn dir_contents(ws: Seq<WorkEntry>, parent: Seq<char>, ignore: Seq<Seq<char>>) -> Map<
    u128,
    (Seq<char>, Seq<u8>),
>
    decreases ws,
{
    if ws.len() == 0 {
        Map::empty()
    } else {
        let w = ws.last();
        let rest = dir_contents(ws.drop_last(), parent, ignore);
        if skipped(w, parent, ignore) {
            rest
        } else {
            match w.item {
                WorkItem::File(b) => if rest.contains_key(xxh3_digest(b@)) {
                    rest
                } else {
                    rest.insert(xxh3_digest(b@), (child_path(parent, w.name@), b@))
                },
                WorkItem::Directory(sub) => dir_contents(
                    sub@,
                    child_path(parent, w.name@),
                    ignore,
                ).union_prefer_right(rest),
                _ => rest,
            }
        }
    }
}

/// Whether `stored` is what the builder stores for the file at `path` with
/// `content`: the content compressed with the chosen algorithm (which
/// decompresses back to it), or, where the LZ4 encoder failed, the content
/// itself, with the path on the log of files stored uncompressed.
pub open spec fn blob_of(
    ct: CompressionType,
    file: (Seq<char>, Seq<u8>),
    stored: Seq<u8>,
    log: Seq<Seq<char>>,
) -> bool {
    ||| stored == compressed_spec(ct, file.1) && decompress_spec(ct, stored) == Ok::<
        Seq<u8>,
        GudError,
    >(file.1)
    ||| ct == CompressionType::Lz4 && stored == file.1 && log.contains(file.0)
}

/// Whether a logged path is that of a file whose content a build stored
/// uncompressed under a new hash.
pub open spec fn logged_raw(
    before: Map<u128, Seq<u8>>,
    after: Map<u128, Seq<u8>>,
    contents: Map<u128, (Seq<char>, Seq<u8>)>,
    ct: CompressionType,
    path: Seq<char>,
) -> bool {
    ct == CompressionType::Lz4 && exists|k: u128|
        #[trigger] after.contains_key(k) && !before.contains_key(k) && contents[k].0 == path
            && after[k] == contents[k].1
}

/// What a build that found the files `contents` does to the store and to the
/// log of files stored uncompressed: the store keeps what it held and gains
/// the blob of each new hash's file; the log gains exactly the paths of the
/// files whose blob went in uncompressed.
pub open spec fn store_grown(
    before: Map<u128, Seq<u8>>,
    after: Map<u128, Seq<u8>>,
    contents: Map<u128, (Seq<char>, Seq<u8>)>,
    ct: CompressionType,
    log_before: Seq<Seq<char>>,
    log_after: Seq<Seq<char>>,
) -> bool {
    &&& after.dom() == before.dom() + contents.dom()
    &&& forall|k: u128| #[trigger] before.contains_key(k) ==> after[k] == before[k]
    &&& forall|k: u128|
        #[trigger] after.contains_key(k) && !before.contains_key(k) ==> blob_of(
            ct,
            contents[k],
            after[k],
            log_after,
        )
    &&& log_before.is_prefix_of(log_after)
    &&& forall|i: int|
        log_before.len() <= i < log_after.len() ==> logged_raw(
            before,
            after,
            contents,
            ct,
            #[trigger] log_after[i],
        )
}

proof fn lemma_find_entry_none(ts: Seq<TreeEntry>, name: Seq<char>)
    requires
        forall|i: int| 0 <= i < ts.len() ==> (#[trigger] ts[i]).name@ != name,
    ensures
        find_entry(ts, name) is None,
    decreases ts.len(),
{
    if ts.len() > 0 {
        assert(ts[0].name@ != name);
        assert forall|i: int| 0 <= i < ts.drop_first().len() implies (#[trigger] ts.drop_first()[i]).name@
            != name by {
            assert(ts.drop_first()[i] == ts[i + 1]);
        }
        lemma_find_entry_none(ts.drop_first(), name);
    }
}

proof fn lemma_ignored_names_absent(
    ws: Seq<WorkEntry>,
    parent: Seq<char>,
    ignore: Seq<Seq<char>>,
    ts: Seq<TreeEntry>,
    name: Seq<char>,
)
    requires
        dir_built(ws, parent, ignore, ts),
        ignore.contains(child_path(parent, name)),
    ensures
        forall|i: int| 0 <= i < ts.len() ==> (#[trigger] ts[i]).name@ != name,
    decreases ws.len(),
{
    if ws.len() > 0 {
        let w = ws.last();
        if skipped(w, parent, ignore) {
            lemma_ignored_names_absent(ws.drop_last(), parent, ignore, ts, name);
        } else {
            lemma_ignored_names_absent(ws.drop_last(), parent, ignore, ts.drop_last(), name);
            assert forall|i: int| 0 <= i < ts.len() implies (#[trigger] ts[i]).name@ != name by {
                if i < ts.len() - 1 {
                    assert(ts[i] == ts.drop_last()[i]);
                }
            }
        }
    }
}

/// An entry whose path is on the ignore list is absent from the tree that
/// the builder makes of its directory, whatever it holds: at the root, no
/// path under it resolves to a tracked file.
pub proof fn lemma_ignored_absent(
    ws: Seq<WorkEntry>,
    parent: Seq<char>,
    ignore: Seq<Seq<char>>,
    ts: Seq<TreeEntry>,
    name: Seq<char>,
)
    requires
        dir_built(ws, parent, ignore, ts),
        ignore.contains(child_path(parent, name)),
    ensures
        find_entry(ts, name) is None,
        forall|path: Seq<Seq<char>>|
            path.len() > 0 && path[0] == name ==> node_at_entries(ts, path) is None,
{
    lemma_ignored_names_absent(ws, parent, ignore, ts, name);
    lemma_find_entry_none(ts, name);
}

/// What an ignored entry holds has no bearing on the blobs that a build
/// stores: replacing it with anything else leaves the stored contents as they are.
pub proof fn lemma_ignored_content_not_stored(
    ws: Seq<WorkEntry>,
    parent: Seq<char>,
    ignore: Seq<Seq<char>>,
    i: int,
    other: WorkItem,
)
    requires
        0 <= i < ws.len(),
        ignore.contains(child_path(parent, ws[i].name@)),
    ensures
        dir_contents(ws.update(i, WorkEntry { name: ws[i].name, item: other }), parent, ignore)
            == dir_contents(ws, parent, ignore),
    decreases ws.len(),
{
    let vs = ws.update(i, WorkEntry { name: ws[i].name, item: other });
    if i == ws.len() - 1 {
        assert(vs.drop_last() =~= ws.drop_last());
    } else {
        lemma_ignored_content_not_stored(ws.drop_last(), parent, ignore, i, other);
        assert(vs.drop_last() =~= ws.drop_last().update(
            i,
            WorkEntry { name: ws[i].name, item: other },
        ));
        assert(vs.last() == ws.last());
    }
}

/// Whether a snapshot is a well-formed directory nested at most `depth`
/// deep: names are distinct within every directory, as a file system has them.
pub open spec fn snapshot_wf(ws: Seq<WorkEntry>, depth: nat) -> bool
    decreases depth,
{
    &&& depth > 0
    &&& forall|i: int, j: int| 0 <= i < j < ws.len() ==> ws[i].name@ != ws[j].name@
    &&& forall|i: int|
        0 <= i < ws.len() ==> ((#[trigger] ws[i]).item matches WorkItem::Directory(sub)
            ==> snapshot_wf(sub@, (depth - 1) as nat))
}

proof fn lemma_built_names(
    ws: Seq<WorkEntry>,
    parent: Seq<char>,
    ignore: Seq<Seq<char>>,
    ts: Seq<TreeEntry>,
)
    requires
        dir_built(ws, parent, ignore, ts),
    ensures
        forall|j: int|
            0 <= j < ts.len() ==> exists|k: int| 0 <= k < ws.len() && ws[k].name@ == (
            #[trigger] ts[j]).name@,
    decreases ws.len(),
{
    if ws.len() > 0 {
        let w = ws.last();
        let rest = ws.drop_last();
        if skipped(w, parent, ignore) {
            lemma_built_names(rest, parent, ignore, ts);
            assert forall|j: int| 0 <= j < ts.len() implies exists|k: int|
                0 <= k < ws.len() && ws[k].name@ == (#[trigger] ts[j]).name@ by {
                let k = choose|k: int| 0 <= k < rest.len() && rest[k].name@ == ts[j].name@;
                assert(ws[k] == rest[k]);
            }
        } else {
            lemma_built_names(rest, parent, ignore, ts.drop_last());
            assert forall|j: int| 0 <= j < ts.len() implies exists|k: int|
                0 <= k < ws.len() && ws[k].name@ == (#[trigger] ts[j]).name@ by {
                if j == ts.len() - 1 {
                    assert(ws[ws.len() - 1].name@ == ts[j].name@);
                } else {
                    assert(ts.drop_last()[j] == ts[j]);
                    let k = choose|k: int|
                        0 <= k < rest.len() && rest[k].name@ == ts.drop_last()[j].name@;
                    assert(ws[k] == rest[k]);
                }
            }
        }
    }
}

/// The builder makes a well-formed tree of a well-formed snapshot: names stay
/// distinct within every directory, and nesting does not grow.
pub proof fn lemma_built_wf(
    ws: Seq<WorkEntry>,
    parent: Seq<char>,
    ignore: Seq<Seq<char>>,
    ts: Seq<TreeEntry>,
    depth: nat,
)
    requires
        dir_built(ws, parent, ignore, ts),
        snapshot_wf(ws, depth),
    ensures
        entries_wf(ts, depth),
    decreases ws,
{
    if ws.len() > 0 {
        let w = ws.last();
        let rest = ws.drop_last();
        assert(snapshot_wf(rest, depth)) by {
            assert forall|i: int| 0 <= i < rest.len() implies ((#[trigger] rest[i]).item matches WorkItem::Directory(sub)
                ==> snapshot_wf(sub@, (depth - 1) as nat)) by {
                assert(rest[i] == ws[i]);
            }
            assert forall|i: int, j: int| 0 <= i < j < rest.len() implies rest[i].name@ != rest[j].name@ by {
                assert(rest[i] == ws[i]);
                assert(rest[j] == ws[j]);
            }
        }
        if skipped(w, parent, ignore) {
            lemma_built_wf(rest, parent, ignore, ts, depth);
        } else {
            let init = ts.drop_last();
            lemma_built_wf(rest, parent, ignore, init, depth);
            lemma_built_names(rest, parent, ignore, init);
            let last = ts.last();
            if let WorkItem::Directory(sub) = w.item {
                assert(ws[ws.len() - 1] == w);
                if let TreeNode::Directory(es) = last.node {
                    assert(decreases_to!(ws => sub@)) by {
                        assert(decreases_to!(ws => ws[ws.len() - 1]));
                    }
                    lemma_built_wf(sub@, child_path(parent, w.name@), ignore, es@, (depth - 1) as nat);
                }
            }
            assert forall|i: int, j: int| 0 <= i < j < ts.len() implies ts[i].name@ != ts[j].name@ by {
                assert(ts[i] == init[i]);
                if j < ts.len() - 1 {
                    assert(ts[j] == init[j]);
                } else {
                    let k = choose|k: int| 0 <= k < rest.len() && rest[k].name@ == (#[trigger] init[i]).name@;
                    assert(ws[k] == rest[k]);
                    assert(ws[ws.len() - 1].name@ == ts[j].name@);
                }
            }
            assert forall|i: int| 0 <= i < ts.len() implies ((#[trigger] ts[i]).node matches TreeNode::Directory(sub)
                ==> entries_wf(sub@, (depth - 1) as nat)) by {
                if i < ts.len() - 1 {
                    assert(ts[i] == init[i]);
                }
            }
        }
    }
}

/// Compresses content for storing; where the LZ4 encoder fails, the content
/// is kept as it is and the second result is `true`.
pub fn compress_or_raw(ct: CompressionType, bytes: &[u8]) -> (r: (Vec<u8>, bool))
    ensures
        !r.1 ==> r.0@ == compressed_spec(ct, bytes@) && decompress_spec(ct, r.0@) == Ok::<
            Seq<u8>,
            GudError,
        >(bytes@),
        r.1 ==> ct == CompressionType::Lz4 && r.0@ == bytes@,
{
    match compress(ct, bytes) {
        Ok(c) => (c, false),
        Err(_) => {
            let mut raw: Vec<u8> = Vec::new();
            raw.extend_from_slice(bytes);
            (raw, true)
        },
    }
}

proof fn lemma_store_grown_trans(
    m0: Map<u128, Seq<u8>>,
    m1: Map<u128, Seq<u8>>,
    m2: Map<u128, Seq<u8>>,
    c1: Map<u128, (Seq<char>, Seq<u8>)>,
    c2: Map<u128, (Seq<char>, Seq<u8>)>,
    ct: CompressionType,
    l0: Seq<Seq<char>>,
    l1: Seq<Seq<char>>,
    l2: Seq<Seq<char>>,
)
    requires
        store_grown(m0, m1, c1, ct, l0, l1),
        store_grown(m1, m2, c2, ct, l1, l2),
    ensures
        store_grown(m0, m2, c2.union_prefer_right(c1), ct, l0, l2),
{
    let c = c2.union_prefer_right(c1);
    assert(m2.dom() =~= m0.dom() + c.dom());
    assert forall|k: u128| #[trigger] m0.contains_key(k) implies m2[k] == m0[k] by {
        assert(m1.dom().contains(k));
    }
    assert forall|k: u128| #[trigger] m2.contains_key(k) && !m0.contains_key(k) implies blob_of(
        ct,
        c[k],
        m2[k],
        l2,
    ) by {
        if m1.contains_key(k) {
            assert(m2[k] == m1[k]);
            assert(c1.contains_key(k));
            if !blob_of(ct, c1[k], m1[k], l2) {
                let j = choose|j: int| 0 <= j < l1.len() && l1[j] == c1[k].0;
                assert(l2[j] == l1[j]);
            }
        } else {
            assert(!c1.contains_key(k));
        }
    }
    assert(l0.is_prefix_of(l2));
    assert forall|i: int| l0.len() <= i < l2.len() implies logged_raw(
        m0,
        m2,
        c,
        ct,
        #[trigger] l2[i],
    ) by {
        if i < l1.len() {
            assert(l2[i] == l1[i]);
            assert(logged_raw(m0, m1, c1, ct, l1[i]));
            let k = choose|k: u128|
                #[trigger] m1.contains_key(k) && !m0.contains_key(k) && c1[k].0 == l1[i] && m1[k]
                    == c1[k].1;
            assert(m2.contains_key(k) && m2[k] == m1[k] && c[k] == c1[k]);
        } else {
            assert(logged_raw(m1, m2, c2, ct, l2[i]));
            let k = choose|k: u128|
                #[trigger] m2.contains_key(k) && !m1.contains_key(k) && c2[k].0 == l2[i] && m2[k]
                    == c2[k].1;
            assert(!c1.contains_key(k));
            assert(!m0.contains_key(k));
            assert(c[k] == c2[k]);
        }
    }
}

fn child_path_exec(parent: &String, name: &String) -> (r: String)
    ensures
        r@ == child_path(parent@, name@),
{
    if parent.unicode_len() == 0 {
        name.clone()
    } else {
        let mut r = parent.clone();
        r.append("/");
        proof {
            reveal_strlit("/");
        }
        r.append(name.as_str());
        assert(r@ =~= child_path(parent@, name@));
        r
    }
}

fn build_dir(
    entries: &Vec<WorkEntry>,
    parent: &String,
    ignore: &Vec<String>,
    ct: CompressionType,
    store: &mut ObjectStore,
    stored_raw: &mut Vec<String>,
) -> (r: Vec<TreeEntry>)
    requires
        old(store).wf(),
    ensures
        final(store).wf(),
        dir_built(entries@, parent@, strings_view(ignore@), r@),
        store_grown(
            old(store)@,
            final(store)@,
            dir_contents(entries@, parent@, strings_view(ignore@)),
            ct,
            strings_view(old(stored_raw)@),
            strings_view(final(stored_raw)@),
        ),
    decreases entries@,
{
    let ghost ign = strings_view(ignore@);
    let mut out: Vec<TreeEntry> = Vec::new();
    let mut i: usize = 0;
    assert(entries@.take(0) =~= Seq::<WorkEntry>::empty());
    assert(store@.dom() =~= store@.dom() + Map::<u128, (Seq<char>, Seq<u8>)>::empty().dom());
    assert(strings_view(stored_raw@).is_prefix_of(strings_view(stored_raw@)));
    while i < entries.len()
        invariant
            i <= entries@.len(),
            ign == strings_view(ignore@),
            store.wf(),
            dir_built(entries@.take(i as int), parent@, ign, out@),
            store_grown(
                old(store)@,
                store@,
                dir_contents(entries@.take(i as int), parent@, ign),
                ct,
                strings_view(old(stored_raw)@),
                strings_view(stored_raw@),
            ),
        decreases entries@.len() - i,
    {
        let w = &entries[i];
        let ghost before = store@;
        let ghost done = entries@.take(i as int);
        let ghost next = entries@.take(i as int + 1);
        assert(next.drop_last() =~= done);
        assert(next.last() == *w);
        let path = child_path_exec(parent, &w.name);
        if is_ignored(ignore, path.as_str()) {
            assert(skipped(*w, parent@, ign));
        } else {
            match &w.item {
                WorkItem::File(bytes) => {
                    let h = content_hash(bytes.as_slice());
                    let (stored, raw) = compress_or_raw(ct, bytes.as_slice());
                    let ghost blob = stored@;
                    let ghost log_before = strings_view(stored_raw@);
                    let ghost path_view = path@;
                    let written = store.put(h, stored);
                    if raw && written {
                        stored_raw.push(path);
                        assert(strings_view(stored_raw@) =~= log_before.push(path_view));
                    }
                    proof {
                        let one = map![h.value => (path_view, bytes@)];
                        let log_after = strings_view(stored_raw@);
                        assert(log_before.is_prefix_of(log_after));
                        if raw && written {
                            assert(log_after[log_after.len() - 1] == path_view);
                            assert(!before.contains_key(h.value));
                            assert(store@.contains_key(h.value));
                            assert(store@[h.value] == blob);
                            assert(blob == bytes@);
                            assert(one[h.value] == (path_view, bytes@));
                            assert(logged_raw(before, store@, one, ct, path_view));
                        } else {
                            assert(log_after =~= log_before);
                        }
                        if !before.contains_key(h.value) {
                            if raw {
                                assert(log_after.contains(path_view)) by {
                                    assert(log_after[log_after.len() - 1] == path_view);
                                }
                            }
                            assert(blob_of(ct, one[h.value], blob, log_after));
                        }
                        assert(store_grown(before, store@, one, ct, log_before, log_after)) by {
                            assert(store@.dom() =~= before.dom() + one.dom());
                        }
                        lemma_store_grown_trans(
                            old(store)@,
                            before,
                            store@,
                            dir_contents(done, parent@, ign),
                            one,
                            ct,
                            strings_view(old(stored_raw)@),
                            log_before,
                            log_after,
                        );
                        assert(dir_contents(next, parent@, ign) =~= one.union_prefer_right(
                            dir_contents(done, parent@, ign),
                        ));
                    }
                    let ghost out_before = out@;
                    out.push(TreeEntry { name: w.name.clone(), node: TreeNode::File(h) });
                    assert(out@.drop_last() =~= out_before);
                },
                WorkItem::Directory(sub) => {
                    let ghost log_before = strings_view(stored_raw@);
                    let children = build_dir(sub, &path, ignore, ct, store, stored_raw);
                    proof {
                        lemma_store_grown_trans(
                            old(store)@,
                            before,
                            store@,
                            dir_contents(done, parent@, ign),
                            dir_contents(sub@, path@, ign),
                            ct,
                            strings_view(old(stored_raw)@),
                            log_before,
                            strings_view(stored_raw@),
                        );
                    }
                    let ghost out_before = out@;
                    out.push(TreeEntry { name: w.name.clone(), node: TreeNode::Directory(children) });
                    assert(out@.drop_last() =~= out_before);
                },
                _ => {},
            }
        }
        i = i + 1;
    }
    assert(entries@.take(entries@.len() as int) =~= entries@);
    out
}

/// Builds the tree of a working-directory snapshot taken at the repository
/// root. Ignored entries are left out with their subtrees; each kept file's
/// content is compressed and stored under its hash unless the store holds
/// that hash already. The path of each file whose content went into the
/// store uncompressed, because the LZ4 encoder failed on it, is appended to
/// `stored_raw`, and no other path is.
pub fn build(
    root: &Vec<WorkEntry>,
    ignore: &Vec<String>,
    ct: CompressionType,
    store: &mut ObjectStore,
    stored_raw: &mut Vec<String>,
) -> (r: TreeNode)
    requires
        old(store).wf(),
    ensures
        final(store).wf(),
        r matches TreeNode::Directory(es) && dir_built(
            root@,
            Seq::<char>::empty(),
            strings_view(ignore@),
            es@,
        ),
        store_grown(
            old(store)@,
            final(store)@,
            dir_contents(root@, Seq::<char>::empty(), strings_view(ignore@)),
            ct,
            strings_view(old(stored_raw)@),
            strings_view(final(stored_raw)@),
        ),
{
    let top = String::new();
    TreeNode::Directory(build_dir(root, &top, ignore, ct, store, stored_raw))
}

} // verus!
