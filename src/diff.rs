//! `diff`: finds the hash recorded for a working file, compares it with the
//! hash of the file's current bytes, and on a change recovers the recorded
//! content from the object store.

use vstd::prelude::*;
use crate::cli::Flags;
use crate::compression::{CompressionType, decompress, decompress_spec};
use crate::error::GudError;
use crate::hash::{ContentHash, content_hash, hash_of};
use crate::manifest::Manifest;
use crate::store::ObjectStore;
use crate::tree::{TreeNode, path_segments, resolve, resolve_spec, split_path, strings_view};

verus! {

/// What became of a working file since `init`.
#[derive(Clone, Copy, Debug, PartialEq, Eq, Structural)]
pub enum Detection {
    Unchanged,
    /// The content differs from the recorded one, which has this hash.
    Changed { original: ContentHash },
    /// The path is not tracked.
    New,
}

/// The outcome of `diff` on one file.
#[derive(Debug)]
pub enum DiffResult {
    NoChanges,
    Untracked,
    /// Both contents, for a line diff to compare.
    Changed { original_hash: ContentHash, original: Vec<u8>, current: Vec<u8> },
}

pub open spec fn bytes_view(live: Option<Vec<u8>>) -> Option<Seq<u8>> {
    match live {
        Some(b) => Some(b@),
        None => None,
    }
}

/// Change detection: the path is resolved first (a corrupt tree is reported
/// as such); a working file that is gone is `WorkingFileMissing`; an
/// untracked path is `New`; otherwise the hashes are compared.
pub open spec fn detect_spec(tree: TreeNode, path: Seq<Seq<char>>, live: Option<Seq<u8>>) -> Result<
    Detection,
    GudError,
> {
    match resolve_spec(tree, path) {
        Err(e) => Err(e),
        Ok(recorded) => match live {
            None => Err(GudError::WorkingFileMissing),
            Some(b) => match recorded {
                None => Ok(Detection::New),
                Some(h) => if hash_of(b) == h {
                    Ok(Detection::Unchanged)
                } else {
                    Ok(Detection::Changed { original: h })
                },
            },
        },
    }
}

/// Decides what became of a working file; `live` holds its current bytes,
/// or nothing where it is gone from disk.
pub fn detect(tree: &TreeNode, path: &Vec<String>, live: &Option<Vec<u8>>) -> (r: Result<
    Detection,
    GudError,
>)
    ensures
        r == detect_spec(*tree, strings_view(path@), bytes_view(*live)),
{
    let recorded = match resolve(tree, path) {
        Ok(x) => x,
        Err(e) => {
            return Err(e);
        },
    };
    match live {
        None => Err(GudError::WorkingFileMissing),
        Some(bytes) => match recorded {
            None => Ok(Detection::New),
            Some(h) => {
                let current = content_hash(bytes.as_slice());
                if current.value == h.value {
                    Ok(Detection::Unchanged)
                } else {
                    Ok(Detection::Changed { original: h })
                }
            },
        },
    }
}

/// Recovers recorded content from what the store holds under its hash:
/// nothing gives `ObjectNotFound`, bytes that do not decompress give
/// `CorruptObject`.
pub fn materialize_original(ct: CompressionType, stored: Option<Vec<u8>>) -> (r: Result<
    Vec<u8>,
    GudError,
>)
    ensures
        stored is None ==> r == Err::<Vec<u8>, GudError>(GudError::ObjectNotFound),
        stored matches Some(c) ==> match r {
            Ok(v) => decompress_spec(ct, c@) == Ok::<Seq<u8>, GudError>(v@),
            Err(e) => decompress_spec(ct, c@) == Err::<Seq<u8>, GudError>(e),
        },
{
    match stored {
        None => Err(GudError::ObjectNotFound),
        Some(c) => decompress(ct, c.as_slice()),
    }
}

/// A `diff` run, configured from a loaded manifest.
#[derive(Debug)]
pub struct DiffAction {
    pub compression_type: CompressionType,
    /// The file as given, relative to the current directory.
    pub filename: String,
    /// The directories from the repository root down to the current directory.
    pub root_path: Vec<String>,
    pub manifest: Manifest,
}

impl DiffAction {
    /// Configures `diff` for the file named by the flags; without a name
    /// gives `MissingArgument`. The compression is the manifest's.
    pub fn new(flags: &Flags, root_path: Vec<String>, manifest: Manifest) -> (r: Result<
        DiffAction,
        GudError,
    >)
        ensures
            flags.name is None ==> r == Err::<DiffAction, GudError>(GudError::MissingArgument),
            flags.name matches Some(n) ==> r matches Ok(a) && a.filename@ == n@
                && a.root_path == root_path && a.manifest == manifest && a.compression_type
                == manifest.compression,
    {
        match &flags.name {
            Some(n) => {
                let compression_type = manifest.compression;
                Ok(DiffAction { compression_type, filename: n.clone(), root_path, manifest })
            },
            None => Err(GudError::MissingArgument),
        }
    }

    /// The path of the file in the tree: the directories down to the current
    /// one, then the segments of the file name.
    pub open spec fn path_spec(&self) -> Seq<Seq<char>> {
        strings_view(self.root_path@) + path_segments(self.filename@)
    }

    /// The path of the file in the tree.
    pub fn tracked_path(&self) -> (r: Vec<String>)
        ensures
            strings_view(r@) == self.path_spec(),
    {
        let mut r: Vec<String> = Vec::new();
        let mut i: usize = 0;
        while i < self.root_path.len()
            invariant
                i <= self.root_path@.len(),
                strings_view(r@) == strings_view(self.root_path@).take(i as int),
            decreases self.root_path@.len() - i,
        {
            let ghost before = r@;
            r.push(self.root_path[i].clone());
            assert(r@.drop_last() == before);
            assert(strings_view(r@).drop_last() =~= strings_view(before));
            assert(strings_view(r@).last() == strings_view(self.root_path@)[i as int]);
            assert(strings_view(r@) =~= strings_view(self.root_path@).take(i as int + 1));
            i = i + 1;
        }
        let mut segments = split_path(self.filename.as_str());
        let ghost head = strings_view(r@);
        let ghost tail = strings_view(segments@);
        r.append(&mut segments);
        assert(strings_view(r@) =~= head + tail);
        assert(strings_view(self.root_path@).take(self.root_path@.len() as int) =~= strings_view(
            self.root_path@,
        ));
        r
    }

    /// What became of the file, given its current bytes (nothing where it is
    /// gone from disk).
    pub fn detect(&self, live: &Option<Vec<u8>>) -> (r: Result<Detection, GudError>)
        ensures
            r == detect_spec(self.manifest.tree, self.path_spec(), bytes_view(*live)),
    {
        let path = self.tracked_path();
        detect(&self.manifest.tree, &path, live)
    }

    /// Runs `diff` against the blobs of `store`: no differences, untracked,
    /// or both contents of a changed file.
    pub fn run(&self, live: Option<Vec<u8>>, store: &ObjectStore) -> (r: Result<DiffResult, GudError>)
        ensures
            match detect_spec(self.manifest.tree, self.path_spec(), bytes_view(live)) {
                Err(e) => r == Err::<DiffResult, GudError>(e),
                Ok(Detection::Unchanged) => r matches Ok(DiffResult::NoChanges),
                Ok(Detection::New) => r matches Ok(DiffResult::Untracked),
                Ok(Detection::Changed { original: h }) => {
                    &&& !store@.contains_key(h.value) ==> r == Err::<DiffResult, GudError>(
                        GudError::ObjectNotFound,
                    )
                    &&& store@.contains_key(h.value) ==> match r {
                        Ok(DiffResult::Changed { original_hash, original, current }) => {
                            &&& original_hash == h
                            &&& decompress_spec(self.compression_type, store@[h.value]) == Ok::<
                                Seq<u8>,
                                GudError,
                            >(original@)
                            &&& bytes_view(live) == Some(current@)
                        },
                        Ok(_) => false,
                        Err(e) => decompress_spec(self.compression_type, store@[h.value]) == Err::<
                            Seq<u8>,
                            GudError,
                        >(e),
                    }
                },
            },
    {
        let detection = match self.detect(&live) {
            Ok(d) => d,
            Err(e) => {
                return Err(e);
            },
        };
        match detection {
            Detection::Unchanged => Ok(DiffResult::NoChanges),
            Detection::New => Ok(DiffResult::Untracked),
            Detection::Changed { original: h } => {
                let stored = match store.get(&h) {
                    Ok(c) => Some(c),
                    Err(_) => None,
                };
                let original = match materialize_original(self.compression_type, stored) {
                    Ok(v) => v,
                    Err(e) => {
                        return Err(e);
                    },
                };
                match live {
                    Some(current) => Ok(DiffResult::Changed { original_hash: h, original, current }),
                    None => Err(GudError::WorkingFileMissing),
                }
            },
        }
    }
}

} // verus!
