//! `init`: records a working directory as the repository's manifest and fills
//! the object store with its files.

use vstd::prelude::*;
use crate::builder::{
    WorkEntry, build, dir_built, dir_contents, lemma_built_wf, snapshot_wf, store_grown,
};
use crate::cli::{Flags, opt_view};
use crate::compression::CompressionType;
use crate::error::GudError;
use crate::manifest::{MAX_TREE_DEPTH, Manifest, manifest_wf};
use crate::store::ObjectStore;
use crate::text::str_eq;
use crate::tree::{TreeNode, strings_view};

verus! {

/// The compression that the `--compression` flag selects: LZ4 for `lz4`,
/// deflate otherwise.
pub open spec fn chosen_compression(flag: Option<Seq<char>>) -> CompressionType {
    if flag == Some("lz4"@) {
        CompressionType::Lz4
    } else {
        CompressionType::Zlib
    }
}

/// An `init` run, configured.
#[derive(Debug)]
pub struct InitAction {
    /// Relative paths left out of the tree, with their subtrees.
    pub ignore: Vec<String>,
    pub compression_type: CompressionType,
    pub flags: Flags,
}

impl InitAction {
    /// Configures `init` from the ignore list and the command's flags.
    pub fn new(ignore: Vec<String>, flags: Flags) -> (r: InitAction)
        ensures
            r.compression_type == chosen_compression(opt_view(flags.compression)),
            r.ignore == ignore,
            r.flags == flags,
    {
        let mut compression_type = CompressionType::Zlib;
        match &flags.compression {
            Some(val) => {
                if str_eq(val.as_str(), "lz4") {
                    compression_type = CompressionType::Lz4;
                }
            },
            None => {},
        }
        InitAction { ignore, compression_type, flags }
    }

    /// Builds the manifest of a snapshot of the working directory, storing
    /// the files' contents in `store`. Without a repository name nothing is
    /// stored and `MissingArgument` is returned.
    pub fn run(
        &self,
        root: &Vec<WorkEntry>,
        store: &mut ObjectStore,
        stored_raw: &mut Vec<String>,
    ) -> (r: Result<Manifest, GudError>)
        requires
            old(store).wf(),
        ensures
            final(store).wf(),
            self.flags.name is None ==> r == Err::<Manifest, GudError>(GudError::MissingArgument)
                && final(store)@ == old(store)@,
            self.flags.name is Some ==> r is Ok,
            self.flags.name is None ==> final(stored_raw)@ == old(stored_raw)@,
            r matches Ok(m) ==> (snapshot_wf(root@, MAX_TREE_DEPTH as nat) ==> manifest_wf(m)),
            r matches Ok(m) ==> {
                &&& opt_view(self.flags.name) == Some(m.repository_name@)
                &&& m.compression == self.compression_type
                &&& m.tree matches TreeNode::Directory(es) && dir_built(
                    root@,
                    Seq::<char>::empty(),
                    strings_view(self.ignore@),
                    es@,
                )
                &&& store_grown(
                    old(store)@,
                    final(store)@,
                    dir_contents(root@, Seq::<char>::empty(), strings_view(self.ignore@)),
                    self.compression_type,
                    strings_view(old(stored_raw)@),
                    strings_view(final(stored_raw)@),
                )
            },
    {
        let name = match &self.flags.name {
            Some(n) => n.clone(),
            None => {
                return Err(GudError::MissingArgument);
            },
        };
        let tree = build(root, &self.ignore, self.compression_type, store, stored_raw);
        proof {
            if snapshot_wf(root@, MAX_TREE_DEPTH as nat) {
                let es = tree->Directory_0;
                lemma_built_wf(
                    root@,
                    Seq::<char>::empty(),
                    strings_view(self.ignore@),
                    es@,
                    MAX_TREE_DEPTH as nat,
                );
            }
        }
        Ok(Manifest { tree, repository_name: name, compression: self.compression_type })
    }
}

} // verus!
