//! Core of a small version-control tool: content hashes, pluggable
//! compression, a content-addressed object store, the manifest tree that maps
//! a working directory onto stored blobs, and change detection for one file.

pub mod text;
pub mod hash;
pub mod error;
pub mod compression;
pub mod tree;
pub mod store;
pub mod ignore;
pub mod builder;
pub mod manifest;
pub mod cli;
pub mod init;
pub mod diff;
