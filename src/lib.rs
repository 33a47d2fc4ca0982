//! A content-addressed package manager core: hashes and their text form,
//! resource formats, package manifests and lock files, the resolver's
//! decisions, the runtime's load order, and the pure parts of the runtime's
//! capability namespaces (paths, sync, encodings, compression).


pub mod hash;
pub mod text;
pub mod archive;
pub mod format;
pub mod document;
pub mod lock_file;
pub mod manifest;
pub mod url;
pub mod resolver;
pub mod compression;
pub mod engine;
pub mod paths;
pub mod sync;
pub mod downloader;
pub mod store;
pub mod hash_algorithm;
pub mod encoding;
pub mod buffer;
pub mod context;
pub mod extraction;
pub mod listing;

