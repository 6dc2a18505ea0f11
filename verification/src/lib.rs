//! A read-only file system over a flat object store.
//!
//! The store knows keys and blobs, nothing else. This library derives the
//! directory tree that the keys imply, keeps the table of inode identifiers,
//! caches object metadata, and decides what each file-system operation
//! answers. It performs no input or output itself: a caller fetches from the
//! store and hands the results in.

pub mod text;
pub mod namespace;
pub mod inode;
pub mod listing;
pub mod cos_client;
pub mod cache;
pub mod attr;
pub mod filesystem;
