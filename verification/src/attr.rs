//! The attributes of files and directories.
//!
//! A file takes its size and its times from the metadata of its object. A
//! directory is no object: its attributes are made up on demand, with the
//! time at which they are asked for.

use vstd::prelude::*;
use std::time::SystemTime;
use crate::cos_client::{ObjectMeta, ObjectMetaView};
use crate::listing::FileKind;

verus! {

/// The permission bits of every file.
pub const FILE_PERM: u16 = 0o644;

/// The permission bits of every directory.
pub const DIR_PERM: u16 = 0o755;

/// The user that owns every entry.
pub const OWNER_UID: u32 = 501;

/// The group that owns every entry.
pub const OWNER_GID: u32 = 20;

/// The preferred size of a block for input and output.
pub const BLOCK_SIZE: u32 = 4096;

/// The attributes of one entry of the file system.
#[derive(Debug, Clone, Copy)]
pub struct FileAttr {
    pub ino: u64,
    pub size: u64,
    pub blocks: u64,
    pub atime: SystemTime,
    pub mtime: SystemTime,
    pub ctime: SystemTime,
    pub crtime: SystemTime,
    pub kind: FileKind,
    pub perm: u16,
    pub nlink: u32,
    pub uid: u32,
    pub gid: u32,
    pub rdev: u32,
    pub blksize: u32,
    pub flags: u32,
}

/// The attributes of the file `ino` whose object has the metadata `meta`: the
/// object's size, in bytes and in blocks of 512 bytes, rounded up, and the
/// object's time of modification for each of the four times.
pub open spec fn file_attr(meta: ObjectMetaView, ino: u64) -> FileAttr {
    FileAttr {
        ino,
        size: meta.size,
        blocks: ((meta.size + 511) / 512) as u64,
        atime: meta.last_modified,
        mtime: meta.last_modified,
        ctime: meta.last_modified,
        crtime: meta.last_modified,
        kind: FileKind::File,
        perm: FILE_PERM,
        nlink: 1,
        uid: OWNER_UID,
        gid: OWNER_GID,
        rdev: 0,
        blksize: BLOCK_SIZE,
        flags: 0,
    }
}

/// The attributes of the directory `ino` at the time `now`: no size, two
/// links, and `now` for each of the four times.
pub open spec fn dir_attr(ino: u64, now: SystemTime) -> FileAttr {
    FileAttr {
        ino,
        size: 0,
        blocks: 0,
        atime: now,
        mtime: now,
        ctime: now,
        crtime: now,
        kind: FileKind::Directory,
        perm: DIR_PERM,
        nlink: 2,
        uid: OWNER_UID,
        gid: OWNER_GID,
        rdev: 0,
        blksize: BLOCK_SIZE,
        flags: 0,
    }
}

/// `attr` holds the attributes of the directory `ino`, at whatever time.
pub open spec fn is_dir_attr(attr: FileAttr, ino: u64) -> bool {
    attr == dir_attr(ino, attr.atime)
}

/// The attributes of the file `ino` whose object has the metadata `meta`.
pub fn file_attr_of(meta: &ObjectMeta, ino: u64) -> (attr: FileAttr)
    ensures
        attr == file_attr(meta@, ino),
{
    let size = meta.size;
    let blocks: u64 = if size % 512 == 0 {
        size / 512
    } else {
        size / 512 + 1
    };
    FileAttr {
        ino,
        size,
        blocks,
        atime: meta.last_modified,
        mtime: meta.last_modified,
        ctime: meta.last_modified,
        crtime: meta.last_modified,
        kind: FileKind::File,
        perm: FILE_PERM,
        nlink: 1,
        uid: OWNER_UID,
        gid: OWNER_GID,
        rdev: 0,
        blksize: BLOCK_SIZE,
        flags: 0,
    }
}

/// The attributes of the directory `ino` at the time `now`.
pub fn dir_attr_at(ino: u64, now: SystemTime) -> (attr: FileAttr)
    ensures
        attr == dir_attr(ino, now),
{
    FileAttr {
        ino,
        size: 0,
        blocks: 0,
        atime: now,
        mtime: now,
        ctime: now,
        crtime: now,
        kind: FileKind::Directory,
        perm: DIR_PERM,
        nlink: 2,
        uid: OWNER_UID,
        gid: OWNER_GID,
        rdev: 0,
        blksize: BLOCK_SIZE,
        flags: 0,
    }
}

} // verus!
