//! Plain-value records exchanged with the transport: the per-inode
//! attribute record, the filesystem-object kinds, the errors a handler can
//! reply with, and the statfs usage report.

use vstd::prelude::*;

verus! {

/// The kind of a filesystem object. The store holds no other kind.
#[derive(Clone, Copy, PartialEq, Eq, Structural, Debug)]
pub enum FileKind {
    Directory,
    RegularFile,
}

/// The attribute record of one inode. Timestamps are whole seconds since
/// the epoch. For a regular file, `size` is the length of the stored
/// ciphertext blob (nonce and tag included), not of the plaintext.
#[derive(Clone, Copy, PartialEq, Eq, Structural, Debug)]
pub struct InodeAttr {
    pub ino: u64,
    pub size: u64,
    pub blocks: u64,
    pub atime: u64,
    pub mtime: u64,
    pub ctime: u64,
    pub crtime: u64,
    pub kind: FileKind,
    pub perm: u16,
    pub nlink: u32,
    pub uid: u32,
    pub gid: u32,
    pub rdev: u32,
    pub flags: u32,
    pub blksize: u32,
}

/// The error a handler replies with; the transport maps each onto the
/// POSIX errno of the same meaning.
#[derive(Clone, Copy, PartialEq, Eq, Structural, Debug)]
pub enum FsError {
    /// Unknown inode or name: `ENOENT`.
    NotFound,
    /// A directory operation aimed at a non-directory: `ENOTDIR`.
    NotDirectory,
    /// A create or mkdir name collision: `EEXIST`.
    AlreadyExists,
    /// A setattr by someone other than the owner: `EPERM`.
    PermissionDenied,
    /// A stored blob that would not decrypt, or encryption refused: `EIO`.
    IoError,
}

/// One row of a readdir reply: the child, its resumption cookie (the
/// 1-based absolute index of the row), its kind, and its name.
#[derive(Debug)]
pub struct ReadDirRow {
    pub ino: u64,
    pub cookie: u64,
    pub kind: FileKind,
    pub name: Vec<u8>,
}

/// The statfs usage report.
#[derive(Clone, Copy, PartialEq, Eq, Structural, Debug)]
pub struct StatfsReply {
    pub blocks: u64,
    pub bfree: u64,
    pub bavail: u64,
    pub files: u64,
    pub ffree: u64,
    pub bsize: u32,
    pub namelen: u32,
    pub frsize: u32,
}

} // verus!
