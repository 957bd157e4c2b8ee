use vstd::prelude::*;

verus! {

/// A point in time: whole seconds since the epoch and the nanoseconds past them.
#[derive(Clone, Copy, Debug, PartialEq, Eq, Structural)]
pub struct Timestamp {
    pub sec: i64,
    pub nsec: i32,
}

impl Timestamp {
    /// Nanoseconds stay within one second.
    pub open spec fn valid(self) -> bool {
        0 <= self.nsec < 1_000_000_000
    }

    /// Builds a timestamp from its two parts.
    pub fn new(sec: i64, nsec: i32) -> (t: Timestamp)
        ensures
            t.sec == sec,
            t.nsec == nsec,
    {
        Timestamp { sec, nsec }
    }
}

/// The kinds of inode the file system makes.
#[derive(Clone, Copy, Debug, PartialEq, Eq, Structural)]
pub enum FileKind {
    Directory,
    RegularFile,
}

/// The attributes of an inode, as a mount reports them.
#[derive(Clone, Copy, Debug, PartialEq, Eq, Structural)]
pub struct Attr {
    pub ino: u64,
    pub size: u64,
    pub blocks: u64,
    pub atime: Timestamp,
    pub mtime: Timestamp,
    pub ctime: Timestamp,
    pub crtime: Timestamp,
    pub kind: FileKind,
    pub perm: u16,
    pub nlink: u32,
    pub uid: u32,
    pub gid: u32,
    pub rdev: u32,
    pub flags: u32,
}

/// The permission bits of every inode the file system makes.
pub const DEFAULT_PERM: u16 = 0o755;

/// The attributes of an inode just made: size zero, every time `ts`,
/// the default permissions, owned by root.
pub open spec fn fresh_attr(ino: u64, kind: FileKind, blocks: u64, ts: Timestamp) -> Attr {
    Attr {
        ino,
        size: 0,
        blocks,
        atime: ts,
        mtime: ts,
        ctime: ts,
        crtime: ts,
        kind,
        perm: DEFAULT_PERM,
        nlink: 0,
        uid: 0,
        gid: 0,
        rdev: 0,
        flags: 0,
    }
}

impl Attr {
    /// The attributes of an inode just made, as [`fresh_attr`] gives them.
    pub fn fresh(ino: u64, kind: FileKind, blocks: u64, ts: Timestamp) -> (a: Attr)
        ensures
            a == fresh_attr(ino, kind, blocks, ts),
    {
        Attr {
            ino,
            size: 0,
            blocks,
            atime: ts,
            mtime: ts,
            ctime: ts,
            crtime: ts,
            kind,
            perm: DEFAULT_PERM,
            nlink: 0,
            uid: 0,
            gid: 0,
            rdev: 0,
            flags: 0,
        }
    }
}

/// Why a request was refused.
#[derive(Clone, Copy, Debug, PartialEq, Eq, Structural)]
pub enum FsError {
    /// No such file or directory.
    NotFound,
    /// The parent named in the request does not exist.
    InvalidArgument,
    /// The name is taken.
    AlreadyExists,
    /// The directory still has children.
    NotEmpty,
}

} // verus!
