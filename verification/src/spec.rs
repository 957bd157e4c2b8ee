//! The abstract state of the file system and what each request does to it.
use vstd::prelude::*;
use crate::types::{Attr, FileKind, FsError, Timestamp, fresh_attr};
use crate::file::{FileView, truncated_data, written_data};
use crate::inode::{NodeView, entries_map, sorted_by_name};

verus! {

/// The whole file system as maps: file contents, attributes and inodes, each
/// by inode number, with the counters beside them.
#[verifier::ext_equal]
pub struct FsState {
    pub files: Map<u64, FileView>,
    pub attrs: Map<u64, Attr>,
    pub nodes: Map<u64, NodeView>,
    pub next_inode: u64,
    pub fs_size: i64,
    pub fs_max_size: u64,
}

/// What a write request comes to.
#[derive(Clone, Copy, Debug, PartialEq, Eq, Structural)]
pub enum WriteOutcome {
    /// The data was written; the number of bytes, as reported.
    Written(u32),
    /// The file system is over its size limit: nothing was written and the
    /// request is left unanswered.
    OverCapacity,
    /// The request was refused.
    Failed(FsError),
}

/// The name of the entry that stands for a directory itself.
pub open spec fn dot() -> Seq<char> {
    seq!['.']
}

/// The name of the entry that stands for a directory's parent.
pub open spec fn dot_dot() -> Seq<char> {
    seq!['.', '.']
}

/// Writes of exactly this many bytes leave the size count alone.
pub const UNCOUNTED_WRITE_LEN: u64 = 4096;

/// The attributes after a request to change them: each field given is set.
pub open spec fn set_fields(
    a: Attr,
    uid: Option<u32>,
    gid: Option<u32>,
    atime: Option<Timestamp>,
    mtime: Option<Timestamp>,
    crtime: Option<Timestamp>,
) -> Attr {
    Attr {
        atime: match atime {
            Some(t) => t,
            None => a.atime,
        },
        mtime: match mtime {
            Some(t) => t,
            None => a.mtime,
        },
        crtime: match crtime {
            Some(t) => t,
            None => a.crtime,
        },
        uid: match uid {
            Some(u) => u,
            None => a.uid,
        },
        gid: match gid {
            Some(g) => g,
            None => a.gid,
        },
        ..a
    }
}

/// A listing of a directory's children: sorted by the bytes of the names,
/// and holding exactly the children.
pub open spec fn lists_children(l: Seq<(Seq<char>, u64)>, children: Map<Seq<char>, u64>) -> bool {
    sorted_by_name(l) && entries_map(l) == children
}

/// One line of a directory listing as it is reported: inode number,
/// position in the listing, kind and name.
pub struct DirLine {
    pub ino: u64,
    pub offset: i64,
    pub kind: FileKind,
    pub name: Seq<char>,
}

impl FsState {
    /// The inode number the entry `name` of directory `d` leads to, if any.
    pub open spec fn entry(self, d: u64, name: Seq<char>) -> Option<u64> {
        if self.nodes.contains_key(d) && self.nodes[d].children.contains_key(name) {
            Some(self.nodes[d].children[name])
        } else {
            None
        }
    }

    /// The invariant of the file system:
    /// every entry leads to an inode that has attributes;
    /// no two entries lead to the same inode;
    /// every inode number in use lies between 1 and the last one handed out.
    pub open spec fn wf(self) -> bool {
        &&& forall|d: u64, k: Seq<char>| #[trigger]
            self.entry(d, k) is Some ==> self.attrs.contains_key(self.entry(d, k)->0)
        &&& forall|d1: u64, k1: Seq<char>, d2: u64, k2: Seq<char>|
            #[trigger] self.entry(d1, k1) is Some && self.entry(d1, k1) == #[trigger] self.entry(
                d2,
                k2,
            ) ==> d1 == d2 && k1 == k2
        &&& forall|i: u64| #[trigger] self.attrs.contains_key(i) ==> 1 <= i <= self.next_inode
        &&& forall|i: u64| #[trigger] self.nodes.contains_key(i) ==> 1 <= i <= self.next_inode
        &&& forall|i: u64| #[trigger] self.files.contains_key(i) ==> 1 <= i <= self.next_inode
    }

    /// A new file system of at most `size` bytes: only the root directory,
    /// inode 1, which is its own parent.
    pub open spec fn initial(size: u64, ts: Timestamp) -> FsState {
        FsState {
            files: Map::empty(),
            attrs: Map::empty().insert(1, fresh_attr(1, FileKind::Directory, 1, ts)),
            nodes: Map::empty().insert(
                1,
                NodeView { name: seq!['/'], children: Map::empty(), parent: 1 },
            ),
            next_inode: 2,
            fs_size: 0,
            fs_max_size: size,
        }
    }

    /// The state with the next inode number handed out.
    pub open spec fn bump(self) -> FsState {
        FsState { next_inode: (self.next_inode + 1) as u64, ..self }
    }

    /// The attributes of inode `ino`.
    pub open spec fn getattr(self, ino: u64) -> Result<Attr, FsError> {
        if self.attrs.contains_key(ino) {
            Ok(self.attrs[ino])
        } else {
            Err(FsError::NotFound)
        }
    }

    /// The attributes of the child `name` of directory `parent`.
    pub open spec fn lookup(self, parent: u64, name: Seq<char>) -> Result<Attr, FsError> {
        match self.entry(parent, name) {
            Some(x) => self.getattr(x),
            None => Err(FsError::NotFound),
        }
    }

    /// The state after a request to change the attributes of `ino`. A new
    /// size cuts the file's bytes, and is recorded, only where `ino` is a file.
    pub open spec fn setattr_state(
        self,
        ino: u64,
        uid: Option<u32>,
        gid: Option<u32>,
        size: Option<u64>,
        atime: Option<Timestamp>,
        mtime: Option<Timestamp>,
        crtime: Option<Timestamp>,
    ) -> FsState {
        if !self.attrs.contains_key(ino) {
            self
        } else {
            let a = set_fields(self.attrs[ino], uid, gid, atime, mtime, crtime);
            match size {
                Some(s) if self.files.contains_key(ino) => FsState {
                    attrs: self.attrs.insert(ino, Attr { size: s, ..a }),
                    files: self.files.insert(
                        ino,
                        FileView {
                            data: truncated_data(self.files[ino].data, (s as usize) as int),
                            ..self.files[ino]
                        },
                    ),
                    ..self
                },
                _ => FsState { attrs: self.attrs.insert(ino, a), ..self },
            }
        }
    }

    /// The answer to a request to change the attributes of `ino`.
    pub open spec fn setattr_result(
        self,
        ino: u64,
        uid: Option<u32>,
        gid: Option<u32>,
        size: Option<u64>,
        atime: Option<Timestamp>,
        mtime: Option<Timestamp>,
        crtime: Option<Timestamp>,
    ) -> Result<Attr, FsError> {
        if !self.attrs.contains_key(ino) {
            Err(FsError::NotFound)
        } else {
            Ok(self.setattr_state(ino, uid, gid, size, atime, mtime, crtime).attrs[ino])
        }
    }

    /// Where a listing starts for the offset a request gives: at the start
    /// for offset 0, and just past the entry at that offset otherwise.
    pub open spec fn skip_for(offset: i64) -> usize {
        (if offset == 0 {
            0
        } else {
            offset + 1
        }) as usize
    }

    /// All the lines of a directory's listing: itself, its parent, then its
    /// children in the order of `l`, each with its attributes' number and kind.
    pub open spec fn all_lines(self, ino: u64, l: Seq<(Seq<char>, u64)>) -> Seq<(u64, FileKind, Seq<char>)> {
        seq![
            (ino, FileKind::Directory, dot()),
            (self.nodes[ino].parent, FileKind::Directory, dot_dot()),
        ] + l.map_values(
            |e: (Seq<char>, u64)| (self.attrs[e.1].ino, self.attrs[e.1].kind, e.0),
        )
    }

    /// The lines a listing request reports: those from position `skip` on,
    /// each with its position.
    pub open spec fn lines_from(lines: Seq<(u64, FileKind, Seq<char>)>, skip: usize) -> Seq<DirLine> {
        if skip >= lines.len() {
            Seq::empty()
        } else {
            Seq::new(
                (lines.len() - skip) as nat,
                |i: int|
                    DirLine {
                        ino: lines[skip + i].0,
                        offset: (skip + i) as i64,
                        kind: lines[skip + i].1,
                        name: lines[skip + i].2,
                    },
            )
        }
    }

    /// The new inode number that a request which makes an inode hands out.
    pub open spec fn new_ino(self) -> u64 {
        (self.next_inode + 1) as u64
    }

    /// The state after `mkdir`: the next inode number is handed out in every
    /// case; where `parent` exists and has no child `name`, a directory is made
    /// under that number.
    pub open spec fn mkdir_state(self, parent: u64, name: Seq<char>, ts: Timestamp) -> FsState {
        let new = self.new_ino();
        if !self.nodes.contains_key(parent) || self.nodes[parent].children.contains_key(name) {
            self.bump()
        } else {
            FsState {
                attrs: self.attrs.insert(new, fresh_attr(new, FileKind::Directory, 0, ts)),
                nodes: self.nodes.insert(
                    parent,
                    NodeView {
                        children: self.nodes[parent].children.insert(name, new),
                        ..self.nodes[parent]
                    },
                ).insert(new, NodeView { name, children: Map::empty(), parent }),
                ..self.bump()
            }
        }
    }

    /// The answer to `mkdir`.
    pub open spec fn mkdir_result(self, parent: u64, name: Seq<char>, ts: Timestamp) -> Result<Attr, FsError> {
        if !self.nodes.contains_key(parent) {
            Err(FsError::InvalidArgument)
        } else if self.nodes[parent].children.contains_key(name) {
            Err(FsError::AlreadyExists)
        } else {
            Ok(fresh_attr(self.new_ino(), FileKind::Directory, 0, ts))
        }
    }

    /// The attributes of `ino` with its access and modification times set to `ts`.
    pub open spec fn touched(self, ino: u64, ts: Timestamp) -> Attr {
        Attr { atime: ts, mtime: ts, ..self.attrs[ino] }
    }

    /// The state after `create`: the next inode number is handed out in every
    /// case; where `parent` has a child `name`, that inode's access and
    /// modification times are set to `ts`; where `parent` exists and has no
    /// child `name`, an empty regular file is made under that number.
    pub open spec fn create_state(self, parent: u64, name: Seq<char>, ts: Timestamp) -> FsState {
        let new = self.new_ino();
        if !self.nodes.contains_key(parent) {
            self.bump()
        } else if self.nodes[parent].children.contains_key(name) {
            let x = self.nodes[parent].children[name];
            if self.attrs.contains_key(x) {
                FsState { attrs: self.attrs.insert(x, self.touched(x, ts)), ..self.bump() }
            } else {
                self.bump()
            }
        } else {
            FsState {
                attrs: self.attrs.insert(new, fresh_attr(new, FileKind::RegularFile, 0, ts)),
                files: self.files.insert(
                    new,
                    FileView { data: Seq::empty(), is_updated: false, old_size: 0 },
                ),
                nodes: self.nodes.insert(
                    parent,
                    NodeView {
                        children: self.nodes[parent].children.insert(name, new),
                        ..self.nodes[parent]
                    },
                ).insert(new, NodeView { name, children: Map::empty(), parent }),
                ..self.bump()
            }
        }
    }

    /// The answer to `create`: where `name` is taken, the attributes of the
    /// inode that has it, with its new times.
    pub open spec fn create_result(self, parent: u64, name: Seq<char>, ts: Timestamp) -> Result<Attr, FsError> {
        if !self.nodes.contains_key(parent) {
            Err(FsError::InvalidArgument)
        } else if self.nodes[parent].children.contains_key(name) {
            Ok(self.touched(self.nodes[parent].children[name], ts))
        } else {
            Ok(fresh_attr(self.new_ino(), FileKind::RegularFile, 0, ts))
        }
    }

    /// `parent` with the child `name` taken out.
    pub open spec fn without_child(self, parent: u64, name: Seq<char>) -> Map<u64, NodeView> {
        self.nodes.insert(
            parent,
            NodeView { children: self.nodes[parent].children.remove(name), ..self.nodes[parent] },
        )
    }

    /// The state after `unlink`: the entry goes, and so do its inode, its
    /// attributes (whose size leaves the count) and, for a regular file, its
    /// bytes.
    pub open spec fn unlink_state(self, parent: u64, name: Seq<char>) -> FsState {
        match self.entry(parent, name) {
            None => self,
            Some(x) => {
                let nodes = self.without_child(parent, name).remove(x);
                if self.attrs.contains_key(x) {
                    let a = self.attrs[x];
                    FsState {
                        nodes,
                        attrs: self.attrs.remove(x),
                        files: if a.kind == FileKind::RegularFile {
                            self.files.remove(x)
                        } else {
                            self.files
                        },
                        fs_size: (self.fs_size - (a.size as i64)) as i64,
                        ..self
                    }
                } else {
                    FsState { nodes, ..self }
                }
            },
        }
    }

    /// The answer to `unlink`: success also where `parent` does not exist.
    pub open spec fn unlink_result(self, parent: u64, name: Seq<char>) -> Result<(), FsError> {
        if self.nodes.contains_key(parent) && !self.nodes[parent].children.contains_key(name) {
            Err(FsError::NotFound)
        } else {
            Ok(())
        }
    }

    /// The count of bytes stays within `i64` through `unlink`.
    pub open spec fn unlink_fits(self, parent: u64, name: Seq<char>) -> bool {
        match self.entry(parent, name) {
            Some(x) => self.attrs.contains_key(x) ==> i64::MIN <= self.fs_size - (
            self.attrs[x].size as i64) <= i64::MAX,
            None => true,
        }
    }

    /// The entry `name` of `parent` leads to a directory that has children.
    pub open spec fn rmdir_blocked(self, parent: u64, name: Seq<char>) -> bool {
        match self.entry(parent, name) {
            Some(x) => self.nodes.contains_key(x) && exists|k: Seq<char>|
                self.nodes[x].children.contains_key(k),
            None => false,
        }
    }

    /// The state after `rmdir`: unless the inode the entry leads to has
    /// children, the entry goes, and so does that inode with its attributes.
    pub open spec fn rmdir_state(self, parent: u64, name: Seq<char>) -> FsState {
        match self.entry(parent, name) {
            None => self,
            Some(x) => if self.rmdir_blocked(parent, name) {
                self
            } else {
                FsState {
                    nodes: self.without_child(parent, name).remove(x),
                    attrs: if self.nodes.contains_key(x) {
                        self.attrs.remove(x)
                    } else {
                        self.attrs
                    },
                    ..self
                }
            },
        }
    }

    /// The answer to `rmdir`: success also where `parent` does not exist.
    pub open spec fn rmdir_result(self, parent: u64, name: Seq<char>) -> Result<(), FsError> {
        if self.nodes.contains_key(parent) && !self.nodes[parent].children.contains_key(name) {
            Err(FsError::NotFound)
        } else if self.rmdir_blocked(parent, name) {
            Err(FsError::NotEmpty)
        } else {
            Ok(())
        }
    }

    /// The state after `rename`: where both directories exist, the entry
    /// `name` of `parent` moves to `newparent` under `newname`, taking the
    /// place of any entry of that name.
    pub open spec fn rename_state(
        self,
        parent: u64,
        name: Seq<char>,
        newparent: u64,
        newname: Seq<char>,
    ) -> FsState {
        if !self.nodes.contains_key(newparent) {
            self
        } else {
            match self.entry(parent, name) {
                None => self,
                Some(x) => {
                    let nodes = self.without_child(parent, name);
                    FsState {
                        nodes: nodes.insert(
                            newparent,
                            NodeView {
                                children: nodes[newparent].children.insert(newname, x),
                                ..nodes[newparent]
                            },
                        ),
                        ..self
                    }
                },
            }
        }
    }

    /// The answer to `rename`: success also where either directory does not
    /// exist.
    pub open spec fn rename_result(
        self,
        parent: u64,
        name: Seq<char>,
        newparent: u64,
        newname: Seq<char>,
    ) -> Result<(), FsError> {
        if self.nodes.contains_key(parent) && self.nodes.contains_key(newparent)
            && !self.nodes[parent].children.contains_key(name) {
            Err(FsError::NotFound)
        } else {
            Ok(())
        }
    }

    /// A write to `ino` reaches the file: the file and its attributes exist
    /// and the count of bytes, read as unsigned, is within the limit.
    pub open spec fn write_proceeds(self, ino: u64) -> bool {
        &&& self.files.contains_key(ino)
        &&& self.attrs.contains_key(ino)
        &&& (self.fs_size as u64) <= self.fs_max_size
    }

    /// The bytes of file `ino` after the write.
    pub open spec fn written(self, ino: u64, offset: i64, data: Seq<u8>) -> Seq<u8> {
        written_data(self.files[ino].data, (offset as usize) as int, data)
    }

    /// The new size as it is counted.
    pub open spec fn counted_size(self, ino: u64, offset: i64, data: Seq<u8>) -> i64 {
        (self.written(ino, offset, data).len() as u64) as i64
    }

    /// The write is counted in the size total: all but writes of exactly
    /// [`UNCOUNTED_WRITE_LEN`] bytes are.
    pub open spec fn write_counted(data: Seq<u8>) -> bool {
        data.len() != UNCOUNTED_WRITE_LEN
    }

    /// What a write adds to the size total: the whole new size the first
    /// time a file is counted, the change since the last count after that.
    pub open spec fn write_delta(self, ino: u64, offset: i64, data: Seq<u8>) -> int {
        if self.files[ino].is_updated {
            self.counted_size(ino, offset, data) - self.files[ino].old_size
        } else {
            self.counted_size(ino, offset, data) as int
        }
    }

    /// A write does not panic: where it reaches the file, the offset is not
    /// negative and the size total stays within `i64`.
    pub open spec fn write_safe(self, ino: u64, offset: i64, data: Seq<u8>) -> bool {
        self.write_proceeds(ino) ==> {
            &&& offset >= 0
            &&& Self::write_counted(data) ==> {
                &&& i64::MIN <= self.write_delta(ino, offset, data) <= i64::MAX
                &&& i64::MIN <= self.fs_size + self.write_delta(ino, offset, data) <= i64::MAX
            }
        }
    }

    /// The state after writing `data` at `offset` into file `ino` at time `ts`.
    pub open spec fn write_state(self, ino: u64, offset: i64, data: Seq<u8>, ts: Timestamp) -> FsState {
        if !self.write_proceeds(ino) {
            self
        } else {
            let f = self.files[ino];
            let nd = self.written(ino, offset, data);
            let a = Attr { atime: ts, mtime: ts, size: nd.len() as u64, ..self.attrs[ino] };
            let counted = Self::write_counted(data);
            FsState {
                files: self.files.insert(
                    ino,
                    FileView {
                        data: nd,
                        is_updated: f.is_updated || counted,
                        old_size: if counted {
                            self.counted_size(ino, offset, data)
                        } else {
                            f.old_size
                        },
                    },
                ),
                attrs: self.attrs.insert(ino, a),
                fs_size: if counted {
                    (self.fs_size + self.write_delta(ino, offset, data)) as i64
                } else {
                    self.fs_size
                },
                ..self
            }
        }
    }

    /// The answer to a write.
    pub open spec fn write_result(self, ino: u64, offset: i64, data: Seq<u8>) -> WriteOutcome {
        if !self.files.contains_key(ino) || !self.attrs.contains_key(ino) {
            WriteOutcome::Failed(FsError::NotFound)
        } else if !self.write_proceeds(ino) {
            WriteOutcome::OverCapacity
        } else {
            WriteOutcome::Written(((data.len() as u64) as u32))
        }
    }

    /// A read of `ino` from `offset` does not panic: the offset lies within
    /// the file.
    pub open spec fn read_safe(self, ino: u64, offset: i64) -> bool {
        self.files.contains_key(ino) && self.attrs.contains_key(ino) ==> (offset as usize)
            <= self.files[ino].data.len()
    }

    /// The bytes of file `ino` from `offset` on.
    pub open spec fn read(self, ino: u64, offset: i64) -> Result<Seq<u8>, FsError> {
        if self.files.contains_key(ino) && self.attrs.contains_key(ino) {
            Ok(self.files[ino].data.subrange((offset as usize) as int, self.files[ino].data.len() as int))
        } else {
            Err(FsError::NotFound)
        }
    }
}

} // verus!
