//! The file system: its tables, and the requests a mount makes of it.
use vstd::prelude::*;
use std::collections::BTreeMap;
use crate::types::{Attr, FileKind, FsError, Timestamp};
use crate::file::{File, written_data};
use crate::inode::Inode;
use crate::spec::{FsState, DirLine, WriteOutcome, lists_children, UNCOUNTED_WRITE_LEN};
use crate::clock::current_time;
use crate::laws::{
    lemma_setattr_keeps_wf, lemma_write_keeps_wf,
    lemma_mkdir_keeps_wf, lemma_create_keeps_wf, lemma_unlink_keeps_wf, lemma_rmdir_keeps_wf,
    lemma_rename_keeps_wf,
};

verus! {

broadcast use {vstd::std_specs::btree::group_btree_axioms, vstd::laws_cmp::group_laws_cmp};

/// The file system: file contents, attributes and inodes by inode number,
/// the last inode number handed out, the count of bytes written and the
/// limit on it.
pub struct TmpFS {
    files: BTreeMap<u64, File>,
    attrs: BTreeMap<u64, Attr>,
    inodes: BTreeMap<u64, Inode>,
    next_inode: u64,
    fs_size: i64,
    fs_max_size: u64,
}

impl View for TmpFS {
    type V = FsState;

    closed spec fn view(&self) -> FsState {
        FsState {
            files: self.files@.map_values(|f: File| f@),
            attrs: self.attrs@,
            nodes: self.inodes@.map_values(|i: Inode| i@.node()),
            next_inode: self.next_inode,
            fs_size: self.fs_size,
            fs_max_size: self.fs_max_size,
        }
    }
}

impl TmpFS {
    /// The invariant: that of the abstract state, and every directory's
    /// children kept in the byte order of their names.
    pub closed spec fn wf(&self) -> bool {
        &&& self@.wf()
        &&& forall|d: u64| #[trigger] self.inodes@.contains_key(d) ==> self.inodes@[d]@.wf()
    }

    /// A file system that holds its invariant holds that of its abstract state.
    pub proof fn lemma_wf(&self)
        requires
            self.wf(),
        ensures
            self@.wf(),
    {
    }

    /// A new file system of at most `size` bytes, made at time `ts`.
    pub fn new_at(size: u64, ts: Timestamp) -> (fs: TmpFS)
        ensures
            fs.wf(),
            fs@ == FsState::initial(size, ts),
    {
        let files: BTreeMap<u64, File> = BTreeMap::new();
        let root = Inode::new_inode("/".to_owned(), 1);
        proof {
            reveal_strlit("/");
            assert(root@.children() =~= Map::<Seq<char>, u64>::empty());
            assert(root@.name =~= seq!['/']);
        }
        let mut attrs: BTreeMap<u64, Attr> = BTreeMap::new();
        attrs.insert(1, Attr::fresh(1, FileKind::Directory, 1, ts));
        let mut inodes: BTreeMap<u64, Inode> = BTreeMap::new();
        inodes.insert(1, root);
        let fs = TmpFS { files, attrs, inodes, next_inode: 2, fs_size: 0, fs_max_size: size };
        proof {
            assert(fs@.files =~= FsState::initial(size, ts).files);
            assert(fs@.nodes =~= FsState::initial(size, ts).nodes);
        }
        fs
    }

    /// A new file system of at most `size` bytes, made now.
    pub fn new(size: u64) -> (fs: TmpFS)
        ensures
            fs.wf(),
            exists|ts: Timestamp| ts.valid() && fs@ == FsState::initial(size, ts),
    {
        let ts = current_time();
        TmpFS::new_at(size, ts)
    }

    /// Hands out the next inode number.
    fn get_next_inode(&mut self) -> (n: u64)
        requires
            old(self).next_inode < u64::MAX,
        ensures
            n == old(self).next_inode + 1,
            final(self).next_inode == n,
            final(self).files == old(self).files,
            final(self).attrs == old(self).attrs,
            final(self).inodes == old(self).inodes,
            final(self).fs_size == old(self).fs_size,
            final(self).fs_max_size == old(self).fs_max_size,
    {
        self.next_inode += 1;
        self.next_inode
    }

    /// The size limit.
    pub fn fs_max_size(&self) -> (n: u64)
        ensures
            n == self@.fs_max_size,
    {
        self.fs_max_size
    }

    /// The count of bytes written.
    pub fn fs_size(&self) -> (n: i64)
        ensures
            n == self@.fs_size,
    {
        self.fs_size
    }

    /// The attributes of inode `ino`.
    pub fn getattr(&self, ino: u64) -> (r: Result<Attr, FsError>)
        ensures
            r == self@.getattr(ino),
    {
        match self.attrs.get(&ino) {
            Some(a) => Ok(*a),
            None => Err(FsError::NotFound),
        }
    }

    /// The attributes of the child `name` of directory `parent`.
    pub fn lookup(&self, parent: u64, name: &str) -> (r: Result<Attr, FsError>)
        requires
            self.wf(),
        ensures
            r == self@.lookup(parent, name@),
    {
        let name = name.to_owned();
        match self.inodes.get(&parent) {
            Some(p) => match p.child(&name) {
                Some(x) => self.getattr(x),
                None => Err(FsError::NotFound),
            },
            None => Err(FsError::NotFound),
        }
    }
}

impl TmpFS {
    /// Makes the directory `name` under `parent` at time `ts`.
    pub fn mkdir_at(&mut self, parent: u64, name: &str, ts: Timestamp) -> (r: Result<Attr, FsError>)
        requires
            old(self).wf(),
            old(self)@.next_inode < u64::MAX,
        ensures
            final(self).wf(),
            final(self)@ == old(self)@.mkdir_state(parent, name@, ts),
            r == old(self)@.mkdir_result(parent, name@, ts),
    {
        proof {
            lemma_mkdir_keeps_wf(self@, parent, name@, ts);
        }
        let ghost s = self@;
        let name = name.to_owned();
        let new_ino = self.get_next_inode();
        let attr = Attr::fresh(new_ino, FileKind::Directory, 0, ts);
        let ghost s1 = self@;
        assert(s1 == s.bump());
        match self.inodes.remove(&parent) {
            None => {
                assert(self@ == s.bump());
                Err(FsError::InvalidArgument)
            },
            Some(mut p) => {
                assert(p@.wf());
                if p.child(&name).is_some() {
                    self.inodes.insert(parent, p);
                    assert(self.inodes@ =~= old(self).inodes@);
                    assert(self@ =~= s.bump());
                    return Err(FsError::AlreadyExists);
                }
                p.insert_child(name.clone(), new_ino);
                self.inodes.insert(parent, p);
                self.attrs.insert(new_ino, attr);
                let dir = Inode::new_inode(name, parent);
                proof {
                    assert(dir@.children() =~= Map::<Seq<char>, u64>::empty());
                }
                self.inodes.insert(new_ino, dir);
                assert(self@ =~= s.mkdir_state(parent, name@, ts));
                Ok(attr)
            },
        }
    }
}

impl TmpFS {
    /// Makes the directory `name` under `parent`, stamped with the current
    /// time.
    pub fn mkdir(&mut self, parent: u64, name: &str) -> (r: Result<Attr, FsError>)
        requires
            old(self).wf(),
            old(self)@.next_inode < u64::MAX,
        ensures
            final(self).wf(),
            exists|ts: Timestamp|
                ts.valid() && final(self)@ == old(self)@.mkdir_state(parent, name@, ts) && r == old(
                    self,
                )@.mkdir_result(parent, name@, ts),
    {
        let ts = current_time();
        self.mkdir_at(parent, name, ts)
    }

    /// Makes the empty regular file `name` under `parent` at time `ts`; where
    /// the name is taken, sets that inode's access and modification times to
    /// `ts` and answers with its attributes.
    pub fn create_at(&mut self, parent: u64, name: &str, ts: Timestamp) -> (r: Result<Attr, FsError>)
        requires
            old(self).wf(),
            old(self)@.next_inode < u64::MAX,
        ensures
            final(self).wf(),
            final(self)@ == old(self)@.create_state(parent, name@, ts),
            r == old(self)@.create_result(parent, name@, ts),
    {
        proof {
            lemma_create_keeps_wf(self@, parent, name@, ts);
        }
        let ghost s = self@;
        let name = name.to_owned();
        let new_ino = self.get_next_inode();
        match self.inodes.remove(&parent) {
            None => {
                assert(self@ =~= s.bump());
                Err(FsError::InvalidArgument)
            },
            Some(mut p) => {
                assert(p@.wf());
                match p.child(&name) {
                    Some(x) => {
                        self.inodes.insert(parent, p);
                        assert(self.inodes@ =~= old(self).inodes@);
                        assert(s.entry(parent, name@) == Some(x));
                        let mut a = *self.attrs.get(&x).unwrap();
                        a.atime = ts;
                        a.mtime = ts;
                        self.attrs.insert(x, a);
                        assert(self@ =~= s.create_state(parent, name@, ts));
                        Ok(a)
                    },
                    None => {
                        let attr = Attr::fresh(new_ino, FileKind::RegularFile, 0, ts);
                        self.attrs.insert(new_ino, attr);
                        self.files.insert(new_ino, File::new_file());
                        p.insert_child(name.clone(), new_ino);
                        self.inodes.insert(parent, p);
                        let node = Inode::new_inode(name, parent);
                        proof {
                            assert(node@.children() =~= Map::<Seq<char>, u64>::empty());
                        }
                        self.inodes.insert(new_ino, node);
                        assert(self@ =~= s.create_state(parent, name@, ts));
                        Ok(attr)
                    },
                }
            },
        }
    }

    /// Makes the empty regular file `name` under `parent`, stamped with the
    /// current time.
    pub fn create(&mut self, parent: u64, name: &str) -> (r: Result<Attr, FsError>)
        requires
            old(self).wf(),
            old(self)@.next_inode < u64::MAX,
        ensures
            final(self).wf(),
            exists|ts: Timestamp|
                ts.valid() && final(self)@ == old(self)@.create_state(parent, name@, ts) && r == old(
                    self,
                )@.create_result(parent, name@, ts),
    {
        let ts = current_time();
        self.create_at(parent, name, ts)
    }
}

impl TmpFS {
    /// Removes the entry `name` of `parent` with the inode it leads to.
    pub fn unlink(&mut self, parent: u64, name: &str) -> (r: Result<(), FsError>)
        requires
            old(self).wf(),
            old(self)@.unlink_fits(parent, name@),
        ensures
            final(self).wf(),
            final(self)@ == old(self)@.unlink_state(parent, name@),
            r == old(self)@.unlink_result(parent, name@),
    {
        proof {
            lemma_unlink_keeps_wf(self@, parent, name@);
        }
        let ghost s = self@;
        let name = name.to_owned();
        match self.inodes.remove(&parent) {
            None => {
                assert(!s.nodes.contains_key(0));
                self.inodes.remove(&0);
                assert(self@ =~= s);
                Ok(())
            },
            Some(mut p) => {
                assert(p@.wf());
                match p.remove_child(&name) {
                    None => {
                        self.inodes.insert(parent, p);
                        assert(self@.nodes =~= s.nodes);
                        assert(self@ =~= s);
                        Err(FsError::NotFound)
                    },
                    Some(x) => {
                        assert(s.entry(parent, name@) == Some(x));
                        assert(s.attrs.contains_key(x));
                        assert(i64::MIN <= s.fs_size - (s.attrs[x].size as i64) <= i64::MAX);
                        self.inodes.insert(parent, p);
                        match self.attrs.remove(&x) {
                            Some(a) => {
                                self.fs_size = self.fs_size - (a.size as i64);
                                if a.kind == FileKind::RegularFile {
                                    self.files.remove(&x);
                                }
                            },
                            None => {},
                        }
                        self.inodes.remove(&x);
                        assert(self@ =~= s.unlink_state(parent, name@));
                        Ok(())
                    },
                }
            },
        }
    }

    /// Removes the entry `name` of `parent` and the inode it leads to,
    /// unless that inode has children.
    pub fn rmdir(&mut self, parent: u64, name: &str) -> (r: Result<(), FsError>)
        requires
            old(self).wf(),
        ensures
            final(self).wf(),
            final(self)@ == old(self)@.rmdir_state(parent, name@),
            r == old(self)@.rmdir_result(parent, name@),
    {
        proof {
            lemma_rmdir_keeps_wf(self@, parent, name@);
        }
        let ghost s = self@;
        let name = name.to_owned();
        let rmdir_ino: u64;
        match self.inodes.get(&parent) {
            Some(p) => match p.child(&name) {
                Some(x) => {
                    rmdir_ino = x;
                },
                None => {
                    return Err(FsError::NotFound);
                },
            },
            None => {
                assert(!s.nodes.contains_key(0));
                rmdir_ino = 0;
            },
        }
        match self.inodes.get(&rmdir_ino) {
            Some(dir) => {
                if dir.is_empty() {
                    proof {
                        assert(dir@.children() =~= Map::<Seq<char>, u64>::empty());
                    }
                    self.attrs.remove(&rmdir_ino);
                } else {
                    proof {
                        crate::inode::lemma_entry_in_map(dir@.listing, 0);
                        assert(s.nodes[rmdir_ino].children.contains_key(dir@.listing[0].0));
                    }
                    return Err(FsError::NotEmpty);
                }
            },
            None => {},
        }
        match self.inodes.remove(&parent) {
            Some(mut p) => {
                assert(p@.wf());
                p.remove_child(&name);
                self.inodes.insert(parent, p);
            },
            None => {},
        }
        self.inodes.remove(&rmdir_ino);
        assert(self@ =~= s.rmdir_state(parent, name@));
        Ok(())
    }

    /// Moves the entry `name` of `parent` to `newparent` under `newname`.
    pub fn rename(&mut self, parent: u64, name: &str, newparent: u64, newname: &str) -> (r: Result<
        (),
        FsError,
    >)
        requires
            old(self).wf(),
        ensures
            final(self).wf(),
            final(self)@ == old(self)@.rename_state(parent, name@, newparent, newname@),
            r == old(self)@.rename_result(parent, name@, newparent, newname@),
    {
        proof {
            lemma_rename_keeps_wf(self@, parent, name@, newparent, newname@);
        }
        let ghost s = self@;
        let name = name.to_owned();
        let newname = newname.to_owned();
        if self.inodes.contains_key(&parent) && self.inodes.contains_key(&newparent) {
            let file_ino: u64;
            let mut p = self.inodes.remove(&parent).unwrap();
            assert(p@.wf());
            match p.remove_child(&name) {
                Some(ino) => {
                    file_ino = ino;
                    self.inodes.insert(parent, p);
                },
                None => {
                    self.inodes.insert(parent, p);
                    assert(self@.nodes =~= s.nodes);
                    assert(self@ =~= s);
                    return Err(FsError::NotFound);
                },
            }
            let ghost s1 = self@;
            assert(s1.nodes =~= s.without_child(parent, name@));
            let mut np = self.inodes.remove(&newparent).unwrap();
            assert(np@.wf());
            np.insert_child(newname, file_ino);
            self.inodes.insert(newparent, np);
            assert(self@ =~= s.rename_state(parent, name@, newparent, newname@));
        } else {
            assert(self@ =~= s.rename_state(parent, name@, newparent, newname@));
        }
        Ok(())
    }
}

/// One line of a directory listing: inode number, position, kind and name.
#[derive(Clone, Debug)]
pub struct DirItem {
    pub ino: u64,
    pub offset: i64,
    pub kind: FileKind,
    pub name: String,
}

impl View for DirItem {
    type V = DirLine;

    open spec fn view(&self) -> DirLine {
        DirLine { ino: self.ino, offset: self.offset, kind: self.kind, name: self.name@ }
    }
}

/// The lines of a listing, each by its view.
pub open spec fn items_view(v: Seq<DirItem>) -> Seq<DirLine> {
    v.map_values(|d: DirItem| d@)
}

impl TmpFS {
    /// Changes the attributes of `ino`: each field given is set, and a new
    /// size cuts the bytes of a regular file.
    pub fn setattr(
        &mut self,
        ino: u64,
        uid: Option<u32>,
        gid: Option<u32>,
        size: Option<u64>,
        atime: Option<Timestamp>,
        mtime: Option<Timestamp>,
        crtime: Option<Timestamp>,
    ) -> (r: Result<Attr, FsError>)
        requires
            old(self).wf(),
        ensures
            final(self).wf(),
            final(self)@ == old(self)@.setattr_state(ino, uid, gid, size, atime, mtime, crtime),
            r == old(self)@.setattr_result(ino, uid, gid, size, atime, mtime, crtime),
    {
        proof {
            lemma_setattr_keeps_wf(self@, ino, uid, gid, size, atime, mtime, crtime);
        }
        let ghost s = self@;
        let mut attr = match self.attrs.get(&ino) {
            Some(a) => *a,
            None => {
                return Err(FsError::NotFound);
            },
        };
        match atime {
            Some(new_atime) => attr.atime = new_atime,
            None => {},
        }
        match mtime {
            Some(new_mtime) => attr.mtime = new_mtime,
            None => {},
        }
        match crtime {
            Some(new_crtime) => attr.crtime = new_crtime,
            None => {},
        }
        match uid {
            Some(new_uid) => {
                attr.uid = new_uid;
            },
            None => {},
        }
        match gid {
            Some(new_gid) => {
                attr.gid = new_gid;
            },
            None => {},
        }
        match size {
            Some(new_size) => {
                match self.files.remove(&ino) {
                    Some(mut memfile) => {
                        memfile.truncate_bytes(new_size);
                        self.files.insert(ino, memfile);
                        attr.size = new_size;
                    },
                    None => {},
                }
            },
            None => {},
        }
        self.attrs.insert(ino, attr);
        assert(self@ =~= s.setattr_state(ino, uid, gid, size, atime, mtime, crtime));
        Ok(attr)
    }

    /// The listing of directory `ino` from the position that `offset` gives:
    /// the directory itself, its parent, then its children in the byte order
    /// of their names.
    pub fn readdir(&self, ino: u64, offset: i64) -> (r: Result<Vec<DirItem>, FsError>)
        requires
            self.wf(),
            self@.nodes.contains_key(ino) ==> offset < i64::MAX,
        ensures
            match r {
                Ok(v) => {
                    &&& self@.nodes.contains_key(ino)
                    &&& exists|l: Seq<(Seq<char>, u64)>|
                        #![trigger self@.all_lines(ino, l)]
                        lists_children(l, self@.nodes[ino].children) && items_view(v@)
                            == FsState::lines_from(self@.all_lines(ino, l), FsState::skip_for(offset))
                },
                Err(e) => !self@.nodes.contains_key(ino) && e == FsError::NotFound,
            },
    {
        let node = match self.inodes.get(&ino) {
            Some(n) => n,
            None => {
                return Err(FsError::NotFound);
            },
        };
        let ghost l = node@.listing;
        let ghost lines = self@.all_lines(ino, l);
        let mut entries: Vec<(u64, FileKind, String)> = Vec::new();
        entries.push((ino, FileKind::Directory, ".".to_owned()));
        entries.push((node.parent(), FileKind::Directory, "..".to_owned()));
        proof {
            reveal_strlit(".");
            reveal_strlit("..");
        }
        let n = node.child_count();
        let mut j: usize = 0;
        while j < n
            invariant
                self.wf(),
                self.inodes@.contains_key(ino),
                *node == self.inodes@[ino],
                l == node@.listing,
                lines == self@.all_lines(ino, l),
                n == l.len(),
                0 <= j <= n,
                entries@.len() == j + 2,
                forall|i: int|
                    0 <= i < j + 2 ==> entries@[i].0 == lines[i].0 && entries@[i].1 == lines[i].1
                        && entries@[i].2@ == lines[i].2,
            decreases n - j,
        {
            let (child_name, child) = node.child_at(j);
            proof {
                crate::inode::lemma_entry_in_map(l, j as int);
                assert(self@.entry(ino, l[j as int].0) == Some(child));
            }
            let a = *self.attrs.get(&child).unwrap();
            entries.push((a.ino, a.kind, child_name));
            j = j + 1;
        }
        assert(self@.nodes.contains_key(ino));
        let to_skip: usize = (if offset == 0 {
            offset
        } else {
            offset + 1
        }) as usize;
        let total = entries.len();
        let mut out: Vec<DirItem> = Vec::new();
        proof {
            assert(lists_children(l, self@.nodes[ino].children));
        }
        if to_skip >= total {
            assert(items_view(out@) =~= FsState::lines_from(lines, to_skip));
            return Ok(out);
        }
        let mut i: usize = to_skip;
        while i < total
            invariant
                total == entries@.len(),
                total == lines.len(),
                to_skip <= i <= total,
                forall|k: int|
                    0 <= k < total ==> entries@[k].0 == lines[k].0 && entries@[k].1 == lines[k].1
                        && entries@[k].2@ == lines[k].2,
                items_view(out@) =~= FsState::lines_from(lines, to_skip).subrange(0, i - to_skip),
            decreases total - i,
        {
            let e = &entries[i];
            let item = DirItem { ino: e.0, offset: i as i64, kind: e.1, name: e.2.clone() };
            let ghost before = out@;
            out.push(item);
            assert(items_view(out@) =~= items_view(before).push(item@));
            i = i + 1;
        }
        assert(FsState::lines_from(lines, to_skip).subrange(0, total - to_skip) =~= FsState::lines_from(lines, to_skip));
        Ok(out)
    }

    /// Whether [`TmpFS::read`] may be asked for these arguments.
    pub fn read_is_safe(&self, ino: u64, offset: i64) -> (r: bool)
        ensures
            r == self@.read_safe(ino, offset),
    {
        match self.files.get(&ino) {
            Some(fp) => match self.attrs.get(&ino) {
                Some(_) => (offset as usize) as u64 <= fp.get_file_size(),
                None => true,
            },
            None => true,
        }
    }

    /// The bytes of file `ino` from `offset` on.
    pub fn read(&self, ino: u64, offset: i64) -> (r: Result<Vec<u8>, FsError>)
        requires
            self@.read_safe(ino, offset),
        ensures
            match r {
                Ok(v) => self@.read(ino, offset) == Ok::<Seq<u8>, FsError>(v@),
                Err(e) => self@.read(ino, offset) == Err::<Seq<u8>, FsError>(e),
            },
    {
        match self.files.get(&ino) {
            Some(fp) => match self.attrs.get(&ino) {
                Some(_) => Ok(fp.bytes_from(offset as usize)),
                None => Err(FsError::NotFound),
            },
            None => Err(FsError::NotFound),
        }
    }
}

impl TmpFS {
    /// Writes `data` at `offset` into file `ino`, stamping it with time `ts`,
    /// and counts the change in its size.
    pub fn write_at(&mut self, ino: u64, offset: i64, data: &[u8], ts: Timestamp) -> (r: WriteOutcome)
        requires
            old(self).wf(),
            old(self)@.write_safe(ino, offset, data@),
        ensures
            final(self).wf(),
            final(self)@ == old(self)@.write_state(ino, offset, data@, ts),
            r == old(self)@.write_result(ino, offset, data@),
    {
        proof {
            lemma_write_keeps_wf(self@, ino, offset, data@, ts);
        }
        let ghost s = self@;
        let mut fp = match self.files.remove(&ino) {
            Some(f) => f,
            None => {
                assert(self@ =~= s);
                return WriteOutcome::Failed(FsError::NotFound);
            },
        };
        let mut attr = match self.attrs.get(&ino) {
            Some(a) => *a,
            None => {
                self.files.insert(ino, fp);
                assert(self@ =~= s);
                return WriteOutcome::Failed(FsError::NotFound);
            },
        };
        if (#[verifier::truncate] (self.fs_size as u64)) > self.fs_max_size {
            self.files.insert(ino, fp);
            assert(self@ =~= s);
            return WriteOutcome::OverCapacity;
        }
        let size = fp.update_file(offset, data);
        attr.atime = ts;
        attr.mtime = ts;
        attr.size = fp.get_file_size();
        if size != UNCOUNTED_WRITE_LEN && !fp.is_updated() {
            let counted = #[verifier::truncate] (fp.get_file_size() as i64);
            self.fs_size = self.fs_size + counted;
            fp.record_counted_size(counted);
        } else if size != UNCOUNTED_WRITE_LEN {
            let counted = #[verifier::truncate] (fp.get_file_size() as i64);
            self.fs_size = self.fs_size + (counted - fp.old_size());
            fp.record_counted_size(counted);
        }
        self.files.insert(ino, fp);
        self.attrs.insert(ino, attr);
        assert(self@ =~= s.write_state(ino, offset, data@, ts));
        WriteOutcome::Written(#[verifier::truncate] (size as u32))
    }

    /// Writes `data` at `offset` into file `ino`, stamping it with the
    /// current time.
    pub fn write(&mut self, ino: u64, offset: i64, data: &[u8]) -> (r: WriteOutcome)
        requires
            old(self).wf(),
            old(self)@.write_safe(ino, offset, data@),
        ensures
            final(self).wf(),
            exists|ts: Timestamp|
                ts.valid() && final(self)@ == old(self)@.write_state(ino, offset, data@, ts),
            r == old(self)@.write_result(ino, offset, data@),
    {
        let ts = current_time();
        self.write_at(ino, offset, data, ts)
    }
}

impl TmpFS {
    /// The last inode number handed out.
    pub fn next_inode(&self) -> (n: u64)
        ensures
            n == self@.next_inode,
    {
        self.next_inode
    }

    /// Whether `ino` has an inode entry (a directory or a file).
    pub fn has_inode(&self, ino: u64) -> (r: bool)
        ensures
            r == self@.nodes.contains_key(ino),
    {
        self.inodes.contains_key(&ino)
    }

    /// Whether [`TmpFS::unlink`] may be asked for these arguments: the count
    /// of bytes stays within `i64`.
    pub fn unlink_is_safe(&self, parent: u64, name: &str) -> (r: bool)
        requires
            self.wf(),
        ensures
            r == self@.unlink_fits(parent, name@),
    {
        let name = name.to_owned();
        match self.inodes.get(&parent) {
            None => true,
            Some(p) => match p.child(&name) {
                None => true,
                Some(x) => match self.attrs.get(&x) {
                    None => true,
                    Some(a) => {
                        let sub = #[verifier::truncate] (a.size as i64);
                        let v: i128 = self.fs_size as i128 - sub as i128;
                        i64::MIN as i128 <= v && v <= i64::MAX as i128
                    },
                },
            },
        }
    }

    /// Whether [`TmpFS::write`] may be asked for these arguments: where the
    /// write reaches the file, the offset is not negative and the count of
    /// bytes stays within `i64`.
    pub fn write_is_safe(&self, ino: u64, offset: i64, data: &[u8]) -> (r: bool)
        ensures
            r == self@.write_safe(ino, offset, data@),
    {
        let fp = match self.files.get(&ino) {
            Some(f) => f,
            None => {
                return true;
            },
        };
        if !self.attrs.contains_key(&ino) {
            return true;
        }
        if (#[verifier::truncate] (self.fs_size as u64)) > self.fs_max_size {
            return true;
        }
        if offset < 0 {
            return false;
        }
        if data.len() as u64 == UNCOUNTED_WRITE_LEN {
            return true;
        }
        let old_len = fp.get_file_size() as u128;
        let off = (#[verifier::truncate] (offset as usize)) as u128;
        let d = data.len() as u128;
        let new_len: u128 = if off >= old_len {
            off + d
        } else if d > old_len - off {
            off + d
        } else {
            old_len + d
        };
        proof {
            let ghost w = written_data(self@.files[ino].data, (offset as usize) as int, data@);
            assert(w.len() == new_len);
        }
        let counted = #[verifier::truncate] ((#[verifier::truncate] (new_len as u64)) as i64);
        let delta: i128 = if fp.is_updated() {
            counted as i128 - fp.old_size() as i128
        } else {
            counted as i128
        };
        let total: i128 = self.fs_size as i128 + delta;
        i64::MIN as i128 <= delta && delta <= i64::MAX as i128 && i64::MIN as i128 <= total && total
            <= i64::MAX as i128
    }
}

} // verus!
