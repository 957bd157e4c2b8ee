//! What holds of the file system across requests: each request keeps the
//! invariant, and the answers of later requests follow from earlier ones.
use vstd::prelude::*;
use crate::types::{Attr, FileKind, FsError, Timestamp, fresh_attr};
use crate::spec::{FsState, WriteOutcome, DirLine, lists_children, dot, dot_dot};
use crate::inode::{lemma_sorted_listing_unique, lemma_entry_in_map};

verus! {

/// `mkdir` keeps the invariant, whatever its answer.
pub proof fn lemma_mkdir_keeps_wf(s: FsState, parent: u64, name: Seq<char>, ts: Timestamp)
    requires
        s.wf(),
        s.next_inode < u64::MAX,
    ensures
        s.mkdir_state(parent, name, ts).wf(),
{
    let t = s.mkdir_state(parent, name, ts);
    let new = s.new_ino();
    if !s.nodes.contains_key(parent) || s.nodes[parent].children.contains_key(name) {
        assert forall|d: u64, k: Seq<char>| #[trigger] t.entry(d, k) == s.entry(d, k) by {}
    } else {
        assert forall|d: u64, k: Seq<char>| #[trigger]
            t.entry(d, k) == (if d == parent && k == name {
                Some(new)
            } else {
                s.entry(d, k)
            }) by {
            if d == new {
                assert(!s.nodes.contains_key(new));
            }
        }
        assert forall|d: u64, k: Seq<char>| #[trigger] s.entry(d, k) is Some implies s.entry(d, k)->0 != new by {
            assert(s.attrs.contains_key(s.entry(d, k)->0));
        }
    }
}

/// `create` keeps the invariant, whatever its answer.
pub proof fn lemma_create_keeps_wf(s: FsState, parent: u64, name: Seq<char>, ts: Timestamp)
    requires
        s.wf(),
        s.next_inode < u64::MAX,
    ensures
        s.create_state(parent, name, ts).wf(),
{
    let t = s.create_state(parent, name, ts);
    let new = s.new_ino();
    if !s.nodes.contains_key(parent) || s.nodes[parent].children.contains_key(name) {
        assert forall|d: u64, k: Seq<char>| #[trigger] t.entry(d, k) == s.entry(d, k) by {}
    } else {
        assert forall|d: u64, k: Seq<char>| #[trigger]
            t.entry(d, k) == (if d == parent && k == name {
                Some(new)
            } else {
                s.entry(d, k)
            }) by {
            if d == new {
                assert(!s.nodes.contains_key(new));
            }
        }
        assert forall|d: u64, k: Seq<char>| #[trigger] s.entry(d, k) is Some implies s.entry(d, k)->0 != new by {
            assert(s.attrs.contains_key(s.entry(d, k)->0));
        }
    }
}

/// Taking the entry `name` out of `parent` and the inode `x` it leads to out
/// of the table leaves only entries that were there, none at `(parent, name)`.
proof fn lemma_entries_after_removal(s: FsState, parent: u64, name: Seq<char>, x: u64, d: u64, k: Seq<char>)
    requires
        s.wf(),
        s.entry(parent, name) == Some(x),
    ensures
        ({
            let t = FsState { nodes: s.without_child(parent, name).remove(x), ..s };
            &&& t.entry(d, k) is Some ==> t.entry(d, k) == s.entry(d, k) && !(d == parent && k == name)
            &&& t.entry(d, k) is Some ==> t.entry(d, k)->0 != x
        }),
{
    let t = FsState { nodes: s.without_child(parent, name).remove(x), ..s };
    if t.entry(d, k) is Some {
        assert(t.entry(d, k) == s.entry(d, k));
        if t.entry(d, k)->0 == x {
            assert(s.entry(d, k) == s.entry(parent, name));
        }
    }
}

/// `unlink` keeps the invariant, whatever its answer.
pub proof fn lemma_unlink_keeps_wf(s: FsState, parent: u64, name: Seq<char>)
    requires
        s.wf(),
    ensures
        s.unlink_state(parent, name).wf(),
{
    let t = s.unlink_state(parent, name);
    if let Some(x) = s.entry(parent, name) {
        assert forall|d: u64, k: Seq<char>| #[trigger] t.entry(d, k) is Some implies t.entry(d, k)
            == s.entry(d, k) && t.entry(d, k)->0 != x by {
            lemma_entries_after_removal(s, parent, name, x, d, k);
        }
    }
}

/// `rmdir` keeps the invariant, whatever its answer.
pub proof fn lemma_rmdir_keeps_wf(s: FsState, parent: u64, name: Seq<char>)
    requires
        s.wf(),
    ensures
        s.rmdir_state(parent, name).wf(),
{
    let t = s.rmdir_state(parent, name);
    if let Some(x) = s.entry(parent, name) {
        if !s.rmdir_blocked(parent, name) {
            assert forall|d: u64, k: Seq<char>| #[trigger] t.entry(d, k) is Some implies t.entry(d, k)
                == s.entry(d, k) && t.entry(d, k)->0 != x by {
                lemma_entries_after_removal(s, parent, name, x, d, k);
            }
        }
    }
}

/// `rename` keeps the invariant, whatever its answer.
pub proof fn lemma_rename_keeps_wf(
    s: FsState,
    parent: u64,
    name: Seq<char>,
    newparent: u64,
    newname: Seq<char>,
)
    requires
        s.wf(),
    ensures
        s.rename_state(parent, name, newparent, newname).wf(),
{
    let t = s.rename_state(parent, name, newparent, newname);
    if s.nodes.contains_key(newparent) {
        if let Some(x) = s.entry(parent, name) {
            assert forall|d: u64, k: Seq<char>| #[trigger]
                t.entry(d, k) == (if d == newparent && k == newname {
                    Some(x)
                } else if d == parent && k == name {
                    None
                } else {
                    s.entry(d, k)
                }) by {}
            assert forall|d: u64, k: Seq<char>| #[trigger] s.entry(d, k) == Some(x) implies d == parent
                && k == name by {}
        }
    }
}

/// Changing attributes keeps the invariant.
pub proof fn lemma_setattr_keeps_wf(
    s: FsState,
    ino: u64,
    uid: Option<u32>,
    gid: Option<u32>,
    size: Option<u64>,
    atime: Option<Timestamp>,
    mtime: Option<Timestamp>,
    crtime: Option<Timestamp>,
)
    requires
        s.wf(),
    ensures
        s.setattr_state(ino, uid, gid, size, atime, mtime, crtime).wf(),
{
    let t = s.setattr_state(ino, uid, gid, size, atime, mtime, crtime);
    assert forall|d: u64, k: Seq<char>| #[trigger] t.entry(d, k) == s.entry(d, k) by {}
}

/// A write keeps the invariant.
pub proof fn lemma_write_keeps_wf(s: FsState, ino: u64, offset: i64, data: Seq<u8>, ts: Timestamp)
    requires
        s.wf(),
    ensures
        s.write_state(ino, offset, data, ts).wf(),
{
    let t = s.write_state(ino, offset, data, ts);
    assert forall|d: u64, k: Seq<char>| #[trigger] t.entry(d, k) == s.entry(d, k) by {}
}

/// A new file system holds the invariant, and its root is a directory with
/// no children that is its own parent.
pub proof fn lemma_initial_wf(size: u64, ts: Timestamp)
    ensures
        FsState::initial(size, ts).wf(),
        FsState::initial(size, ts).getattr(1) == Ok::<Attr, FsError>(
            fresh_attr(1, FileKind::Directory, 1, ts),
        ),
        FsState::initial(size, ts).nodes[1].parent == 1,
        FsState::initial(size, ts).nodes[1].children == Map::<Seq<char>, u64>::empty(),
{
    let s = FsState::initial(size, ts);
    assert forall|d: u64, k: Seq<char>| #[trigger] s.entry(d, k) is None by {}
}

/// After a write reaches a file, reading it from the same offset gives back
/// the written bytes first; when the write started at or past the end of the
/// file, or ran past it, the read gives back exactly those bytes.
pub proof fn lemma_write_then_read(s: FsState, ino: u64, offset: i64, data: Seq<u8>, ts: Timestamp)
    requires
        s.wf(),
        s.write_proceeds(ino),
        offset >= 0,
    ensures
        s.write_result(ino, offset, data) == WriteOutcome::Written((data.len() as u64) as u32),
        s.write_state(ino, offset, data, ts).read_safe(ino, offset),
        s.write_state(ino, offset, data, ts).read(ino, offset) matches Ok(r) && r.len() >= data.len()
            && r.subrange(0, data.len() as int) == data,
        (offset as usize) >= s.files[ino].data.len() || (offset as usize) + data.len()
            > s.files[ino].data.len() ==> s.write_state(
            ino,
            offset,
            data,
            ts,
        ).read(ino, offset) == Ok::<Seq<u8>, FsError>(data),
{
    let t = s.write_state(ino, offset, data, ts);
    let old = s.files[ino].data;
    let off = (offset as usize) as int;
    let nd = t.files[ino].data;
    if off >= old.len() {
        assert(nd.subrange(off, nd.len() as int) =~= data);
    } else if off + data.len() > old.len() {
        assert(nd.subrange(off, nd.len() as int) =~= data);
    } else {
        assert(nd.subrange(off, nd.len() as int).subrange(0, data.len() as int) =~= data);
    }
}

/// A write leaves every other file's bytes, every other inode's attributes
/// and the tree alone.
pub proof fn lemma_write_touches_one_file(
    s: FsState,
    ino: u64,
    offset: i64,
    data: Seq<u8>,
    ts: Timestamp,
    other: u64,
)
    requires
        other != ino,
    ensures
        s.write_state(ino, offset, data, ts).files.contains_key(other) == s.files.contains_key(other),
        s.files.contains_key(other) ==> s.write_state(ino, offset, data, ts).files[other]
            == s.files[other],
        s.write_state(ino, offset, data, ts).getattr(other) == s.getattr(other),
        s.write_state(ino, offset, data, ts).nodes == s.nodes,
{
}

/// A write that reaches a file stamps it with the time of the request and
/// records its new size, leaving every other attribute as it was.
pub proof fn lemma_write_then_getattr(s: FsState, ino: u64, offset: i64, data: Seq<u8>, ts: Timestamp)
    requires
        s.write_proceeds(ino),
    ensures
        s.write_state(ino, offset, data, ts).getattr(ino) == Ok::<Attr, FsError>(
            Attr {
                atime: ts,
                mtime: ts,
                size: s.write_state(ino, offset, data, ts).files[ino].data.len() as u64,
                ..s.attrs[ino]
            },
        ),
{
}

/// After `mkdir` makes a directory, looking its name up gives the attributes
/// that `mkdir` answered with: a directory under a number no inode had.
pub proof fn lemma_mkdir_then_lookup(s: FsState, parent: u64, name: Seq<char>, ts: Timestamp)
    requires
        s.wf(),
        s.next_inode < u64::MAX,
        s.mkdir_result(parent, name, ts) is Ok,
    ensures
        s.mkdir_state(parent, name, ts).lookup(parent, name) == s.mkdir_result(parent, name, ts),
        s.mkdir_result(parent, name, ts)->Ok_0.kind == FileKind::Directory,
        s.mkdir_result(parent, name, ts)->Ok_0.ino == s.new_ino(),
        !s.attrs.contains_key(s.new_ino()),
        !s.nodes.contains_key(s.new_ino()),
        !s.files.contains_key(s.new_ino()),
        s.mkdir_state(parent, name, ts).nodes[s.new_ino()].children == Map::<Seq<char>, u64>::empty(),
        s.mkdir_state(parent, name, ts).nodes[s.new_ino()].parent == parent,
        s.mkdir_state(parent, name, ts).files == s.files,
        s.mkdir_state(parent, name, ts).fs_size == s.fs_size,
        s.mkdir_state(parent, name, ts).next_inode == s.new_ino(),
        forall|i: u64| #[trigger] s.attrs.contains_key(i) ==> s.mkdir_state(parent, name, ts).attrs.contains_key(i)
            && s.mkdir_state(parent, name, ts).attrs[i] == s.attrs[i],
        forall|i: u64| #[trigger] s.nodes.contains_key(i) && i != parent ==> s.mkdir_state(parent, name, ts).nodes.contains_key(i)
            && s.mkdir_state(parent, name, ts).nodes[i] == s.nodes[i],
        s.mkdir_state(parent, name, ts).nodes[parent].children == s.nodes[parent].children.insert(name, s.new_ino()),
{
    lemma_new_ino_unused(s);
}

/// The number a request would hand out is in use nowhere.
proof fn lemma_new_ino_unused(s: FsState)
    requires
        s.wf(),
        s.next_inode < u64::MAX,
    ensures
        !s.attrs.contains_key(s.new_ino()),
        !s.nodes.contains_key(s.new_ino()),
        !s.files.contains_key(s.new_ino()),
{
    if s.attrs.contains_key(s.new_ino()) {
    }
    if s.nodes.contains_key(s.new_ino()) {
    }
    if s.files.contains_key(s.new_ino()) {
    }
}

/// A directory just made lists only itself and its parent.
pub proof fn lemma_mkdir_then_readdir(s: FsState, parent: u64, name: Seq<char>, ts: Timestamp, l: Seq<(Seq<char>, u64)>)
    requires
        s.wf(),
        s.next_inode < u64::MAX,
        s.mkdir_result(parent, name, ts) is Ok,
        lists_children(l, s.mkdir_state(parent, name, ts).nodes[s.new_ino()].children),
    ensures
        s.mkdir_state(parent, name, ts).all_lines(s.new_ino(), l) == seq![
            (s.new_ino(), FileKind::Directory, dot()),
            (parent, FileKind::Directory, dot_dot()),
        ],
{
    lemma_new_ino_unused(s);
    assert(crate::inode::entries_map(Seq::<(Seq<char>, u64)>::empty()) =~= Map::<Seq<char>, u64>::empty());
    lemma_sorted_listing_unique(l, Seq::empty());
    assert(s.mkdir_state(parent, name, ts).all_lines(s.new_ino(), l) =~= seq![
        (s.new_ino(), FileKind::Directory, dot()),
        (parent, FileKind::Directory, dot_dot()),
    ]);
}

/// `mkdir` refuses a name that is taken, and then only hands out a number.
pub proof fn lemma_mkdir_existing(s: FsState, parent: u64, name: Seq<char>, ts: Timestamp)
    requires
        s.nodes.contains_key(parent),
        s.nodes[parent].children.contains_key(name),
    ensures
        s.mkdir_result(parent, name, ts) == Err::<Attr, FsError>(FsError::AlreadyExists),
        s.mkdir_state(parent, name, ts) == s.bump(),
{
}

/// Where `parent` exists, looking `name` up after `create` gives what
/// `create` answered: the new file, or the inode that already had the name,
/// now with its access and modification times set to the time of the request.
pub proof fn lemma_create_then_lookup(s: FsState, parent: u64, name: Seq<char>, ts: Timestamp)
    requires
        s.wf(),
        s.next_inode < u64::MAX,
        s.nodes.contains_key(parent),
    ensures
        s.create_state(parent, name, ts).lookup(parent, name) == s.create_result(parent, name, ts),
        s.nodes[parent].children.contains_key(name) ==> {
            let x = s.nodes[parent].children[name];
            let t = s.create_state(parent, name, ts);
            &&& s.create_result(parent, name, ts) matches Ok(a) && a.atime == ts && a.mtime == ts
                && a == Attr { atime: ts, mtime: ts, ..s.attrs[x] }
            &&& t.nodes == s.nodes
            &&& t.files == s.files
            &&& t.fs_size == s.fs_size
            &&& t.attrs == s.attrs.insert(x, Attr { atime: ts, mtime: ts, ..s.attrs[x] })
            &&& t.next_inode == s.next_inode + 1
        },
        !s.nodes[parent].children.contains_key(name) ==> {
            &&& s.create_result(parent, name, ts) == Ok::<Attr, FsError>(
                fresh_attr(s.new_ino(), FileKind::RegularFile, 0, ts),
            )
            &&& !s.attrs.contains_key(s.new_ino())
            &&& !s.files.contains_key(s.new_ino())
            &&& s.create_state(parent, name, ts).read(s.new_ino(), 0) == Ok::<Seq<u8>, FsError>(
                Seq::empty(),
            )
        },
{
    lemma_new_ino_unused(s);
    let t = s.create_state(parent, name, ts);
    if s.nodes[parent].children.contains_key(name) {
        assert(s.entry(parent, name) is Some);
        assert(s.attrs.contains_key(s.entry(parent, name)->0));
        assert(t.entry(parent, name) == s.entry(parent, name));
    } else {
        assert(t.files[s.new_ino()].data.subrange(0, 0) =~= Seq::<u8>::empty());
    }
}

/// Making a file and then unlinking it gives back the state as it was, but
/// for the inode number handed out.
pub proof fn lemma_create_then_unlink(s: FsState, parent: u64, name: Seq<char>, ts: Timestamp)
    requires
        s.wf(),
        s.next_inode < u64::MAX,
        s.nodes.contains_key(parent),
        !s.nodes[parent].children.contains_key(name),
    ensures
        s.create_state(parent, name, ts).unlink_result(parent, name) == Ok::<(), FsError>(()),
        s.create_state(parent, name, ts).unlink_state(parent, name) == s.bump(),
{
    lemma_new_ino_unused(s);
    let t = s.create_state(parent, name, ts);
    let u = t.unlink_state(parent, name);
    assert(t.entry(parent, name) == Some(s.new_ino()));
    assert(u.attrs =~= s.attrs);
    assert(u.files =~= s.files);
    assert(t.nodes[parent].children.remove(name) =~= s.nodes[parent].children);
    assert(u.nodes =~= s.nodes);
    assert(u =~= s.bump());
}

/// After `unlink` succeeds where `parent` exists, the name is gone.
pub proof fn lemma_unlink_then_lookup(s: FsState, parent: u64, name: Seq<char>)
    requires
        s.wf(),
        s.nodes.contains_key(parent),
        s.unlink_result(parent, name) is Ok,
    ensures
        s.unlink_state(parent, name).lookup(parent, name) == Err::<Attr, FsError>(FsError::NotFound),
{
    let x = s.entry(parent, name)->0;
    if x == parent {
        assert(!s.unlink_state(parent, name).nodes.contains_key(parent));
    }
}

/// `rmdir` of a directory that has children changes nothing and says so.
pub proof fn lemma_rmdir_not_empty(s: FsState, parent: u64, name: Seq<char>)
    requires
        s.rmdir_blocked(parent, name),
    ensures
        s.rmdir_state(parent, name) == s,
        s.rmdir_result(parent, name) == Err::<(), FsError>(FsError::NotEmpty),
{
}

/// After `rmdir` succeeds where `parent` exists, the name is gone, and so
/// are the inode it led to and that inode's attributes.
pub proof fn lemma_rmdir_then_lookup(s: FsState, parent: u64, name: Seq<char>)
    requires
        s.wf(),
        s.nodes.contains_key(parent),
        s.rmdir_result(parent, name) is Ok,
    ensures
        s.rmdir_state(parent, name).lookup(parent, name) == Err::<Attr, FsError>(FsError::NotFound),
        !s.rmdir_state(parent, name).nodes.contains_key(s.entry(parent, name)->0),
        s.nodes.contains_key(s.entry(parent, name)->0) ==> !s.rmdir_state(
            parent,
            name,
        ).attrs.contains_key(s.entry(parent, name)->0),
{
}

/// After `rename` where both directories exist and `name` does, the new
/// name leads where the old one led, and the old one, if it differs, is gone.
pub proof fn lemma_rename_then_lookup(
    s: FsState,
    parent: u64,
    name: Seq<char>,
    newparent: u64,
    newname: Seq<char>,
)
    requires
        s.wf(),
        s.nodes.contains_key(newparent),
        s.entry(parent, name) is Some,
    ensures
        s.rename_result(parent, name, newparent, newname) == Ok::<(), FsError>(()),
        s.rename_state(parent, name, newparent, newname).entry(newparent, newname) == s.entry(
            parent,
            name,
        ),
        s.rename_state(parent, name, newparent, newname).lookup(newparent, newname) == s.lookup(
            parent,
            name,
        ),
        !(parent == newparent && name == newname) ==> s.rename_state(
            parent,
            name,
            newparent,
            newname,
        ).entry(parent, name) is None,
{
}

/// After changing attributes, asking for them gives what the change
/// answered.
pub proof fn lemma_setattr_then_getattr(
    s: FsState,
    ino: u64,
    uid: Option<u32>,
    gid: Option<u32>,
    size: Option<u64>,
    atime: Option<Timestamp>,
    mtime: Option<Timestamp>,
    crtime: Option<Timestamp>,
)
    ensures
        s.setattr_state(ino, uid, gid, size, atime, mtime, crtime).getattr(ino) == s.setattr_result(
            ino,
            uid,
            gid,
            size,
            atime,
            mtime,
            crtime,
        ),
{
}

/// Setting the size of a regular file cuts its bytes to at most that many:
/// what is left is the first bytes of the file, as many as the size or as
/// there were, whichever is fewer; the attributes record the size given.
pub proof fn lemma_setattr_size_then_read(s: FsState, ino: u64, new_size: u64, uid: Option<u32>, gid: Option<u32>)
    requires
        s.files.contains_key(ino),
        s.attrs.contains_key(ino),
    ensures
        s.setattr_state(ino, uid, gid, Some(new_size), None, None, None).read(ino, 0) matches Ok(r) && {
            let old = s.files[ino].data;
            let n = (new_size as usize) as int;
            &&& r.len() == (if n < old.len() { n } else { old.len() as int })
            &&& forall|i: int| 0 <= i < r.len() ==> #[trigger] r[i] == old[i]
        },
        s.setattr_state(ino, uid, gid, Some(new_size), None, None, None).getattr(ino) matches Ok(a)
            && a.size == new_size,
{
    let t = s.setattr_state(ino, uid, gid, Some(new_size), None, None, None);
    let d = t.files[ino].data;
    assert(d.subrange(0, d.len() as int) =~= d);
}

/// The listing of a directory's children is determined by the children:
/// there is one sorted listing for each map of names.
pub proof fn lemma_listing_unique(
    l1: Seq<(Seq<char>, u64)>,
    l2: Seq<(Seq<char>, u64)>,
    children: Map<Seq<char>, u64>,
)
    requires
        lists_children(l1, children),
        lists_children(l2, children),
    ensures
        l1 == l2,
{
    lemma_sorted_listing_unique(l1, l2);
}

/// Each request that makes an inode hands out a number above every number
/// in use, whether or not it makes the inode.
pub proof fn lemma_inode_numbers_grow(s: FsState, parent: u64, name: Seq<char>, ts: Timestamp)
    requires
        s.wf(),
        s.next_inode < u64::MAX,
    ensures
        s.mkdir_state(parent, name, ts).next_inode == s.next_inode + 1,
        s.create_state(parent, name, ts).next_inode == s.next_inode + 1,
        forall|i: u64| #[trigger] s.attrs.contains_key(i) ==> i < s.new_ino(),
        forall|i: u64| #[trigger] s.nodes.contains_key(i) ==> i < s.new_ino(),
{
}

/// Every line of a directory listing, from any offset, reports the entry at
/// its position: position 0 is the directory itself, position 1 its parent,
/// and each later position one child, with the inode number and kind of the
/// attributes of the inode that the child's name leads to. Each line carries
/// its own position as its offset, and the listing from a nonzero offset is
/// the listing from offset 0 without its first `offset + 1` lines.
pub proof fn lemma_readdir_lines(s: FsState, ino: u64, l: Seq<(Seq<char>, u64)>, offset: i64)
    requires
        s.wf(),
        s.nodes.contains_key(ino),
        lists_children(l, s.nodes[ino].children),
    ensures
        ({
            let skip = FsState::skip_for(offset) as int;
            let lines = FsState::lines_from(s.all_lines(ino, l), FsState::skip_for(offset));
            let all = FsState::lines_from(s.all_lines(ino, l), 0);
            &&& all.len() == l.len() + 2
            &&& lines.len() == (if skip >= l.len() + 2 { 0 } else { l.len() + 2 - skip })
            &&& forall|j: int| 0 <= j < lines.len() ==> #[trigger] lines[j] == all[skip + j]
            &&& forall|j: int| 0 <= j < lines.len() ==> (#[trigger] lines[j]).offset == (skip + j) as i64
            &&& forall|j: int| 0 <= j < all.len() ==> (#[trigger] all[j]).offset == j as i64
            &&& all[0] == DirLine { ino, offset: 0, kind: FileKind::Directory, name: dot() }
            &&& all[1] == DirLine {
                ino: s.nodes[ino].parent,
                offset: 1,
                kind: FileKind::Directory,
                name: dot_dot(),
            }
            &&& forall|j: int| 2 <= j < all.len() ==> {
                let k = (#[trigger] all[j]).name;
                &&& k == l[j - 2].0
                &&& s.nodes[ino].children.contains_key(k)
                &&& s.attrs.contains_key(s.nodes[ino].children[k])
                &&& all[j].ino == s.attrs[s.nodes[ino].children[k]].ino
                &&& all[j].kind == s.attrs[s.nodes[ino].children[k]].kind
            }
            &&& forall|k: Seq<char>| #[trigger] s.nodes[ino].children.contains_key(k) ==> exists|j: int|
                2 <= j < all.len() && (#[trigger] all[j]).name == k
        }),
{
    let skip = FsState::skip_for(offset) as int;
    let lines = FsState::lines_from(s.all_lines(ino, l), FsState::skip_for(offset));
    let all = FsState::lines_from(s.all_lines(ino, l), 0);
    let full = s.all_lines(ino, l);
    assert(full.len() == l.len() + 2);
    assert forall|j: int| 2 <= j < all.len() implies {
        let k = (#[trigger] all[j]).name;
        &&& k == l[j - 2].0
        &&& s.nodes[ino].children.contains_key(k)
        &&& s.attrs.contains_key(s.nodes[ino].children[k])
        &&& all[j].ino == s.attrs[s.nodes[ino].children[k]].ino
        &&& all[j].kind == s.attrs[s.nodes[ino].children[k]].kind
    } by {
        lemma_entry_in_map(l, j - 2);
        assert(full[j] == (s.attrs[l[j - 2].1].ino, s.attrs[l[j - 2].1].kind, l[j - 2].0));
        assert(s.entry(ino, l[j - 2].0) == Some(l[j - 2].1));
    }
    assert forall|k: Seq<char>| #[trigger] s.nodes[ino].children.contains_key(k) implies exists|j: int|
        2 <= j < all.len() && (#[trigger] all[j]).name == k by {
        let i = choose|i: int| 0 <= i < l.len() && l[i].0 == k;
        assert(full[i + 2].2 == l[i].0);
        assert(all[i + 2].name == k);
    }
    assert(full[0] == (ino, FileKind::Directory, dot()));
    assert(full[1] == (s.nodes[ino].parent, FileKind::Directory, dot_dot()));
}

/// How a write moves the count of bytes: a write of any length but 4096
/// adds the file's new length the first time the file is counted, and the
/// new length less the length counted last time after that, and records the
/// new length as counted; a write of exactly 4096 bytes leaves the count and
/// the record alone. A write is refused as over capacity exactly when the
/// file exists and the count, read as unsigned, is above the limit.
pub proof fn lemma_write_counts_size(s: FsState, ino: u64, offset: i64, data: Seq<u8>, ts: Timestamp)
    requires
        s.wf(),
        s.write_safe(ino, offset, data),
    ensures
        (s.write_result(ino, offset, data) == WriteOutcome::OverCapacity) <==> (s.files.contains_key(ino)
            && s.attrs.contains_key(ino) && (s.fs_size as u64) > s.fs_max_size),
        (s.write_result(ino, offset, data) is Written) <==> s.write_proceeds(ino),
        s.write_proceeds(ino) ==> {
            let t = s.write_state(ino, offset, data, ts);
            let n = (t.files[ino].data.len() as u64) as i64;
            &&& data.len() != 4096 ==> {
                &&& !s.files[ino].is_updated ==> t.fs_size == s.fs_size + n
                &&& s.files[ino].is_updated ==> t.fs_size == s.fs_size + (n - s.files[ino].old_size)
                &&& t.files[ino].is_updated
                &&& t.files[ino].old_size == n
            }
            &&& data.len() == 4096 ==> {
                &&& t.fs_size == s.fs_size
                &&& t.files[ino].is_updated == s.files[ino].is_updated
                &&& t.files[ino].old_size == s.files[ino].old_size
            }
        },
        !s.write_proceeds(ino) ==> s.write_state(ino, offset, data, ts) == s,
{
}

/// A write keeps the bytes ahead of its offset, fills any gap past the old
/// end with zeros and puts the data at the offset. Where it starts at or past
/// the end, or runs past it, the file ends with the data; where it lies
/// inside the file, the bytes that were from the offset on follow the data.
pub proof fn lemma_write_keeps_prefix(s: FsState, ino: u64, offset: i64, data: Seq<u8>, ts: Timestamp)
    requires
        s.write_proceeds(ino),
        offset >= 0,
    ensures
        ({
            let old = s.files[ino].data;
            let nd = s.write_state(ino, offset, data, ts).files[ino].data;
            let off = (offset as usize) as int;
            &&& nd.len() >= off + data.len()
            &&& nd.len() >= old.len()
            &&& forall|i: int| 0 <= i < off && i < old.len() ==> #[trigger] nd[i] == old[i]
            &&& forall|i: int| old.len() <= i < off ==> #[trigger] nd[i] == 0u8
            &&& forall|i: int| 0 <= i < data.len() ==> #[trigger] nd[off + i] == data[i]
            &&& (off >= old.len() || off + data.len() > old.len()) ==> nd.len() == off + data.len()
            &&& (off < old.len() && off + data.len() <= old.len()) ==> {
                &&& nd.len() == old.len() + data.len()
                &&& forall|i: int| off <= i < old.len() ==> #[trigger] nd[i + data.len()] == old[i]
            }
        }),
{
}

/// Changing attributes sets exactly the fields given and leaves every other
/// field, every other inode's attributes, the tree and the count alone; a
/// new size is recorded only for a regular file's inode, whose bytes it cuts.
pub proof fn lemma_setattr_fields(
    s: FsState,
    ino: u64,
    uid: Option<u32>,
    gid: Option<u32>,
    size: Option<u64>,
    atime: Option<Timestamp>,
    mtime: Option<Timestamp>,
    crtime: Option<Timestamp>,
)
    requires
        s.attrs.contains_key(ino),
    ensures
        ({
            let old = s.attrs[ino];
            let t = s.setattr_state(ino, uid, gid, size, atime, mtime, crtime);
            &&& s.setattr_result(ino, uid, gid, size, atime, mtime, crtime) matches Ok(a) && {
                &&& a.uid == (if let Some(u) = uid { u } else { old.uid })
                &&& a.gid == (if let Some(g) = gid { g } else { old.gid })
                &&& a.atime == (if let Some(x) = atime { x } else { old.atime })
                &&& a.mtime == (if let Some(x) = mtime { x } else { old.mtime })
                &&& a.crtime == (if let Some(x) = crtime { x } else { old.crtime })
                &&& a.size == (if size is Some && s.files.contains_key(ino) { size->0 } else { old.size })
                &&& a.ino == old.ino
                &&& a.blocks == old.blocks
                &&& a.ctime == old.ctime
                &&& a.kind == old.kind
                &&& a.perm == old.perm
                &&& a.nlink == old.nlink
                &&& a.rdev == old.rdev
                &&& a.flags == old.flags
                &&& t.attrs[ino] == a
            }
            &&& forall|i: u64| i != ino ==> #[trigger] t.attrs.contains_key(i) == s.attrs.contains_key(i)
                && t.attrs[i] == s.attrs[i]
            &&& t.attrs.contains_key(ino)
            &&& t.nodes == s.nodes
            &&& t.fs_size == s.fs_size
            &&& t.next_inode == s.next_inode
            &&& t.files.dom() == s.files.dom()
            &&& forall|i: u64| i != ino ==> #[trigger] t.files[i] == s.files[i]
            &&& (size is None || !s.files.contains_key(ino)) ==> t.files == s.files
        }),
{
    let t = s.setattr_state(ino, uid, gid, size, atime, mtime, crtime);
    assert(t.files.dom() =~= s.files.dom());
}

/// Asking for attributes of an inode that has none changes nothing.
pub proof fn lemma_setattr_missing(
    s: FsState,
    ino: u64,
    uid: Option<u32>,
    gid: Option<u32>,
    size: Option<u64>,
    atime: Option<Timestamp>,
    mtime: Option<Timestamp>,
    crtime: Option<Timestamp>,
)
    requires
        !s.attrs.contains_key(ino),
    ensures
        s.setattr_state(ino, uid, gid, size, atime, mtime, crtime) == s,
        s.setattr_result(ino, uid, gid, size, atime, mtime, crtime) == Err::<Attr, FsError>(FsError::NotFound),
{
}

/// `rename` changes no entry but the two it names: every other entry leads
/// where it led before. The tables of attributes and files, the count and the
/// inodes that exist stay as they are; where it moves nothing, nothing changes.
pub proof fn lemma_rename_frame(
    s: FsState,
    parent: u64,
    name: Seq<char>,
    newparent: u64,
    newname: Seq<char>,
)
    requires
        s.wf(),
    ensures
        ({
            let t = s.rename_state(parent, name, newparent, newname);
            &&& forall|d: u64, k: Seq<char>|
                !(d == parent && k == name) && !(d == newparent && k == newname) ==> #[trigger] t.entry(d, k)
                    == s.entry(d, k)
            &&& t.attrs == s.attrs
            &&& t.files == s.files
            &&& t.fs_size == s.fs_size
            &&& t.next_inode == s.next_inode
            &&& t.nodes.dom() == s.nodes.dom()
            &&& forall|d: u64| #[trigger] t.nodes.contains_key(d) ==> t.nodes[d].parent == s.nodes[d].parent
                && t.nodes[d].name == s.nodes[d].name
            &&& (!s.nodes.contains_key(newparent) || s.entry(parent, name) is None) ==> t == s
        }),
{
    let t = s.rename_state(parent, name, newparent, newname);
    if s.nodes.contains_key(newparent) && s.entry(parent, name) is Some {
        assert(t.nodes.dom() =~= s.nodes.dom());
    }
}

/// A successful `rmdir` takes out only the named entry: every other entry
/// leads where it led before. The inode it led to goes from the table of
/// inodes and, where it was there, from the attributes; files, the count and
/// every other inode's attributes stay as they are.
pub proof fn lemma_rmdir_frame(s: FsState, parent: u64, name: Seq<char>)
    requires
        s.wf(),
        s.entry(parent, name) is Some,
        !s.rmdir_blocked(parent, name),
    ensures
        ({
            let t = s.rmdir_state(parent, name);
            let x = s.entry(parent, name)->0;
            &&& forall|d: u64, k: Seq<char>| !(d == parent && k == name) ==> #[trigger] t.entry(d, k)
                == s.entry(d, k)
            &&& t.entry(parent, name) is None
            &&& t.files == s.files
            &&& t.fs_size == s.fs_size
            &&& t.next_inode == s.next_inode
            &&& forall|i: u64| i != x ==> #[trigger] t.attrs.contains_key(i) == s.attrs.contains_key(i)
                && t.attrs[i] == s.attrs[i]
            &&& !t.nodes.contains_key(x)
            &&& forall|d: u64| d != x ==> #[trigger] t.nodes.contains_key(d) == s.nodes.contains_key(d)
        }),
{
    let t = s.rmdir_state(parent, name);
    let x = s.entry(parent, name)->0;
    assert forall|d: u64, k: Seq<char>| !(d == parent && k == name) implies #[trigger] t.entry(d, k)
        == s.entry(d, k) by {
        if d == x {
            if s.nodes.contains_key(x) && s.nodes[x].children.contains_key(k) {
                assert(s.rmdir_blocked(parent, name));
            }
        }
    }
}

/// A successful `unlink` takes out only the named entry and the entries of
/// the inode it led to: every other entry leads where it led before.
/// Every other inode's attributes and bytes stay as they are.
pub proof fn lemma_unlink_frame(s: FsState, parent: u64, name: Seq<char>)
    requires
        s.wf(),
        s.unlink_fits(parent, name),
        s.entry(parent, name) is Some,
    ensures
        ({
            let t = s.unlink_state(parent, name);
            let x = s.entry(parent, name)->0;
            &&& forall|d: u64, k: Seq<char>| !(d == parent && k == name) && d != x ==> #[trigger] t.entry(d, k)
                == s.entry(d, k)
            &&& t.entry(parent, name) is None
            &&& !t.nodes.contains_key(x)
            &&& !t.attrs.contains_key(x)
            &&& t.fs_size == s.fs_size - (s.attrs[x].size as i64)
            &&& forall|i: u64| i != x ==> #[trigger] t.attrs.contains_key(i) == s.attrs.contains_key(i)
                && t.attrs[i] == s.attrs[i]
            &&& forall|i: u64| i != x ==> #[trigger] t.files.contains_key(i) == s.files.contains_key(i)
                && t.files[i] == s.files[i]
            &&& s.attrs[x].kind == FileKind::RegularFile ==> !t.files.contains_key(x)
        }),
{
    let x = s.entry(parent, name)->0;
    let t = s.unlink_state(parent, name);
    assert(s.attrs.contains_key(x));
    assert forall|d: u64, k: Seq<char>| !(d == parent && k == name) && d != x implies #[trigger] t.entry(d, k)
        == s.entry(d, k) by {}
    assert forall|i: u64| i != x implies #[trigger] t.attrs.contains_key(i) == s.attrs.contains_key(i)
        && t.attrs[i] == s.attrs[i] by {}
    assert forall|i: u64| i != x implies #[trigger] t.files.contains_key(i) == s.files.contains_key(i)
        && t.files[i] == s.files[i] by {}
}

/// `mkdir` and `create` add only the named entry: every other entry leads
/// where it led before, and no old inode's attributes change, but for the
/// times of the inode that `create` finds under a name that is taken.
pub proof fn lemma_make_frame(s: FsState, parent: u64, name: Seq<char>, ts: Timestamp)
    requires
        s.wf(),
        s.next_inode < u64::MAX,
    ensures
        forall|d: u64, k: Seq<char>| !(d == parent && k == name) ==> #[trigger] s.mkdir_state(parent, name, ts).entry(d, k)
            == s.entry(d, k),
        forall|d: u64, k: Seq<char>| !(d == parent && k == name) ==> #[trigger] s.create_state(parent, name, ts).entry(d, k)
            == s.entry(d, k),
        s.mkdir_state(parent, name, ts).entry(parent, name) == (if s.nodes.contains_key(parent) {
            if s.entry(parent, name) is Some { s.entry(parent, name) } else { Some(s.new_ino()) }
        } else {
            None::<u64>
        }),
        s.create_state(parent, name, ts).entry(parent, name) == (if s.nodes.contains_key(parent) {
            if s.entry(parent, name) is Some { s.entry(parent, name) } else { Some(s.new_ino()) }
        } else {
            None::<u64>
        }),
        forall|i: u64| #[trigger] s.attrs.contains_key(i) ==> s.mkdir_state(parent, name, ts).attrs[i] == s.attrs[i],
        forall|i: u64| #[trigger] s.attrs.contains_key(i) && Some(i) != s.entry(parent, name) ==> s.create_state(parent, name, ts).attrs[i] == s.attrs[i],
        forall|i: u64| #[trigger] s.files.contains_key(i) ==> s.create_state(parent, name, ts).files[i] == s.files[i],
        s.mkdir_state(parent, name, ts).fs_size == s.fs_size,
        s.create_state(parent, name, ts).fs_size == s.fs_size,
{
    lemma_new_ino_unused(s);
    let m = s.mkdir_state(parent, name, ts);
    let c = s.create_state(parent, name, ts);
    assert forall|d: u64, k: Seq<char>| !(d == parent && k == name) implies #[trigger] m.entry(d, k)
        == s.entry(d, k) by {
        if d == s.new_ino() {
            assert(!s.nodes.contains_key(d));
        }
    }
    assert forall|d: u64, k: Seq<char>| !(d == parent && k == name) implies #[trigger] c.entry(d, k)
        == s.entry(d, k) by {
        if d == s.new_ino() {
            assert(!s.nodes.contains_key(d));
        }
    }
    assert forall|i: u64| #[trigger] s.attrs.contains_key(i) implies m.attrs[i] == s.attrs[i] by {
        assert(i != s.new_ino());
    }
    assert forall|i: u64| #[trigger] s.attrs.contains_key(i) && Some(i) != s.entry(parent, name) implies c.attrs[i] == s.attrs[i] by {
        assert(i != s.new_ino());
    }
    assert forall|i: u64| #[trigger] s.files.contains_key(i) implies c.files[i] == s.files[i] by {
        assert(i != s.new_ino());
    }
}

} // verus!
