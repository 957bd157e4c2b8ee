//! The contents of a regular file and the bookkeeping of its size.
use vstd::prelude::*;

verus! {

/// The abstract value of a file.
pub struct FileView {
    pub data: Seq<u8>,
    pub is_updated: bool,
    pub old_size: i64,
}

/// `n` zero bytes.
pub open spec fn zeros(n: int) -> Seq<u8> {
    Seq::new(n as nat, |i: int| 0u8)
}

/// The bytes of a file after `d` was written at offset `off`:
/// past the end, the gap is filled with zeros and `d` is appended;
/// when `d` runs past the end, it replaces everything from `off` on;
/// otherwise `d` is put in at `off`, ahead of the bytes that were there.
pub open spec fn written_data(old: Seq<u8>, off: int, d: Seq<u8>) -> Seq<u8> {
    if off >= old.len() {
        old + zeros(off - old.len()) + d
    } else if off + d.len() > old.len() {
        old.subrange(0, off) + d
    } else {
        old.subrange(0, off) + d + old.subrange(off, old.len() as int)
    }
}

/// The bytes of a file cut to at most `size` of them.
pub open spec fn truncated_data(old: Seq<u8>, size: int) -> Seq<u8> {
    if size < old.len() {
        old.subrange(0, size)
    } else {
        old
    }
}

/// A regular file: its bytes, whether its size has been counted in the
/// file system's total, and the size that was counted.
#[derive(Debug, Clone)]
pub struct File {
    data: Vec<u8>,
    is_updated: bool,
    old_size: i64,
}

impl View for File {
    type V = FileView;

    closed spec fn view(&self) -> FileView {
        FileView { data: self.data@, is_updated: self.is_updated, old_size: self.old_size }
    }
}

impl Default for File {
    fn default() -> (f: File)
        ensures
            f@.data == Seq::<u8>::empty(),
            !f@.is_updated,
            f@.old_size == 0,
    {
        File::new_file()
    }
}

impl File {
    /// An empty file whose size has not been counted yet.
    pub fn new_file() -> (f: File)
        ensures
            f@.data == Seq::<u8>::empty(),
            !f@.is_updated,
            f@.old_size == 0,
    {
        File { data: Vec::new(), is_updated: false, old_size: 0 }
    }

    /// The number of bytes in the file.
    pub fn get_file_size(&self) -> (n: u64)
        ensures
            n == self@.data.len(),
    {
        self.data.len() as u64
    }

    /// Whether the file's size has been counted.
    pub fn is_updated(&self) -> (r: bool)
        ensures
            r == self@.is_updated,
    {
        self.is_updated
    }

    /// The size that was last counted.
    pub fn old_size(&self) -> (r: i64)
        ensures
            r == self@.old_size,
    {
        self.old_size
    }

    /// Records that `size` has been counted for this file.
    pub fn record_counted_size(&mut self, size: i64)
        ensures
            final(self)@.data == old(self)@.data,
            final(self)@.is_updated,
            final(self)@.old_size == size,
    {
        self.is_updated = true;
        self.old_size = size;
    }

    /// The bytes from `offset` on.
    pub fn bytes_from(&self, offset: usize) -> (r: Vec<u8>)
        requires
            offset <= self@.data.len(),
        ensures
            r@ == self@.data.subrange(offset as int, self@.data.len() as int),
    {
        let mut r: Vec<u8> = Vec::new();
        let n = self.data.len();
        let mut i: usize = offset;
        while i < n
            invariant
                n == self@.data.len(),
                offset <= i <= n,
                r@ == self@.data.subrange(offset as int, i as int),
            decreases n - i,
        {
            r.push(self.data[i]);
            assert(r@ =~= self@.data.subrange(offset as int, i + 1));
            i = i + 1;
        }
        r
    }

    /// Writes `append_data` at `offset` as [`written_data`] describes, and
    /// gives back the number of bytes written.
    pub fn update_file(&mut self, offset: i64, append_data: &[u8]) -> (n: u64)
        requires
            offset >= 0,
        ensures
            final(self)@.data == written_data(
                old(self)@.data,
                (offset as usize) as int,
                append_data@,
            ),
            final(self)@.is_updated == old(self)@.is_updated,
            final(self)@.old_size == old(self)@.old_size,
            n == append_data@.len(),
    {
        let offset: usize = offset as usize;
        let ghost old_data = self.data@;
        if offset >= self.data.len() {
            self.data.resize(offset, 0u8);
            assert(self.data@ =~= old_data + zeros(offset - old_data.len()));
            self.data.extend_from_slice(append_data);
            assert(self.data@ =~= old_data + zeros(offset - old_data.len()) + append_data@);
        } else if append_data.len() > self.data.len() - offset {
            self.data.truncate(offset);
            self.data.extend_from_slice(append_data);
            assert(self.data@ =~= old_data.subrange(0, offset as int) + append_data@);
        } else {
            let mut tail = self.data.split_off(offset);
            self.data.extend_from_slice(append_data);
            self.data.append(&mut tail);
            assert(self.data@ =~= old_data.subrange(0, offset as int) + append_data@
                + old_data.subrange(offset as int, old_data.len() as int));
        }
        append_data.len() as u64
    }

    /// Keeps the first `size` bytes and drops the rest.
    pub fn truncate_bytes(&mut self, size: u64)
        ensures
            final(self)@.data == truncated_data(old(self)@.data, (size as usize) as int),
            final(self)@.is_updated == old(self)@.is_updated,
            final(self)@.old_size == old(self)@.old_size,
    {
        self.data.truncate(size as usize);
    }
}

} // verus!
