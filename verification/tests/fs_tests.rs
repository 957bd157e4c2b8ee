use tmpfs::fs::TmpFS;
use tmpfs::spec::WriteOutcome;
use tmpfs::types::{Attr, FileKind, FsError, Timestamp, DEFAULT_PERM};

fn ts(sec: i64) -> Timestamp {
    Timestamp::new(sec, 0)
}

fn fresh(size: u64) -> TmpFS {
    TmpFS::new_at(size, ts(100))
}

#[test]
fn root_attributes() {
    let fs = fresh(1000);
    let a = fs.getattr(1).unwrap();
    assert_eq!(a.ino, 1);
    assert_eq!(a.kind, FileKind::Directory);
    assert_eq!(a.blocks, 1);
    assert_eq!(a.size, 0);
    assert_eq!(a.perm, 0o755);
    assert_eq!(a.perm, DEFAULT_PERM);
    assert_eq!(a.atime, ts(100));
    assert_eq!(a.crtime, ts(100));
    assert_eq!(fs.next_inode(), 2);
    assert_eq!(fs.fs_size(), 0);
    assert_eq!(fs.fs_max_size(), 1000);
    assert!(fs.has_inode(1));
    assert_eq!(fs.getattr(2), Err(FsError::NotFound));
}

#[test]
fn new_reads_the_clock() {
    let fs = TmpFS::new(5);
    let a = fs.getattr(1).unwrap();
    assert!(a.atime.nsec >= 0 && a.atime.nsec < 1_000_000_000);
    assert!(a.atime.sec > 0);
}

#[test]
fn mkdir_then_lookup() {
    let mut fs = fresh(1000);
    let a = fs.mkdir_at(1, "docs", ts(5)).unwrap();
    assert_eq!(a.ino, 3);
    assert_eq!(a.kind, FileKind::Directory);
    assert_eq!(a.blocks, 0);
    assert_eq!(a.mtime, ts(5));
    assert_eq!(fs.lookup(1, "docs"), Ok(a));
    assert_eq!(fs.lookup(1, "other"), Err(FsError::NotFound));
    assert_eq!(fs.lookup(99, "docs"), Err(FsError::NotFound));
}

#[test]
fn mkdir_errors_still_use_an_inode_number() {
    let mut fs = fresh(1000);
    fs.mkdir_at(1, "docs", ts(5)).unwrap();
    assert_eq!(fs.mkdir_at(1, "docs", ts(6)), Err(FsError::AlreadyExists));
    assert_eq!(fs.mkdir_at(42, "x", ts(6)), Err(FsError::InvalidArgument));
    assert_eq!(fs.next_inode(), 5);
    let b = fs.mkdir_at(1, "more", ts(7)).unwrap();
    assert_eq!(b.ino, 6);
}

#[test]
fn mkdir_uses_the_clock() {
    let mut fs = fresh(1000);
    let a = fs.mkdir(1, "d").unwrap();
    assert!(a.ctime.nsec >= 0 && a.ctime.nsec < 1_000_000_000);
    assert_eq!(fs.lookup(1, "d"), Ok(a));
}

#[test]
fn create_then_lookup_and_read() {
    let mut fs = fresh(1000);
    let a = fs.create_at(1, "f.txt", ts(9)).unwrap();
    assert_eq!(a.ino, 3);
    assert_eq!(a.kind, FileKind::RegularFile);
    assert_eq!(fs.lookup(1, "f.txt"), Ok(a));
    assert_eq!(fs.read(3, 0), Ok(Vec::new()));
    assert!(fs.has_inode(3));
}

#[test]
fn create_existing_name_answers_with_its_attributes() {
    let mut fs = fresh(1000);
    let d = fs.mkdir_at(1, "x", ts(1)).unwrap();
    let again = fs.create_at(1, "x", ts(2)).unwrap();
    assert_eq!(again.ino, d.ino);
    assert_eq!(again.kind, FileKind::Directory);
    assert_eq!(again.atime, ts(2));
    assert_eq!(again.mtime, ts(2));
    assert_eq!(again.ctime, ts(1));
    assert_eq!(again.crtime, ts(1));
    assert_eq!(fs.getattr(d.ino), Ok(again));
    assert_eq!(fs.lookup(1, "x"), Ok(again));
    assert_eq!(fs.next_inode(), 4);
    assert_eq!(fs.create_at(77, "y", ts(2)), Err(FsError::InvalidArgument));
    let c = fs.create(1, "z").unwrap();
    assert_eq!(c.ino, 6);
}

#[test]
fn write_then_read() {
    let mut fs = fresh(1000);
    let f = fs.create_at(1, "f", ts(1)).unwrap().ino;
    assert!(fs.write_is_safe(f, 0, b"hello"));
    assert_eq!(fs.write_at(f, 0, b"hello", ts(2)), WriteOutcome::Written(5));
    assert_eq!(fs.read(f, 0), Ok(b"hello".to_vec()));
    assert_eq!(fs.read(f, 3), Ok(b"lo".to_vec()));
    let a = fs.getattr(f).unwrap();
    assert_eq!(a.size, 5);
    assert_eq!(a.atime, ts(2));
    assert_eq!(a.mtime, ts(2));
    assert_eq!(a.ctime, ts(1));
    assert_eq!(fs.fs_size(), 5);
}

#[test]
fn write_inside_inserts_and_counts_the_change() {
    let mut fs = fresh(1000);
    let f = fs.create_at(1, "f", ts(1)).unwrap().ino;
    fs.write_at(f, 0, b"abcdef", ts(2));
    assert_eq!(fs.write_at(f, 2, b"XY", ts(3)), WriteOutcome::Written(2));
    assert_eq!(fs.read(f, 0), Ok(b"abXYcdef".to_vec()));
    assert_eq!(fs.fs_size(), 8);
    fs.write_at(f, 10, b"Z", ts(4));
    assert_eq!(fs.read(f, 0), Ok(b"abXYcdef\0\0Z".to_vec()));
    assert_eq!(fs.fs_size(), 11);
    assert_eq!(fs.getattr(f).unwrap().size, 11);
}

#[test]
fn writes_of_a_full_page_are_not_counted() {
    let mut fs = fresh(100_000);
    let f = fs.create_at(1, "f", ts(1)).unwrap().ino;
    let page = vec![7u8; 4096];
    assert_eq!(fs.write_at(f, 0, &page, ts(2)), WriteOutcome::Written(4096));
    assert_eq!(fs.fs_size(), 0);
    assert_eq!(fs.getattr(f).unwrap().size, 4096);
    fs.write_at(f, 4096, b"ab", ts(3));
    assert_eq!(fs.fs_size(), 4098);
}

#[test]
fn write_over_the_limit_is_left_unanswered() {
    let mut fs = fresh(3);
    let f = fs.create_at(1, "f", ts(1)).unwrap().ino;
    assert_eq!(fs.write_at(f, 0, b"hello", ts(2)), WriteOutcome::Written(5));
    assert_eq!(fs.write_at(f, 5, b"more", ts(3)), WriteOutcome::OverCapacity);
    assert_eq!(fs.read(f, 0), Ok(b"hello".to_vec()));
    assert_eq!(fs.fs_size(), 5);
}

#[test]
fn write_to_missing_file_is_refused() {
    let mut fs = fresh(100);
    assert_eq!(fs.write_at(9, 0, b"x", ts(1)), WriteOutcome::Failed(FsError::NotFound));
    let d = fs.mkdir_at(1, "d", ts(1)).unwrap().ino;
    assert_eq!(fs.write_at(d, 0, b"x", ts(1)), WriteOutcome::Failed(FsError::NotFound));
    assert_eq!(fs.read(d, 0), Err(FsError::NotFound));
    assert_eq!(fs.read(9, 0), Err(FsError::NotFound));
}

#[test]
fn write_with_clock() {
    let mut fs = fresh(100);
    let f = fs.create_at(1, "f", ts(1)).unwrap().ino;
    assert_eq!(fs.write(f, 0, b"ok"), WriteOutcome::Written(2));
    assert_eq!(fs.read(f, 0), Ok(b"ok".to_vec()));
}

#[test]
fn safety_checks() {
    let mut fs = fresh(100);
    let f = fs.create_at(1, "f", ts(1)).unwrap().ino;
    assert!(!fs.write_is_safe(f, -1, b"x"));
    assert!(fs.write_is_safe(55, -1, b"x"));
    fs.write_at(f, 0, b"abc", ts(1));
    assert!(fs.read_is_safe(f, 3));
    assert!(!fs.read_is_safe(f, 4));
    assert!(fs.read_is_safe(55, 4));
    assert!(fs.unlink_is_safe(1, "f"));
}

#[test]
fn readdir_lists_dot_dotdot_then_children_in_order() {
    let mut fs = fresh(100);
    let d = fs.mkdir_at(1, "dir", ts(1)).unwrap().ino;
    let b = fs.create_at(d, "b", ts(1)).unwrap().ino;
    let a = fs.mkdir_at(d, "a", ts(1)).unwrap().ino;
    let items = fs.readdir(d, 0).unwrap();
    let lines: Vec<(u64, i64, FileKind, String)> =
        items.iter().map(|i| (i.ino, i.offset, i.kind, i.name.clone())).collect();
    assert_eq!(
        lines,
        vec![
            (d, 0, FileKind::Directory, ".".to_string()),
            (1, 1, FileKind::Directory, "..".to_string()),
            (a, 2, FileKind::Directory, "a".to_string()),
            (b, 3, FileKind::RegularFile, "b".to_string()),
        ]
    );
}

#[test]
fn readdir_skips_past_the_offset() {
    let mut fs = fresh(100);
    fs.create_at(1, "x", ts(1)).unwrap();
    fs.create_at(1, "y", ts(1)).unwrap();
    let items = fs.readdir(1, 1).unwrap();
    let names: Vec<String> = items.iter().map(|i| i.name.clone()).collect();
    assert_eq!(names, vec!["x".to_string(), "y".to_string()]);
    assert_eq!(items[0].offset, 2);
    assert_eq!(fs.readdir(1, 3).unwrap().len(), 0);
    assert_eq!(fs.readdir(1, 10).unwrap().len(), 0);
    let root = fs.readdir(1, 0).unwrap();
    assert_eq!(root[1].ino, 1);
    assert_eq!(fs.readdir(50, 0).err(), Some(FsError::NotFound));
}

#[test]
fn rmdir_refuses_a_directory_with_children() {
    let mut fs = fresh(100);
    let d = fs.mkdir_at(1, "d", ts(1)).unwrap().ino;
    fs.create_at(d, "f", ts(1)).unwrap();
    assert_eq!(fs.rmdir(1, "d"), Err(FsError::NotEmpty));
    assert!(fs.lookup(1, "d").is_ok());
    assert!(fs.has_inode(d));
}

#[test]
fn rmdir_removes_an_empty_directory() {
    let mut fs = fresh(100);
    let d = fs.mkdir_at(1, "d", ts(1)).unwrap().ino;
    assert_eq!(fs.rmdir(1, "d"), Ok(()));
    assert_eq!(fs.lookup(1, "d"), Err(FsError::NotFound));
    assert_eq!(fs.getattr(d), Err(FsError::NotFound));
    assert!(!fs.has_inode(d));
    assert_eq!(fs.rmdir(1, "d"), Err(FsError::NotFound));
    assert_eq!(fs.rmdir(77, "d"), Ok(()));
}

#[test]
fn unlink_removes_file_and_its_count() {
    let mut fs = fresh(100);
    let f = fs.create_at(1, "f", ts(1)).unwrap().ino;
    fs.write_at(f, 0, b"abcd", ts(1));
    assert_eq!(fs.fs_size(), 4);
    assert_eq!(fs.unlink(1, "f"), Ok(()));
    assert_eq!(fs.fs_size(), 0);
    assert_eq!(fs.lookup(1, "f"), Err(FsError::NotFound));
    assert_eq!(fs.read(f, 0), Err(FsError::NotFound));
    assert_eq!(fs.unlink(1, "f"), Err(FsError::NotFound));
    assert_eq!(fs.unlink(99, "f"), Ok(()));
}

#[test]
fn unlink_after_truncation_subtracts_the_recorded_size() {
    let mut fs = fresh(100);
    let f = fs.create_at(1, "f", ts(1)).unwrap().ino;
    fs.write_at(f, 0, b"abcdef", ts(1));
    let a = fs.setattr(f, None, None, Some(2), None, None, None).unwrap();
    assert_eq!(a.size, 2);
    assert_eq!(fs.fs_size(), 6);
    fs.unlink(1, "f").unwrap();
    assert_eq!(fs.fs_size(), 4);
}

#[test]
fn rename_moves_an_entry() {
    let mut fs = fresh(100);
    let d = fs.mkdir_at(1, "d", ts(1)).unwrap().ino;
    let f = fs.create_at(1, "f", ts(1)).unwrap();
    assert_eq!(fs.rename(1, "f", d, "g"), Ok(()));
    assert_eq!(fs.lookup(1, "f"), Err(FsError::NotFound));
    assert_eq!(fs.lookup(d, "g"), Ok(f));
    assert_eq!(fs.rename(1, "f", d, "h"), Err(FsError::NotFound));
    assert_eq!(fs.rename(1, "d", 99, "h"), Ok(()));
    assert!(fs.lookup(1, "d").is_ok());
}

#[test]
fn rename_onto_an_existing_name_replaces_it() {
    let mut fs = fresh(100);
    let a = fs.create_at(1, "a", ts(1)).unwrap();
    fs.create_at(1, "b", ts(1)).unwrap();
    fs.rename(1, "a", 1, "b").unwrap();
    assert_eq!(fs.lookup(1, "b"), Ok(a));
    assert_eq!(fs.lookup(1, "a"), Err(FsError::NotFound));
    assert_eq!(fs.readdir(1, 0).unwrap().len(), 3);
}

#[test]
fn setattr_sets_the_given_fields() {
    let mut fs = fresh(100);
    let f = fs.create_at(1, "f", ts(1)).unwrap().ino;
    fs.write_at(f, 0, b"abcdef", ts(2));
    let a: Attr = fs
        .setattr(f, Some(10), Some(20), Some(3), Some(ts(7)), Some(ts(8)), Some(ts(9)))
        .unwrap();
    assert_eq!(a.uid, 10);
    assert_eq!(a.gid, 20);
    assert_eq!(a.size, 3);
    assert_eq!(a.atime, ts(7));
    assert_eq!(a.mtime, ts(8));
    assert_eq!(a.crtime, ts(9));
    assert_eq!(a.ctime, ts(1));
    assert_eq!(fs.getattr(f), Ok(a));
    assert_eq!(fs.read(f, 0), Ok(b"abc".to_vec()));
    assert_eq!(fs.setattr(99, None, None, None, None, None, None), Err(FsError::NotFound));
}

#[test]
fn setattr_size_on_a_directory_changes_nothing_of_its_size() {
    let mut fs = fresh(100);
    let d = fs.mkdir_at(1, "d", ts(1)).unwrap().ino;
    let a = fs.setattr(d, None, None, Some(50), None, None, None).unwrap();
    assert_eq!(a.size, 0);
}

#[test]
fn create_then_unlink_restores_all_but_the_counter() {
    let mut fs = fresh(100);
    let before = fs.readdir(1, 0).unwrap().len();
    let f = fs.create_at(1, "tmp", ts(3)).unwrap().ino;
    assert_eq!(fs.unlink(1, "tmp"), Ok(()));
    assert_eq!(fs.readdir(1, 0).unwrap().len(), before);
    assert_eq!(fs.getattr(f), Err(FsError::NotFound));
    assert!(!fs.has_inode(f));
    assert_eq!(fs.fs_size(), 0);
    assert_eq!(fs.next_inode(), 3);
}
