use tmpfs::file::File;
use tmpfs::inode::Inode;
use tmpfs::names::{compare_bytes, NameOrder};

fn contents(f: &File) -> Vec<u8> {
    f.bytes_from(0)
}

#[test]
fn new_file_is_empty() {
    let f = File::new_file();
    assert_eq!(f.get_file_size(), 0);
    assert!(!f.is_updated());
    assert_eq!(f.old_size(), 0);
    let d = File::default();
    assert_eq!(d.get_file_size(), 0);
}

#[test]
fn update_past_end_pads_with_zeros() {
    let mut f = File::new_file();
    assert_eq!(f.update_file(0, b"ab"), 2);
    assert_eq!(f.update_file(4, b"xy"), 2);
    assert_eq!(contents(&f), vec![b'a', b'b', 0, 0, b'x', b'y']);
    assert_eq!(f.get_file_size(), 6);
}

#[test]
fn update_at_end_appends() {
    let mut f = File::new_file();
    f.update_file(0, b"abc");
    f.update_file(3, b"de");
    assert_eq!(contents(&f), b"abcde".to_vec());
}

#[test]
fn update_running_past_end_replaces_tail() {
    let mut f = File::new_file();
    f.update_file(0, b"abcd");
    assert_eq!(f.update_file(2, b"XYZ"), 3);
    assert_eq!(contents(&f), b"abXYZ".to_vec());
}

#[test]
fn update_inside_inserts() {
    let mut f = File::new_file();
    f.update_file(0, b"abcdef");
    assert_eq!(f.update_file(1, b"XY"), 2);
    assert_eq!(contents(&f), b"aXYbcdef".to_vec());
    assert_eq!(f.get_file_size(), 8);
}

#[test]
fn update_ending_exactly_at_end_inserts() {
    let mut f = File::new_file();
    f.update_file(0, b"ab");
    f.update_file(0, b"ab");
    assert_eq!(contents(&f), b"abab".to_vec());
}

#[test]
fn truncate_keeps_prefix() {
    let mut f = File::new_file();
    f.update_file(0, b"abcdef");
    f.truncate_bytes(10);
    assert_eq!(contents(&f), b"abcdef".to_vec());
    f.truncate_bytes(2);
    assert_eq!(contents(&f), b"ab".to_vec());
    f.truncate_bytes(0);
    assert_eq!(f.get_file_size(), 0);
}

#[test]
fn bytes_from_offset() {
    let mut f = File::new_file();
    f.update_file(0, b"hello");
    assert_eq!(f.bytes_from(2), b"llo".to_vec());
    assert_eq!(f.bytes_from(5), Vec::<u8>::new());
}

#[test]
fn counted_size_is_recorded() {
    let mut f = File::new_file();
    f.record_counted_size(12);
    assert!(f.is_updated());
    assert_eq!(f.old_size(), 12);
}

#[test]
fn byte_order_of_names() {
    assert_eq!(compare_bytes(b"a", b"b"), NameOrder::Before);
    assert_eq!(compare_bytes(b"b", b"a"), NameOrder::After);
    assert_eq!(compare_bytes(b"ab", b"ab"), NameOrder::Same);
    assert_eq!(compare_bytes(b"a", b"ab"), NameOrder::Before);
    assert_eq!(compare_bytes(b"ab", b"b"), NameOrder::Before);
    assert_eq!(compare_bytes(b"B", b"a"), NameOrder::Before);
    assert_eq!(compare_bytes(b"", b""), NameOrder::Same);
    assert_eq!(compare_bytes(b"", b"x"), NameOrder::Before);
}

#[test]
fn new_inode_has_no_children() {
    let i = Inode::new_inode("docs".to_string(), 7);
    assert_eq!(i.parent(), 7);
    assert_eq!(i.label(), "docs");
    assert!(i.is_empty());
    assert_eq!(i.child_count(), 0);
    assert_eq!(i.child(&"x".to_string()), None);
}

#[test]
fn children_are_kept_in_byte_order() {
    let mut i = Inode::new_inode("d".to_string(), 1);
    i.insert_child("b".to_string(), 2);
    i.insert_child("ab".to_string(), 3);
    i.insert_child("B".to_string(), 4);
    i.insert_child("a".to_string(), 5);
    i.insert_child("é".to_string(), 6);
    let names: Vec<String> = (0..i.child_count()).map(|k| i.child_at(k).0).collect();
    assert_eq!(names, vec!["B", "a", "ab", "b", "é"]);
    assert_eq!(i.child(&"ab".to_string()), Some(3));
    assert_eq!(i.child(&"zz".to_string()), None);
}

#[test]
fn insert_existing_name_replaces_number() {
    let mut i = Inode::new_inode("d".to_string(), 1);
    i.insert_child("a".to_string(), 2);
    i.insert_child("a".to_string(), 9);
    assert_eq!(i.child_count(), 1);
    assert_eq!(i.child(&"a".to_string()), Some(9));
}

#[test]
fn remove_child_takes_name_out() {
    let mut i = Inode::new_inode("d".to_string(), 1);
    i.insert_child("a".to_string(), 2);
    i.insert_child("b".to_string(), 3);
    assert_eq!(i.remove_child(&"a".to_string()), Some(2));
    assert_eq!(i.remove_child(&"a".to_string()), None);
    assert_eq!(i.child(&"b".to_string()), Some(3));
    assert_eq!(i.child_at(0), ("b".to_string(), 3));
}
