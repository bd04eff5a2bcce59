use iv::fingerprint::MetaFields;
use iv::listing::{list, sort_entries, visit_dir, Child, DirEntry};

fn meta(size: u64) -> MetaFields {
    MetaFields { atime: 1, mtime: 2, ctime: 3, size, ino: 4, dev: 5, mtime_nsec: 6 }
}

fn child(name: &str, is_dir: bool, size: u64) -> Child {
    Child { name: name.as_bytes().to_vec(), is_dir, meta: Some(meta(size)) }
}

fn broken(name: &str) -> Child {
    Child { name: name.as_bytes().to_vec(), is_dir: false, meta: None }
}

fn names(entries: &[DirEntry]) -> Vec<String> {
    entries.iter().map(|e| String::from_utf8(e.name.clone()).unwrap()).collect()
}

#[test]
fn directories_sort_before_files_case_insensitively() {
    let children = vec![child("b.txt", false, 1), child("A.txt", false, 1), child("z", true, 0)];
    let (entries, _) = list(&children);
    assert_eq!(names(&entries), vec!["z", "A.txt", "b.txt"]);
}

#[test]
fn failed_stats_are_dropped_silently() {
    let children = vec![child("keep", false, 1), broken("gone"), child("also", true, 0)];
    let kept = visit_dir(&children);
    assert_eq!(names(&kept), vec!["keep", "also"]);
    let (entries, stats) = list(&children);
    assert_eq!(names(&entries), vec!["also", "keep"]);
    assert_eq!(stats.num_entries, 2);
}

#[test]
fn total_size_counts_files_only() {
    let children = vec![
        child("dir", true, 999),
        child("a.bin", false, 10),
        broken("lost.bin"),
        child("b.bin", false, 20),
    ];
    let (entries, stats) = list(&children);
    assert_eq!(entries.len(), 3);
    assert_eq!(stats.num_entries, 3);
    assert_eq!(stats.num_dirs, 1);
    assert_eq!(stats.total_size, 30);
}

#[test]
fn empty_listing() {
    let (entries, stats) = list(&Vec::new());
    assert!(entries.is_empty());
    assert_eq!(stats.num_entries, 0);
    assert_eq!(stats.num_dirs, 0);
    assert_eq!(stats.total_size, 0);
}

#[test]
fn sort_is_stable_for_equal_keys() {
    // "AA" and "aa" compare equal case-insensitively: encounter order holds
    let v = vec![child("AA", false, 1), child("aa", false, 1), child("ab", false, 1)];
    let kept = visit_dir(&v);
    let sorted = sort_entries(&kept);
    assert_eq!(names(&sorted), vec!["AA", "aa", "ab"]);
    let v2 = vec![child("aa", false, 1), child("AA", false, 1)];
    let sorted2 = sort_entries(&visit_dir(&v2));
    assert_eq!(names(&sorted2), vec!["aa", "AA"]);
}

#[test]
fn shorter_name_sorts_before_its_extension() {
    let v = vec![child("abc", false, 1), child("ab", false, 1)];
    let sorted = sort_entries(&visit_dir(&v));
    assert_eq!(names(&sorted), vec!["ab", "abc"]);
}

#[test]
fn mixed_case_numbers_and_dirs() {
    let children = vec![
        child("Zebra.txt", false, 5),
        child("apple", true, 0),
        child("Banana", true, 0),
        child("1.log", false, 7),
    ];
    let (entries, stats) = list(&children);
    assert_eq!(names(&entries), vec!["apple", "Banana", "1.log", "Zebra.txt"]);
    assert_eq!(stats.num_dirs, 2);
    assert_eq!(stats.total_size, 12);
}
