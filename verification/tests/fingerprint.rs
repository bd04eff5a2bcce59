use iv::fingerprint::{file_hash_id, xorshift64, MetaFields};

fn meta(atime: u64, mtime: u64, ctime: u64, size: u64, ino: u64, dev: u64, nsec: u64) -> MetaFields {
    MetaFields { atime, mtime, ctime, size, ino, dev, mtime_nsec: nsec }
}

#[test]
fn xorshift64_known_value() {
    assert_eq!(xorshift64(1), 1082269761);
}

#[test]
fn xorshift64_zero_is_fixed() {
    assert_eq!(xorshift64(0), 0);
}

#[test]
fn hash_id_known_value() {
    let id = file_hash_id(&meta(1, 2, 3, 4, 5, 6, 7));
    assert_eq!(id, b"ica44d2dc59bbab2e".to_vec());
}

#[test]
fn hash_id_shape() {
    let id = file_hash_id(&meta(0, 0, 0, 0, 0, 0, 0));
    assert_eq!(id.len(), 17);
    assert_eq!(id[0], b'i');
    for &c in &id[1..] {
        assert!(c.is_ascii_hexdigit() && !c.is_ascii_uppercase());
    }
}

#[test]
fn hash_id_deterministic() {
    let a = file_hash_id(&meta(11, 22, 33, 44, 55, 66, 77));
    let b = file_hash_id(&meta(11, 22, 33, 44, 55, 66, 77));
    assert_eq!(a, b);
}

#[test]
fn hash_id_changes_with_mtime() {
    let a = file_hash_id(&meta(1, 2, 3, 4, 5, 6, 7));
    let b = file_hash_id(&meta(1, 9, 3, 4, 5, 6, 7));
    assert_ne!(a, b);
    assert_eq!(b, b"i9f9568a862382fde".to_vec());
}

#[test]
fn hash_id_changes_with_inode() {
    let a = file_hash_id(&meta(1, 2, 3, 4, 5, 6, 7));
    let b = file_hash_id(&meta(1, 2, 3, 4, 8, 6, 7));
    assert_ne!(a, b);
    assert_eq!(b, b"i1a438f94488c4ee7".to_vec());
}
