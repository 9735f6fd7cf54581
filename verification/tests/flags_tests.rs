//! Compile-time compatibility flag sets.

use syntaqlite::flags::SqliteFlags;

#[test]
fn default_flags_are_empty() {
    let f = SqliteFlags::default();
    for idx in 0..64 {
        assert!(!f.has(idx));
        assert!(!f.has_index(idx));
    }
}

#[test]
fn with_enables_only_its_flag() {
    let f = SqliteFlags::default().with(5);
    assert!(f.has(5));
    assert!(f.has_index(5));
    assert!(!f.has(4));
    assert!(!f.has(6));
    assert_eq!(f.0, 1 << 5);
}

#[test]
fn without_disables_only_its_flag() {
    let f = SqliteFlags::default().with(3).with(40).without(3);
    assert!(!f.has(3));
    assert!(f.has(40));
    assert_eq!(f.0, 1 << 40);
}

#[test]
fn without_undoes_with() {
    let base = SqliteFlags::default().with(1).with(63);
    assert_eq!(base.with(20).without(20), base);
}

#[test]
fn has_index_beyond_the_set_is_false() {
    let f = SqliteFlags(u64::MAX);
    assert!(f.has_index(63));
    assert!(!f.has_index(64));
    assert!(!f.has_index(1000));
}
