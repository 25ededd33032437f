//! The key-value layer on its own: TTL visibility, overwrites, deletion
//! and prefix scans.

use calc_runner::store::Storage;

const T0: i64 = 1_000_000;

#[test]
fn set_then_get_before_and_after_expiry() {
    let mut s = Storage::new();
    s.set(b"k:1".to_vec(), b"alpha".to_vec(), 60, T0);
    assert_eq!(s.get(&b"k:1".to_vec(), T0).unwrap(), b"alpha".to_vec());
    assert_eq!(s.get(&b"k:1".to_vec(), T0 + 59_999).unwrap(), b"alpha".to_vec());
    // at the expiry instant the entry is no longer visible
    assert!(s.get(&b"k:1".to_vec(), T0 + 60_000).is_err());
}

#[test]
fn a_second_set_overwrites_and_refreshes() {
    let mut s = Storage::new();
    s.set(b"k:1".to_vec(), b"alpha".to_vec(), 60, T0);
    s.set(b"k:1".to_vec(), b"beta".to_vec(), 60, T0 + 50_000);
    assert_eq!(s.get(&b"k:1".to_vec(), T0 + 100_000).unwrap(), b"beta".to_vec());
    assert!(s.get(&b"k:1".to_vec(), T0 + 110_000).is_err());
}

#[test]
fn delete_removes_and_missing_keys_are_not_found() {
    let mut s = Storage::new();
    assert!(s.get(&b"nope".to_vec(), T0).is_err());
    s.set(b"k:1".to_vec(), b"alpha".to_vec(), 60, T0);
    s.delete(&b"k:1".to_vec());
    assert!(s.get(&b"k:1".to_vec(), T0).is_err());
    // deleting an absent key is harmless
    s.delete(&b"k:1".to_vec());
}

#[test]
fn prefix_scan_lists_live_entries_in_order() {
    let mut s = Storage::new();
    s.set(b"job:a".to_vec(), b"1".to_vec(), 60, T0);
    s.set(b"job:b".to_vec(), b"2".to_vec(), 1, T0);
    s.set(b"user:a".to_vec(), b"3".to_vec(), 60, T0);
    s.set(b"job:c".to_vec(), b"4".to_vec(), 60, T0);
    let hits = s.get_all(&b"job:".to_vec(), T0 + 30_000);
    assert_eq!(hits, vec![b"1".to_vec(), b"4".to_vec()]);
    let all = s.get_all(&b"".to_vec(), T0);
    assert_eq!(all.len(), 4);
}
