use filebin::{timebased_ratelimit, StoreError};

fn open_db() -> sled::Db {
    sled::Config::new().temporary(true).open().expect("could not open temporary store")
}

#[test]
fn admits_until_limit_and_recovers_after_window() {
    let mut db = open_db();
    let token = b"10.0.0.1".to_vec();
    // limit 10 bytes per 5-second window
    let accepted = timebased_ratelimit(&mut db, &token, 10, false, 100, 5, 10).unwrap();
    assert!(accepted);
    let accepted = timebased_ratelimit(&mut db, &token, 1, false, 103, 5, 10).unwrap();
    assert!(!accepted);
    // at 106 the entry from 100 is 6 seconds old, older than the window
    let accepted = timebased_ratelimit(&mut db, &token, 10, false, 106, 5, 10).unwrap();
    assert!(accepted);
}

#[test]
fn dry_run_does_not_charge() {
    let mut db = open_db();
    let token = b"tok-dry".to_vec();
    assert!(timebased_ratelimit(&mut db, &token, 10, true, 50, 60, 10).unwrap());
    assert!(timebased_ratelimit(&mut db, &token, 10, true, 50, 60, 10).unwrap());
    // nothing was recorded, so the full quota is still free
    assert!(timebased_ratelimit(&mut db, &token, 10, false, 50, 60, 10).unwrap());
    assert!(!timebased_ratelimit(&mut db, &token, 1, false, 51, 60, 10).unwrap());
}

#[test]
fn rejection_does_not_charge() {
    let mut db = open_db();
    let token = b"tok-rej".to_vec();
    assert!(timebased_ratelimit(&mut db, &token, 8, false, 10, 60, 10).unwrap());
    assert!(!timebased_ratelimit(&mut db, &token, 5, false, 11, 60, 10).unwrap());
    // the rejected 5 bytes were not recorded; 2 more still fit
    assert!(timebased_ratelimit(&mut db, &token, 2, false, 12, 60, 10).unwrap());
}

#[test]
fn tokens_are_independent() {
    let mut db = open_db();
    let a = b"alice".to_vec();
    let b = b"bob".to_vec();
    assert!(timebased_ratelimit(&mut db, &a, 10, false, 10, 60, 10).unwrap());
    assert!(timebased_ratelimit(&mut db, &b, 10, false, 10, 60, 10).unwrap());
    assert!(!timebased_ratelimit(&mut db, &a, 1, false, 11, 60, 10).unwrap());
}

#[test]
fn stale_entries_are_swept_lazily() {
    let mut db = open_db();
    let token = b"sweep".to_vec();
    assert!(timebased_ratelimit(&mut db, &token, 3, false, 100, 5, 10).unwrap());
    assert!(timebased_ratelimit(&mut db, &token, 4, false, 102, 5, 10).unwrap());
    // at 200 both entries are stale; the check removes them
    assert!(timebased_ratelimit(&mut db, &token, 10, false, 200, 5, 10).unwrap());
    let remaining: Vec<_> = db
        .scan_prefix(b"ratelimit:sweep:")
        .map(|kv| kv.unwrap().0.to_vec())
        .collect();
    assert_eq!(remaining, vec![b"ratelimit:sweep:200".to_vec()]);
}

#[test]
fn ledger_entry_value_is_little_endian_cost() {
    let mut db = open_db();
    let token = b"fmt".to_vec();
    assert!(timebased_ratelimit(&mut db, &token, 513, false, 7, 60, 1000).unwrap());
    let value = db.get(b"ratelimit:fmt:7").unwrap().expect("entry missing").to_vec();
    assert_eq!(value, 513u64.to_le_bytes().to_vec());
}

#[test]
fn malformed_timestamp_is_reported_as_corrupt() {
    let mut db = open_db();
    db.insert(b"ratelimit:bad:abc", b"12345678".to_vec()).unwrap();
    let r = timebased_ratelimit(&mut db, &b"bad".to_vec(), 1, false, 10, 60, 10);
    assert_eq!(r, Err(StoreError::Corrupt));
    // nothing was changed
    assert!(db.get(b"ratelimit:bad:abc").unwrap().is_some());
}

#[test]
fn malformed_value_is_reported_as_corrupt() {
    let mut db = open_db();
    db.insert(b"ratelimit:short:5", vec![1, 2, 3]).unwrap();
    let r = timebased_ratelimit(&mut db, &b"short".to_vec(), 1, false, 10, 60, 10);
    assert_eq!(r, Err(StoreError::Corrupt));
}

#[test]
fn non_canonical_timestamp_is_reported_as_corrupt() {
    let mut db = open_db();
    db.insert(b"ratelimit:pad:007", b"12345678".to_vec()).unwrap();
    let r = timebased_ratelimit(&mut db, &b"pad".to_vec(), 1, false, 10, 60, 10);
    assert_eq!(r, Err(StoreError::Corrupt));
}

#[test]
fn same_second_admissions_share_a_key() {
    let mut db = open_db();
    let token = b"burst".to_vec();
    // two admissions in one second: the second overwrites the first
    assert!(timebased_ratelimit(&mut db, &token, 4, false, 50, 60, 10).unwrap());
    assert!(timebased_ratelimit(&mut db, &token, 5, false, 50, 60, 10).unwrap());
    // only the 5-byte entry remains on the ledger, so 5 more still fit —
    // the documented loss of resolution at one-second granularity
    assert!(timebased_ratelimit(&mut db, &token, 5, false, 51, 60, 10).unwrap());
}
