use read_ledger::ledger::mark_keys_read;
use read_ledger::ledger::{
    is_read, lookup_answer, mark_as_read, mark_sender_read, open_read_sync_db, process_sync_reads,
    LedgerError, SyncRead,
};

fn entry(sender: Option<&str>, timestamp: Option<u64>) -> SyncRead {
    SyncRead { sender_aci: sender.map(|s| s.to_string()), timestamp }
}

#[test]
fn mark_read_twice_is_idempotent() {
    let mut db = open_read_sync_db(":memory:").unwrap();
    assert!(!is_read(&mut db, "alice", 1000));
    mark_as_read(&mut db, "alice", 1000, 5).unwrap();
    assert!(is_read(&mut db, "alice", 1000));
    mark_as_read(&mut db, "alice", 1000, 6).unwrap();
    assert!(is_read(&mut db, "alice", 1000));
    assert!(!is_read(&mut db, "alice", 1001));
    assert!(!is_read(&mut db, "bob", 1000));
}

#[test]
fn unmarked_message_reads_unread() {
    let mut db = open_read_sync_db(":memory:").unwrap();
    assert!(!is_read(&mut db, "carol", 42));
}

#[test]
fn unreadable_store_reads_unread() {
    let path = "file:unreadable_store?mode=memory&cache=shared";
    let mut db = open_read_sync_db(path).unwrap();
    let other = rusqlite::Connection::open(path).unwrap();
    mark_as_read(&mut db, "alice", 7, 1).unwrap();
    assert!(is_read(&mut db, "alice", 7));
    other.execute_batch("DROP TABLE read_sync").unwrap();
    assert!(!is_read(&mut db, "alice", 7));
    assert!(matches!(mark_as_read(&mut db, "alice", 8, 1), Err(LedgerError::StorageError(_))));
}

#[test]
fn failed_lookup_answers_unread() {
    let failed: Result<i64, rusqlite::Error> = Err(rusqlite::Error::QueryReturnedNoRows);
    assert!(!lookup_answer(&failed));
    assert!(lookup_answer(&Ok(1)));
}

#[test]
fn batch_with_forced_failure_leaves_nothing() {
    let path = "file:forced_failure?mode=memory&cache=shared";
    let mut db = open_read_sync_db(path).unwrap();
    let other = rusqlite::Connection::open(path).unwrap();
    other
        .execute_batch(
            "CREATE TRIGGER refuse_last BEFORE INSERT ON read_sync WHEN NEW.timestamp = 300 \
             BEGIN SELECT RAISE(ABORT, 'forced'); END;",
        )
        .unwrap();
    let batch = vec![entry(Some("a"), Some(100)), entry(Some("b"), Some(200)), entry(Some("c"), Some(300))];
    assert!(process_sync_reads(&mut db, &batch, 9).is_err());
    assert!(!is_read(&mut db, "a", 100));
    assert!(!is_read(&mut db, "b", 200));
    assert!(!is_read(&mut db, "c", 300));
    let r = mark_sender_read(&mut db, "d", &[1, 2, 300], 9);
    assert!(r.is_err());
    assert!(!is_read(&mut db, "d", 1));
    assert!(!is_read(&mut db, "d", 2));
    // the ledger is usable again afterwards
    assert_eq!(mark_sender_read(&mut db, "d", &[1, 2], 9).unwrap(), 2);
    assert!(is_read(&mut db, "d", 1));
}

#[test]
fn mark_many_counts_timestamps_supplied() {
    let mut db = open_read_sync_db(":memory:").unwrap();
    mark_as_read(&mut db, "s", 10, 1).unwrap();
    assert_eq!(mark_sender_read(&mut db, "s", &[10, 20, 10], 2).unwrap(), 3);
    assert!(is_read(&mut db, "s", 10));
    assert!(is_read(&mut db, "s", 20));
    assert_eq!(mark_sender_read(&mut db, "s", &[], 2).unwrap(), 0);
}

#[test]
fn sync_batch_round_trip() {
    let mut db = open_read_sync_db(":memory:").unwrap();
    let batch = vec![entry(Some("a"), Some(100)), entry(Some("b"), Some(200))];
    assert_eq!(process_sync_reads(&mut db, &batch, 1).unwrap(), 2);
    assert!(is_read(&mut db, "a", 100));
    assert!(is_read(&mut db, "b", 200));
    assert!(!is_read(&mut db, "a", 999));
}

#[test]
fn sync_batch_skips_incomplete_entries() {
    let mut db = open_read_sync_db(":memory:").unwrap();
    let batch = vec![
        entry(Some("a"), None),
        entry(None, Some(5)),
        entry(Some("a"), Some(6)),
        entry(None, None),
    ];
    assert_eq!(process_sync_reads(&mut db, &batch, 1).unwrap(), 1);
    assert!(is_read(&mut db, "a", 6));
    assert!(!is_read(&mut db, "a", 5));
    assert_eq!(process_sync_reads(&mut db, &[], 1).unwrap(), 0);
}

#[test]
fn largest_timestamp_round_trips() {
    let mut db = open_read_sync_db(":memory:").unwrap();
    mark_as_read(&mut db, "z", u64::MAX, u64::MAX).unwrap();
    assert!(is_read(&mut db, "z", u64::MAX));
    assert!(!is_read(&mut db, "z", u64::MAX - 1));
}

#[test]
fn open_in_missing_directory_fails() {
    assert!(matches!(
        open_read_sync_db("/nonexistent-dir/for/ledger/read_sync.db"),
        Err(LedgerError::StorageError(_))
    ));
}

#[test]
fn reopening_shared_ledger_keeps_records() {
    let path = "file:reopen_keeps?mode=memory&cache=shared";
    let mut first = open_read_sync_db(path).unwrap();
    mark_as_read(&mut first, "a", 1, 1).unwrap();
    let mut second = open_read_sync_db(path).unwrap();
    assert!(is_read(&mut second, "a", 1));
}

fn stored_read_at(other: &rusqlite::Connection, sender: &str, ts: i64) -> i64 {
    other
        .query_row(
            "SELECT read_at FROM read_sync WHERE sender_aci = ?1 AND timestamp = ?2",
            (sender, ts),
            |row| row.get(0),
        )
        .unwrap()
}

#[test]
fn first_read_time_is_kept() {
    let path = "file:first_read_time?mode=memory&cache=shared";
    let mut db = open_read_sync_db(path).unwrap();
    let other = rusqlite::Connection::open(path).unwrap();
    mark_as_read(&mut db, "a", 1, 100).unwrap();
    mark_as_read(&mut db, "a", 1, 200).unwrap();
    assert_eq!(stored_read_at(&other, "a", 1), 100);
    assert_eq!(mark_sender_read(&mut db, "a", &[1, 2], 300).unwrap(), 2);
    assert_eq!(stored_read_at(&other, "a", 1), 100);
    assert_eq!(stored_read_at(&other, "a", 2), 300);
}

#[test]
fn marking_pairs_in_one_batch() {
    let mut db = open_read_sync_db(":memory:").unwrap();
    let keys = vec![("a".to_string(), 1u64), ("b".to_string(), 2u64), ("a".to_string(), 1u64)];
    assert_eq!(mark_keys_read(&mut db, &keys, 5).unwrap(), 3);
    assert!(is_read(&mut db, "a", 1));
    assert!(is_read(&mut db, "b", 2));
    assert_eq!(mark_keys_read(&mut db, &[], 5).unwrap(), 0);
}
