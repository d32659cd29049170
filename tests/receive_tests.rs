use read_ledger::ledger::{is_read, mark_as_read, open_read_sync_db, SyncRead};
use read_ledger::receive::{on_incoming, Incoming, ReceiveTally};

const PEER: u128 = 0x3b241101e2bb42558caf4136c566a962;
const PEER_TEXT: &str = "3b241101-e2bb-4255-8caf-4136c566a962";

fn fresh() -> ReceiveTally {
    ReceiveTally { messages: Vec::new(), synced: 0, finished: false }
}

#[test]
fn receiving_data_and_sync_entries() {
    let mut db = open_read_sync_db(":memory:").unwrap();
    let mut tally = fresh();
    mark_as_read(&mut db, PEER_TEXT, 4000, 1).unwrap();
    let data = Incoming::Data { sender: PEER, timestamp: Some(4000), body: Some("hey".to_string()) };
    assert!(on_incoming(&mut db, &mut tally, data, 2).is_none());
    assert_eq!(tally.messages.len(), 1);
    assert_eq!(tally.messages[0].chat_id, PEER_TEXT);
    assert_eq!(tally.messages[0].sender, PEER_TEXT);
    assert_eq!(tally.messages[0].timestamp, 4);
    assert_eq!(tally.messages[0].text, "hey");
    assert!(tally.messages[0].is_read);
    assert!(!tally.messages[0].is_outgoing);

    let reads = vec![
        SyncRead { sender_aci: Some("a".to_string()), timestamp: Some(1) },
        SyncRead { sender_aci: None, timestamp: Some(2) },
        SyncRead { sender_aci: Some("b".to_string()), timestamp: Some(3) },
    ];
    assert!(on_incoming(&mut db, &mut tally, Incoming::SyncReads(reads), 3).is_none());
    assert_eq!(tally.synced, 2);
    assert!(is_read(&mut db, "a", 1));
    assert!(is_read(&mut db, "b", 3));
    assert!(on_incoming(&mut db, &mut tally, Incoming::SyncReads(Vec::new()), 3).is_none());
    assert_eq!(tally.synced, 2);

    let unread = Incoming::Data { sender: PEER, timestamp: None, body: None };
    assert!(on_incoming(&mut db, &mut tally, unread, 4).is_none());
    assert_eq!(tally.messages[1].timestamp_ms, 0);
    assert_eq!(tally.messages[1].text, "");
    assert!(!tally.messages[1].is_read);

    assert!(on_incoming(&mut db, &mut tally, Incoming::Contacts, 5).is_none());
    assert!(on_incoming(&mut db, &mut tally, Incoming::Other, 5).is_none());
    assert!(!tally.finished);
    assert!(on_incoming(&mut db, &mut tally, Incoming::QueueEmpty, 5).is_none());
    assert!(tally.finished);
    assert_eq!(tally.messages.len(), 2);
}

#[test]
fn failed_sync_keeps_tally() {
    let path = "file:failed_sync?mode=memory&cache=shared";
    let mut db = open_read_sync_db(path).unwrap();
    let other = rusqlite::Connection::open(path).unwrap();
    other.execute_batch("DROP TABLE read_sync").unwrap();
    let mut tally = fresh();
    let reads = vec![SyncRead { sender_aci: Some("a".to_string()), timestamp: Some(1) }];
    assert!(on_incoming(&mut db, &mut tally, Incoming::SyncReads(reads), 1).is_some());
    assert_eq!(tally.synced, 0);
}
