use read_ledger::thread_id::chat_target;
use read_ledger::paths::{get_db_path, get_read_sync_db_path, join_path};
use read_ledger::thread_id::{classify, resolve, IdentifierFault, ParseError, ThreadHandle};

const KEY_HEX: &str = "00112233445566778899aabbccddeeff00112233445566778899AABBCCDDEEFF";

fn key_bytes() -> [u8; 32] {
    let mut k = [0u8; 32];
    for i in 0..16 {
        k[i] = (i as u8) * 0x11;
        k[i + 16] = (i as u8) * 0x11;
    }
    k
}

#[test]
fn uuid_resolves_to_direct_thread() {
    let r = resolve("3b241101-e2bb-4255-8caf-4136c566a962").unwrap();
    assert_eq!(r, ThreadHandle::DirectThread(0x3b241101e2bb42558caf4136c566a962));
}

#[test]
fn sixty_four_hex_digits_resolve_to_group() {
    assert_eq!(resolve(KEY_HEX).unwrap(), ThreadHandle::GroupThread(key_bytes()));
}

#[test]
fn thirty_one_bytes_is_wrong_length() {
    let short = &KEY_HEX[..62];
    assert_eq!(
        resolve(short),
        Err(ParseError::InvalidIdentifier {
            input: short.to_string(),
            fault: IdentifierFault::WrongKeyLength(31),
        })
    );
}

#[test]
fn non_identifier_is_rejected() {
    assert_eq!(
        resolve("not-a-valid-id"),
        Err(ParseError::InvalidIdentifier {
            input: "not-a-valid-id".to_string(),
            fault: IdentifierFault::NotHex,
        })
    );
    assert_eq!(
        resolve("abc"),
        Err(ParseError::InvalidIdentifier { input: "abc".to_string(), fault: IdentifierFault::NotHex })
    );
}

#[test]
fn empty_identifier_is_wrong_length() {
    assert_eq!(
        resolve(""),
        Err(ParseError::InvalidIdentifier { input: String::new(), fault: IdentifierFault::WrongKeyLength(0) })
    );
}

#[test]
fn classify_prefers_uuid_outcome() {
    assert_eq!(classify(KEY_HEX, Some(7)), Ok(ThreadHandle::DirectThread(7)));
    assert_eq!(classify(KEY_HEX, None), Ok(ThreadHandle::GroupThread(key_bytes())));
    assert_eq!(
        classify("0g", None),
        Err(ParseError::InvalidIdentifier { input: "0g".to_string(), fault: IdentifierFault::NotHex })
    );
}

#[test]
fn database_paths_sit_under_data_dir() {
    assert_eq!(get_db_path("/data/signal"), "/data/signal/signal.db");
    assert_eq!(get_read_sync_db_path("/data/signal/"), "/data/signal/read_sync.db");
    assert_eq!(get_read_sync_db_path(""), "read_sync.db");
    assert_eq!(join_path("a", "b"), "a/b");
}

#[test]
fn chat_targets_for_mark_read() {
    assert_eq!(chat_target(KEY_HEX), Ok(Some(ThreadHandle::GroupThread(key_bytes()))));
    assert_eq!(
        chat_target("3b241101-e2bb-4255-8caf-4136c566a962"),
        Ok(Some(ThreadHandle::DirectThread(0x3b241101e2bb42558caf4136c566a962)))
    );
    assert_eq!(chat_target("not-a-valid-id"), Ok(None));
    assert_eq!(
        chat_target("abcd"),
        Err(ParseError::InvalidIdentifier { input: "abcd".to_string(), fault: IdentifierFault::WrongKeyLength(2) })
    );
}
