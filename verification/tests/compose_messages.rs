//! Tests for the outbound message builders and the envelope metadata.

use topic_sync::compose::{make_batch_message, make_chat_message, make_file_message, wire_file_from_record};
use topic_sync::model::{File as WireFile, MessageType, Metadata, UserInfo};
use topic_sync::records::{File as FileRecord, FileStatus};

fn user() -> UserInfo {
    UserInfo {
        id: 1,
        email: String::from("me@example.com"),
        first_name: String::from("Me"),
        last_name: None,
    }
}

#[test]
fn metadata_defaults_to_the_wall_clock() {
    let m = Metadata::new(user(), String::from("sender"), None);
    // unix seconds, read now: far past the epoch
    assert!(m.ts > 1_500_000_000);
    let pinned = Metadata::new(user(), String::from("sender"), Some(42));
    assert_eq!(pinned.ts, 42);
}

#[test]
fn chat_message_carries_sender_and_content() {
    let msg = make_chat_message(user(), String::from("n1"), String::from("hello"), Some(7));
    match msg {
        MessageType::Chat(m) => {
            assert_eq!(m.data.content, "hello");
            assert_eq!(m.metadata.sender, "n1");
            assert_eq!(m.metadata.ts, 7);
        },
        _ => panic!("expected a chat message"),
    }
}

#[test]
fn file_message_uses_the_share_time() {
    let msg = make_file_message(
        user(),
        String::from("n1"),
        String::from("notes.txt"),
        String::from("blobXYZ"),
        13,
        100,
    );
    match msg {
        MessageType::File(m) => {
            assert_eq!(m.data.file_name, "notes.txt");
            assert_eq!(m.data.blob_ticket, "blobXYZ");
            assert_eq!(m.data.size, 13);
            assert_eq!(m.data.shared_at, 100);
            assert_eq!(m.metadata.ts, 100);
        },
        _ => panic!("expected a file message"),
    }
}

#[test]
fn batch_message_addresses_its_target() {
    let files = vec![WireFile::new(String::from("a"), String::from("t1"), 1, 10)];
    let msg = make_batch_message(files, String::from("peer"), user(), String::from("n1"), Some(5));
    match msg {
        MessageType::FileBatch(m) => {
            assert_eq!(m.data.sync_request_node, "peer");
            assert_eq!(m.data.files.len(), 1);
            assert_eq!(m.metadata.sender, "n1");
        },
        _ => panic!("expected a batch message"),
    }
}

#[test]
fn wire_entry_keeps_record_fields_under_a_fresh_locator() {
    let rec = FileRecord::new(
        String::from("n1"),
        String::from("t"),
        String::from("h"),
        String::from("notes.txt"),
        Some(String::from("/home/n1/notes.txt")),
        13,
        String::from("Raw"),
        FileStatus::Shared,
        100,
    );
    let wire = wire_file_from_record(&rec, String::from("fresh-locator"));
    assert_eq!(wire.file_name, "notes.txt");
    assert_eq!(wire.blob_ticket, "fresh-locator");
    assert_eq!(wire.size, 13);
    assert_eq!(wire.shared_at, 100);
}
