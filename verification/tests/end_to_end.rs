//! The end-to-end scenario: node A starts a topic, node B joins from the
//! share string, A reconciles B's first check-in, and B replicates the
//! shared file exactly once.

use topic_sync::compose::{make_batch_message, make_chat_message, wire_file_from_record};
use topic_sync::dispatch::{DispatcherState, Notification};
use topic_sync::model::{CheckIn, Message, MessageType, Metadata, UserInfo};
use topic_sync::records::{File as FileRecord, FileStatus, Topic};
use topic_sync::store::Store;
use topic_sync::sync_map::SyncMap;
use topic_sync::ticket::{parse_share_string, share_string_for_topic, topic_from_ticket, Ticket};

fn user(name: &str) -> UserInfo {
    UserInfo {
        id: 0,
        email: format!("{}@example.com", name),
        first_name: String::from(name),
        last_name: None,
    }
}

#[test]
fn two_nodes_share_one_file() {
    // two real node identities
    let key_a = iroh::SecretKey::generate();
    let key_b = iroh::SecretKey::generate();
    let a_id = key_a.public().to_string();
    let b_id = key_b.public().to_string();

    // A starts topic "demo" and hands out the share string
    let topic_a = Topic::new_topic(String::from("demo"), a_id.clone(), None);
    let mut store_a = Store::new();
    let topic_a = store_a.create_topic(topic_a).unwrap();
    let share = share_string_for_topic(&topic_a).unwrap();
    assert!(share.starts_with("demo:"));

    // B decodes the token and persists the topic with itself appended
    let (name, token) = parse_share_string(share.as_str()).unwrap();
    assert_eq!(name, "demo");
    let ticket = Ticket::decode(token.as_str()).unwrap();
    let topic_b = topic_from_ticket(&ticket, name, b_id.clone()).unwrap();
    assert_eq!(topic_b.owner, a_id);
    assert_eq!(topic_b.members, Some(vec![b_id.clone()]));
    let mut store_b = Store::new();
    let topic_b = store_b.create_topic(topic_b).unwrap();
    assert_eq!(topic_b.topic_id, topic_a.topic_id);

    // A shares file f with hash h at shared_at = 100
    let hash = iroh_blobs::Hash::new(b"file contents").to_hex();
    let mut a = DispatcherState {
        local_node_id: a_id.clone(),
        topic_id: topic_a.topic_id.clone(),
        store: store_a,
    };
    a.store
        .create_file(FileRecord::new(
            a_id.clone(),
            topic_a.topic_id.clone(),
            hash.clone(),
            String::from("notes.txt"),
            Some(String::from("/home/a/notes.txt")),
            13,
            String::from("Raw"),
            FileStatus::Shared,
            100,
        ))
        .unwrap();

    // B checks in; its watermark for A is 0
    let mut sync = SyncMap::new();
    sync.insert(a_id.clone(), 0);
    let check_in = MessageType::CheckIn(Message::new(
        CheckIn::new(topic_a.topic_id.clone(), sync),
        Metadata::new(user("b"), b_id.clone(), Some(1000)),
    ));
    let out = a.dispatch(Some(check_in)).unwrap();

    // A's reconciliation selects exactly f, in one batch addressed to B
    let plan = out.catch_up.expect("A must plan a catch-up for B");
    assert_eq!(plan.target, b_id);
    assert_eq!(plan.chunks.len(), 1);
    assert_eq!(plan.chunks[0].len(), 1);
    assert_eq!(plan.chunks[0][0].hash, hash);
    // and B is now a recorded member of the topic on A's side
    let t = a.store.get_topic_by_topic_id(topic_a.topic_id.clone()).unwrap();
    assert_eq!(t.members, Some(vec![b_id.clone()]));

    // A mints a fresh locator per record and broadcasts the batch
    let addr = iroh::EndpointAddr::new(key_a.public().into());
    let rec = &plan.chunks[0][0];
    let fresh = iroh_blobs::ticket::BlobTicket::new(
        addr,
        iroh_blobs::Hash::new(b"file contents"),
        iroh_blobs::BlobFormat::Raw,
    );
    let wire = wire_file_from_record(rec, fresh.to_string());
    let batch = make_batch_message(vec![wire], plan.target.clone(), user("a"), a_id.clone(), Some(1001));

    // B processes the batch: exactly one record, status Shared, one notification
    let mut b = DispatcherState {
        local_node_id: b_id.clone(),
        topic_id: topic_b.topic_id.clone(),
        store: store_b,
    };
    let out = b.dispatch(Some(batch)).unwrap();
    match out.notification {
        Some(n @ Notification::FileBatch { .. }) => {
            assert_eq!(n.kind_tag(), "file_batch");
            match n {
                Notification::FileBatch { files, sender } => {
                    assert_eq!(sender, a_id);
                    assert_eq!(files.len(), 1);
                    assert_eq!(files[0].hash, hash);
                    assert_eq!(files[0].status, FileStatus::Shared);
                },
                _ => unreachable!(),
            }
        },
        _ => panic!("expected one file_batch notification"),
    }
    let stored = b.store.list_files(topic_b.topic_id.clone(), None, None).unwrap();
    assert_eq!(stored.len(), 1);
    assert_eq!(stored[0].hash, hash);
    assert_eq!(stored[0].node_id, a_id);
    assert_eq!(stored[0].status, FileStatus::Shared);

    // a chat line travels unchanged
    let chat = make_chat_message(user("a"), a_id.clone(), String::from("hello"), Some(1002));
    let out = b.dispatch(Some(chat)).unwrap();
    match out.notification {
        Some(Notification::Chat { sender, content }) => {
            assert_eq!(sender, a_id);
            assert_eq!(content, "hello");
        },
        _ => panic!("expected a chat notification"),
    }
}
