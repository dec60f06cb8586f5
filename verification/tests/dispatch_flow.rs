//! Tests for the inbound dispatcher: idempotent file replication, batch
//! targeting, malformed-payload resilience, and check-in reconciliation.

use topic_sync::dispatch::{DispatcherState, Notification, MAX_FILES_PER_BATCH};
use topic_sync::model::{CheckIn, File as WireFile, FileBatch, Message, MessageType, Metadata, UserInfo};
use topic_sync::records::{File as FileRecord, FileStatus, Topic};
use topic_sync::store::Store;
use topic_sync::sync_map::SyncMap;

fn key_hex() -> String {
    iroh::SecretKey::generate().public().to_string()
}

fn blob_ticket_for(content: &[u8]) -> (String, String) {
    let key = iroh::SecretKey::generate().public();
    let addr = iroh::EndpointAddr::new(key.into());
    let hash = iroh_blobs::Hash::new(content);
    let ticket = iroh_blobs::ticket::BlobTicket::new(addr, hash, iroh_blobs::BlobFormat::Raw);
    (ticket.to_string(), hash.to_hex())
}

fn user(name: &str) -> UserInfo {
    UserInfo {
        id: 0,
        email: format!("{}@example.com", name),
        first_name: String::from(name),
        last_name: None,
    }
}

fn metadata(sender: &str, ts: i64) -> Metadata {
    Metadata::new(user(sender), String::from(sender), Some(ts))
}

fn dispatcher(local: &str, topic: &str) -> DispatcherState {
    DispatcherState {
        local_node_id: String::from(local),
        topic_id: String::from(topic),
        store: Store::new(),
    }
}

fn wire_file(name: &str, ticket: String, shared_at: i64) -> WireFile {
    WireFile::new(String::from(name), ticket, 7, shared_at)
}

fn file_message(sender: &str, name: &str, ticket: String, shared_at: i64) -> MessageType {
    MessageType::File(Message::new(wire_file(name, ticket, shared_at), metadata(sender, shared_at)))
}

#[test]
fn file_is_stored_once_and_notified_once() {
    let sender = key_hex();
    let mut d = dispatcher("me", "t");
    let (ticket, hash_hex) = blob_ticket_for(b"payload");

    let out = d.dispatch(Some(file_message(&sender, "a.txt", ticket.clone(), 100))).unwrap();
    match out.notification {
        Some(Notification::File { file }) => {
            assert_eq!(file.hash, hash_hex);
            assert_eq!(file.node_id, sender);
            assert_eq!(file.topic_id, "t");
            assert_eq!(file.status, FileStatus::Shared);
            assert_eq!(file.shared_at, 100);
        },
        _ => panic!("expected a file notification"),
    }

    // replaying the very same message stores nothing and emits nothing
    let out2 = d.dispatch(Some(file_message(&sender, "a.txt", ticket, 100))).unwrap();
    assert!(out2.notification.is_none());
    assert_eq!(d.store.list_files(String::from("t"), None, None).unwrap().len(), 1);
}

#[test]
fn unparseable_locator_is_skipped() {
    let mut d = dispatcher("me", "t");
    let out = d
        .dispatch(Some(file_message("peer", "a.txt", String::from("not a ticket"), 5)))
        .unwrap();
    assert!(out.notification.is_none());
    assert_eq!(d.store.list_files(String::from("t"), None, None).unwrap().len(), 0);
}

#[test]
fn batch_is_applied_only_by_its_target() {
    let sender = key_hex();
    let (ticket, hash_hex) = blob_ticket_for(b"shared bytes");
    let batch = |target: &str| {
        MessageType::FileBatch(Message::new(
            FileBatch::new(vec![wire_file("b.txt", ticket.clone(), 50)], String::from(target)),
            metadata(&sender, 50),
        ))
    };

    // node X, addressed: processed
    let mut x = dispatcher("x", "t");
    let out = x.dispatch(Some(batch("x"))).unwrap();
    match out.notification {
        Some(Notification::FileBatch { files, sender: from }) => {
            assert_eq!(files.len(), 1);
            assert_eq!(files[0].hash, hash_hex);
            assert_eq!(from, sender);
        },
        _ => panic!("expected a file_batch notification"),
    }
    assert_eq!(x.store.list_files(String::from("t"), None, None).unwrap().len(), 1);

    // node Y, someone else's batch: ignored entirely
    let mut y = dispatcher("y", "t");
    let out = y.dispatch(Some(batch("x"))).unwrap();
    assert!(out.notification.is_none());
    assert_eq!(y.store.list_files(String::from("t"), None, None).unwrap().len(), 0);

    // empty target: everyone processes it
    let mut z = dispatcher("z", "t");
    let out = z.dispatch(Some(batch(""))).unwrap();
    assert!(out.notification.is_some());
    assert_eq!(z.store.list_files(String::from("t"), None, None).unwrap().len(), 1);
}

#[test]
fn batch_skips_bad_entries_and_keeps_going() {
    let sender = key_hex();
    let (t1, h1) = blob_ticket_for(b"one");
    let (t2, h2) = blob_ticket_for(b"two");
    let mut d = dispatcher("me", "t");
    let batch = MessageType::FileBatch(Message::new(
        FileBatch::new(
            vec![
                wire_file("one.txt", t1, 1),
                wire_file("bad.txt", String::from("garbage"), 2),
                wire_file("two.txt", t2, 3),
            ],
            String::from("me"),
        ),
        metadata(&sender, 3),
    ));
    let out = d.dispatch(Some(batch)).unwrap();
    match out.notification {
        Some(Notification::FileBatch { files, .. }) => {
            let hashes: Vec<String> = files.iter().map(|f| f.hash.clone()).collect();
            assert_eq!(hashes, vec![h1, h2]);
        },
        _ => panic!("expected a file_batch notification"),
    }
}

#[test]
fn malformed_payload_changes_nothing_and_loop_goes_on() {
    let sender = key_hex();
    let mut d = dispatcher("me", "t");
    let out = d.dispatch(None).unwrap();
    assert!(out.notification.is_none());
    assert!(out.catch_up.is_none());
    // the next valid payload is still processed
    let (ticket, _) = blob_ticket_for(b"still alive");
    let out = d.dispatch(Some(file_message(&sender, "c.txt", ticket, 9))).unwrap();
    assert!(out.notification.is_some());
}

fn check_in(sender: &str, topic: &str, claims: &[(&str, i64)]) -> MessageType {
    let mut sync = SyncMap::new();
    for (node, ts) in claims {
        sync.insert(String::from(*node), *ts);
    }
    MessageType::CheckIn(Message::new(
        CheckIn::new(String::from(topic), sync),
        metadata(sender, 1000),
    ))
}

fn seed_topic(d: &mut DispatcherState, owner: &str) {
    let t = Topic::new_topic_with_id(
        d.topic_id.clone(),
        String::from("demo"),
        String::from(owner),
        None,
    );
    d.store.create_topic(t).unwrap();
}

fn share_local_file(d: &mut DispatcherState, hash: &str, shared_at: i64) {
    let rec = FileRecord::new(
        d.local_node_id.clone(),
        d.topic_id.clone(),
        String::from(hash),
        format!("{}.bin", hash),
        Some(String::from("/tmp/x")),
        3,
        String::from("Raw"),
        FileStatus::Shared,
        shared_at,
    );
    d.store.create_file(rec).unwrap();
}

#[test]
fn check_in_for_unknown_topic_is_fatal() {
    let peer = key_hex();
    let mut d = dispatcher("me", "t");
    let r = d.dispatch(Some(check_in(&peer, "t", &[])));
    assert!(r.is_err());
}

#[test]
fn check_in_records_the_sender_as_member() {
    let peer = key_hex();
    let mut d = dispatcher("me", "t");
    seed_topic(&mut d, "me");
    let out = d.dispatch(Some(check_in(&peer, "t", &[]))).unwrap();
    match out.notification {
        Some(Notification::CheckIn { sender, user }) => {
            assert_eq!(sender, peer);
            assert_eq!(user.first_name, peer);
        },
        _ => panic!("expected a check_in notification"),
    }
    // no watermark for us: nothing to send
    assert!(out.catch_up.is_none());
    let topic = d.store.get_topic_by_topic_id(String::from("t")).unwrap();
    assert_eq!(topic.members, Some(vec![peer.clone()]));
    let node = d.store.get_node_by_node_id(peer.clone()).unwrap();
    assert!(d.store.get_user_by_node_id(node.id).is_ok());

    // a second check-in does not duplicate the member
    d.dispatch(Some(check_in(&peer, "t", &[]))).unwrap();
    let topic = d.store.get_topic_by_topic_id(String::from("t")).unwrap();
    assert_eq!(topic.members, Some(vec![peer]));
}

#[test]
fn check_in_watermark_selects_newer_files_oldest_first() {
    let peer = key_hex();
    let mut d = dispatcher("me", "t");
    seed_topic(&mut d, "me");
    share_local_file(&mut d, "h1", 10);
    share_local_file(&mut d, "h3", 30);
    share_local_file(&mut d, "h2", 20);

    // the peer claims it has everything up to 10 from us
    let out = d.dispatch(Some(check_in(&peer, "t", &[("me", 10)]))).unwrap();
    let plan = out.catch_up.expect("expected a catch-up plan");
    assert_eq!(plan.target, peer);
    assert_eq!(plan.chunks.len(), 1);
    let sent: Vec<(String, i64)> = plan.chunks[0]
        .iter()
        .map(|f| (f.hash.clone(), f.shared_at))
        .collect();
    assert_eq!(sent, vec![(String::from("h2"), 20), (String::from("h3"), 30)]);

    // a peer that already has everything gets nothing
    let out = d.dispatch(Some(check_in(&peer, "t", &[("me", 30)]))).unwrap();
    assert!(out.catch_up.is_none());
}

#[test]
fn catch_up_reverses_ties_with_the_listing() {
    let peer = key_hex();
    let mut d = dispatcher("me", "t");
    seed_topic(&mut d, "me");
    share_local_file(&mut d, "h1", 10);
    share_local_file(&mut d, "h2", 10);
    share_local_file(&mut d, "h3", 10);
    let out = d.dispatch(Some(check_in(&peer, "t", &[("me", 0)]))).unwrap();
    let plan = out.catch_up.expect("expected a catch-up plan");
    let order: Vec<String> = plan.chunks[0].iter().map(|f| f.hash.clone()).collect();
    // the engine reverses the newest-first listing whole, so records
    // sharing a timestamp arrive in reverse insertion order
    assert_eq!(order, vec![String::from("h3"), String::from("h2"), String::from("h1")]);
}

#[test]
fn check_in_without_local_watermark_sends_nothing() {
    let peer = key_hex();
    let mut d = dispatcher("me", "t");
    seed_topic(&mut d, "me");
    share_local_file(&mut d, "h1", 10);
    // the sync map names some other node, not us: skip, do not resend
    let out = d.dispatch(Some(check_in(&peer, "t", &[("somebody", 0)]))).unwrap();
    assert!(out.catch_up.is_none());
}

#[test]
fn catch_up_chunks_are_bounded() {
    let peer = key_hex();
    let mut d = dispatcher("me", "t");
    seed_topic(&mut d, "me");
    let total = MAX_FILES_PER_BATCH + 1;
    for i in 0..total {
        share_local_file(&mut d, &format!("h{:03}", i), i as i64 + 1);
    }
    let out = d.dispatch(Some(check_in(&peer, "t", &[("me", 0)]))).unwrap();
    let plan = out.catch_up.expect("expected a catch-up plan");
    assert_eq!(plan.chunks.len(), 2);
    assert_eq!(plan.chunks[0].len(), MAX_FILES_PER_BATCH);
    assert_eq!(plan.chunks[1].len(), 1);
    // oldest first across the chunk boundary
    assert_eq!(plan.chunks[0][0].shared_at, 1);
    assert_eq!(plan.chunks[1][0].shared_at, total as i64);
}

#[test]
fn notification_kind_tags() {
    let n = Notification::Chat { sender: String::from("s"), content: String::from("hi") };
    assert_eq!(n.kind_tag(), "chat");
    let n = Notification::CheckIn { sender: String::from("s"), user: user("u") };
    assert_eq!(n.kind_tag(), "check_in");
}
