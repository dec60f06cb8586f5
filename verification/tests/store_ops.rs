//! Tests for the record store model: uniqueness, queries, ordering.

use topic_sync::records::{File, FileStatus, Node, Topic, TsDirection, TsFilter, User};
use topic_sync::store::Store;

fn file(node: &str, topic: &str, hash: &str, shared_at: i64) -> File {
    File::new(
        String::from(node),
        String::from(topic),
        String::from(hash),
        format!("{}.bin", hash),
        None,
        42,
        String::from("Raw"),
        FileStatus::Shared,
        shared_at,
    )
}

#[test]
fn create_file_assigns_sequential_ids() {
    let mut s = Store::new();
    let f1 = s.create_file(file("a", "t", "h1", 10)).unwrap();
    let f2 = s.create_file(file("a", "t", "h2", 20)).unwrap();
    assert_eq!(f1.id, 1);
    assert_eq!(f2.id, 2);
}

#[test]
fn create_file_rejects_duplicate_hash() {
    let mut s = Store::new();
    s.create_file(file("a", "t", "h1", 10)).unwrap();
    let dup = s.create_file(file("b", "t", "h1", 99));
    assert!(dup.is_err());
    let listed = s.list_files(String::from("t"), None, None).unwrap();
    assert_eq!(listed.len(), 1);
}

#[test]
fn get_file_by_hash_finds_the_record() {
    let mut s = Store::new();
    s.create_file(file("a", "t", "h1", 10)).unwrap();
    let f = s.get_file_by_hash(String::from("h1")).unwrap();
    assert_eq!(f.hash, "h1");
    assert!(s.get_file_by_hash(String::from("h2")).is_err());
}

#[test]
fn list_files_orders_newest_first_and_filters() {
    let mut s = Store::new();
    s.create_file(file("a", "t", "h1", 30)).unwrap();
    s.create_file(file("a", "t", "h2", 10)).unwrap();
    s.create_file(file("b", "t", "h3", 20)).unwrap();
    s.create_file(file("a", "other", "h4", 99)).unwrap();
    let all = s.list_files(String::from("t"), None, None).unwrap();
    let order: Vec<i64> = all.iter().map(|f| f.shared_at).collect();
    assert_eq!(order, vec![30, 20, 10]);
    let only_a = s.list_files(String::from("t"), Some(String::from("a")), None).unwrap();
    let order: Vec<i64> = only_a.iter().map(|f| f.shared_at).collect();
    assert_eq!(order, vec![30, 10]);
    let newer = s
        .list_files(
            String::from("t"),
            Some(String::from("a")),
            Some(TsFilter { timestamp: 10, direction: TsDirection::Newer }),
        )
        .unwrap();
    let order: Vec<i64> = newer.iter().map(|f| f.shared_at).collect();
    assert_eq!(order, vec![30]);
}

#[test]
fn list_files_keeps_insertion_order_on_ties() {
    let mut s = Store::new();
    s.create_file(file("a", "t", "h1", 10)).unwrap();
    s.create_file(file("a", "t", "h2", 10)).unwrap();
    s.create_file(file("a", "t", "h3", 10)).unwrap();
    let listed = s.list_files(String::from("t"), None, None).unwrap();
    let order: Vec<String> = listed.iter().map(|f| f.hash.clone()).collect();
    assert_eq!(order, vec![String::from("h1"), String::from("h2"), String::from("h3")]);
}

#[test]
fn update_file_changes_status_only() {
    let mut s = Store::new();
    let f = s.create_file(file("a", "t", "h1", 10)).unwrap();
    let updated = s.update_file(f.id, FileStatus::Downloaded).unwrap();
    assert_eq!(updated.status, FileStatus::Downloaded);
    assert_eq!(updated.hash, "h1");
    assert!(s.update_file(99, FileStatus::Downloaded).is_err());
}

#[test]
fn latest_timestamps_default_to_zero() {
    let mut s = Store::new();
    s.create_file(file("a", "t", "h1", 10)).unwrap();
    s.create_file(file("a", "t", "h2", 25)).unwrap();
    s.create_file(file("b", "t", "h3", 5)).unwrap();
    let members = vec![String::from("a"), String::from("b"), String::from("c")];
    let m = s
        .get_latest_file_timestamps_by_members(&String::from("t"), &members)
        .unwrap();
    assert_eq!(m.get(&String::from("a")), Some(25));
    assert_eq!(m.get(&String::from("b")), Some(5));
    assert_eq!(m.get(&String::from("c")), Some(0));
    assert_eq!(m.get(&String::from("d")), None);
}

#[test]
fn topic_crud_and_membership() {
    let mut s = Store::new();
    let t = Topic::new_topic_with_id(
        String::from("tid"),
        String::from("demo"),
        String::from("owner"),
        None,
    );
    let t = s.create_topic(t).unwrap();
    assert_eq!(t.id, 1);
    assert!(s
        .create_topic(Topic::new_topic_with_id(
            String::from("tid"),
            String::from("again"),
            String::from("owner"),
            None,
        ))
        .is_err());
    let got = s.get_topic_by_topic_id(String::from("tid")).unwrap();
    assert_eq!(got.name, "demo");
    assert_eq!(got.get_peers(), vec![String::from("owner")]);
    let updated = s.update_topic(t.id, vec![String::from("m1")]).unwrap();
    assert_eq!(updated.members, Some(vec![String::from("m1")]));
    let got = s.get_topic_by_id(t.id).unwrap();
    assert_eq!(got.get_peers(), vec![String::from("owner"), String::from("m1")]);
    assert_eq!(s.list_topics().unwrap().len(), 1);
}

#[test]
fn new_topic_draws_a_fresh_hex_id() {
    let t1 = Topic::new_topic(String::from("demo"), String::from("o"), None);
    let t2 = Topic::new_topic(String::from("demo"), String::from("o"), None);
    assert_eq!(t1.topic_id.len(), 64);
    assert!(t1.topic_id.chars().all(|c| c.is_ascii_hexdigit()));
    assert_ne!(t1.topic_id, t2.topic_id);
}

#[test]
fn node_and_user_records() {
    let mut s = Store::new();
    let n = s.create_node(Node::new(String::from("nid"), Some(String::from("stored-key")))).unwrap();
    assert_eq!(n.id, 1);
    assert!(s.create_node(Node::new(String::from("nid"), None)).is_err());
    assert_eq!(s.get_node_by_node_id(String::from("nid")).unwrap().id, 1);
    assert!(s.get_node_by_node_id(String::from("other")).is_err());
    assert_eq!(s.get_node_by_id(1).unwrap().node_id, "nid");

    let u = s
        .create_user(User::new(
            String::from("a@example.com"),
            String::from("Ada"),
            None,
            Some(n.id),
        ))
        .unwrap();
    assert_eq!(u.id, 1);
    assert_eq!(s.get_user_by_node_id(n.id).unwrap().email, "a@example.com");
    assert!(s.get_user_by_node_id(7).is_err());
    assert_eq!(s.get_user_by_id(1).unwrap().first_name, "Ada");
}

#[test]
fn file_status_texts() {
    assert_eq!(FileStatus::parse(&String::from("Shared")), Some(FileStatus::Shared));
    assert_eq!(FileStatus::parse(&String::from("Downloaded")), Some(FileStatus::Downloaded));
    assert_eq!(FileStatus::parse(&String::from("other")), None);
    assert_eq!(FileStatus::from_text(&String::from("Shared")), FileStatus::Shared);
    assert_eq!(FileStatus::Downloaded.text(), "Downloaded");
}
