//! Tests for the check-in scheduler's tick and the subscription
//! lifecycle rules.

use topic_sync::errors::Error;
use topic_sync::lifecycle::{
    phase_step, resolve_race, store_error_policy, HandlerKind, Phase, PhaseEvent, RaceResolution,
    RaceWinner, StoreErrorPolicy,
};
use topic_sync::model::{MessageType, UserInfo};
use topic_sync::records::{File, FileStatus, Topic};
use topic_sync::scheduler::{Scheduler, CHECK_IN_INTERVAL, MEMBER_CACHE_REFRESH_INTERVAL};
use topic_sync::store::Store;

fn user() -> UserInfo {
    UserInfo {
        id: 1,
        email: String::from("me@example.com"),
        first_name: String::from("Me"),
        last_name: Some(String::from("Node")),
    }
}

fn seeded_store(topic: &str, owner: &str, members: &[&str]) -> Store {
    let mut s = Store::new();
    let m = if members.is_empty() {
        None
    } else {
        Some(members.iter().map(|m| String::from(*m)).collect())
    };
    s.create_topic(Topic::new_topic_with_id(
        String::from(topic),
        String::from("demo"),
        String::from(owner),
        m,
    ))
    .unwrap();
    s
}

fn share(s: &mut Store, node: &str, topic: &str, hash: &str, shared_at: i64) {
    s.create_file(File::new(
        String::from(node),
        String::from(topic),
        String::from(hash),
        String::from("f"),
        None,
        1,
        String::from("Raw"),
        FileStatus::Shared,
        shared_at,
    ))
    .unwrap();
}

#[test]
fn tick_reports_other_members_watermarks() {
    let mut store = seeded_store("t", "me", &["a", "b"]);
    share(&mut store, "a", "t", "h1", 15);
    share(&mut store, "a", "t", "h2", 40);
    let mut sched = Scheduler::new(String::from("t"), String::from("me"), user());
    let msg = sched.tick(100, &store).unwrap();
    match msg {
        MessageType::CheckIn(m) => {
            assert_eq!(m.data.topic_id, "t");
            assert_eq!(m.metadata.sender, "me");
            assert_eq!(m.metadata.ts, 100);
            assert_eq!(m.data.sync.len(), 2);
            assert_eq!(m.data.sync.get(&String::from("a")), Some(40));
            assert_eq!(m.data.sync.get(&String::from("b")), Some(0));
            assert_eq!(m.data.sync.get(&String::from("me")), None);
        },
        _ => panic!("expected a check-in"),
    }
}

#[test]
fn tick_fails_on_unknown_topic() {
    let store = Store::new();
    let mut sched = Scheduler::new(String::from("t"), String::from("me"), user());
    let r = sched.tick(100, &store);
    assert!(matches!(r, Err(Error::Database(_))));
}

#[test]
fn cache_is_at_most_one_interval_stale() {
    let store = seeded_store("t", "me", &["a"]);
    let mut sched = Scheduler::new(String::from("t"), String::from("me"), user());
    sched.tick(100, &store).unwrap();
    assert_eq!(sched.last_member_refresh, 100);
    assert!(!sched.needs_refresh(100 + MEMBER_CACHE_REFRESH_INTERVAL));
    assert!(sched.needs_refresh(101 + MEMBER_CACHE_REFRESH_INTERVAL));

    // within the interval the cached list serves, even if the store moved on
    let moved = seeded_store("t", "me", &["a", "late"]);
    sched.tick(100 + CHECK_IN_INTERVAL, &moved).unwrap();
    assert_eq!(sched.cached_members, vec![String::from("me"), String::from("a")]);
    // once stale, the next tick reloads it
    sched.tick(200, &moved).unwrap();
    assert_eq!(
        sched.cached_members,
        vec![String::from("me"), String::from("a"), String::from("late")]
    );
    assert_eq!(sched.last_member_refresh, 200);
}

#[test]
fn unchanged_member_set_keeps_the_cache() {
    let store = seeded_store("t", "me", &["a"]);
    let mut sched = Scheduler::new(String::from("t"), String::from("me"), user());
    sched.tick(0, &store).unwrap();
    let before = sched.cached_members.clone();
    // same peers, stale clock: refresh happens but the cache is kept
    sched.tick(100, &store).unwrap();
    assert_eq!(sched.cached_members, before);
    assert_eq!(sched.last_member_refresh, 100);
}

#[test]
fn phase_machine_follows_the_subscription_lifecycle() {
    assert_eq!(phase_step(Phase::Joining, PhaseEvent::JoinConfirmed), Phase::Active);
    assert_eq!(phase_step(Phase::Active, PhaseEvent::CancelRequested), Phase::Cancelled);
    assert_eq!(phase_step(Phase::Active, PhaseEvent::FatalError), Phase::Errored);
    assert_eq!(phase_step(Phase::Joining, PhaseEvent::CancelRequested), Phase::Cancelled);
    // terminal phases absorb everything
    assert_eq!(phase_step(Phase::Cancelled, PhaseEvent::JoinConfirmed), Phase::Cancelled);
    assert_eq!(phase_step(Phase::Errored, PhaseEvent::CancelRequested), Phase::Errored);
}

#[test]
fn race_resolution_matches_the_contract() {
    let r: RaceResolution = resolve_race(RaceWinner::Cancelled);
    assert!(r.abort_scheduler && r.abort_dispatcher && r.outcome.is_none());

    let r = resolve_race(RaceWinner::DispatcherFinished(None));
    assert!(r.abort_scheduler && !r.abort_dispatcher && r.outcome.is_none());

    let r = resolve_race(RaceWinner::DispatcherFinished(Some(Error::Database(String::from("x")))));
    assert!(r.abort_scheduler && !r.abort_dispatcher);
    assert!(matches!(r.outcome, Some(Error::Database(_))));

    let r = resolve_race(RaceWinner::SchedulerFinished(Some(Error::Generic(String::from("y")))));
    assert!(!r.abort_scheduler && r.abort_dispatcher);
    assert!(matches!(r.outcome, Some(Error::Generic(_))));
}

#[test]
fn store_failures_are_fatal_only_during_check_in() {
    assert_eq!(store_error_policy(HandlerKind::CheckIn), StoreErrorPolicy::Fatal);
    assert_eq!(store_error_policy(HandlerKind::Chat), StoreErrorPolicy::SkipItem);
    assert_eq!(store_error_policy(HandlerKind::File), StoreErrorPolicy::SkipItem);
    assert_eq!(store_error_policy(HandlerKind::FileBatch), StoreErrorPolicy::SkipItem);
}

#[test]
fn error_codes_and_messages() {
    let e = Error::GossipSubscription(String::from("join refused"));
    assert_eq!(e.code(), "gossip_subscription");
    assert_eq!(e.message(), "join refused");
    assert_eq!(Error::Io(String::from("x")).code(), "io");
    assert_eq!(Error::Database(String::from("x")).code(), "database");
    assert_eq!(Error::Migration(String::from("x")).code(), "database");
    assert_eq!(Error::Generic(String::from("x")).code(), "generic");
    assert_eq!(Error::EncodeDecode(String::from("x")).code(), "encode_decode");
    assert_eq!(Error::MalformedTicket(String::from("x")).code(), "encode_decode");
    assert_eq!(Error::Endpoint(String::from("x")).code(), "endpoint");
    assert_eq!(Error::Serde(String::from("x")).code(), "serde");
}
