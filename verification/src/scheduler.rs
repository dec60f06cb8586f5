//! The check-in scheduler.
//!
//! One scheduler runs per active subscription.  Every tick it refreshes
//! its cached member list from the topic store when the cache is empty
//! or stale, queries the newest `shared_at` per other member in one
//! batched lookup, and builds the check-in envelope to broadcast.  The
//! surrounding process drives the timer and performs the broadcast;
//! broadcast failures are dropped, corrected by the next tick.

use vstd::prelude::*;

use crate::errors::Error;
use crate::model::{CheckIn, Message, MessageType, Metadata, UserInfo};
use crate::records::peers_of;
use crate::store::{has_topic_id, reported_ts, Store};

verus! {

/// Seconds between check-in broadcasts.
pub const CHECK_IN_INTERVAL: i64 = 10;

/// Seconds a cached member list may serve before it is refreshed.
pub const MEMBER_CACHE_REFRESH_INTERVAL: i64 = 60;

/// The scheduler's task-local state.  The cached member list is shared
/// with nobody; staleness up to one refresh interval is by design.
pub struct Scheduler {
    pub topic_id: String,
    pub local_node_id: String,
    pub user: UserInfo,
    pub cached_members: Vec<String>,
    pub last_member_refresh: i64,
}

/// Keep every member that is not the local node.
pub open spec fn not_self_pred(local: Seq<char>) -> spec_fn(Seq<char>) -> bool {
    |x: Seq<char>| x != local
}

/// Whether a freshly loaded peer list differs from the cache: a length
/// mismatch, or a loaded member the cache does not hold.
pub open spec fn members_changed(new: Seq<Seq<char>>, cached: Seq<Seq<char>>) -> bool {
    new.len() != cached.len() || !(forall|i: int| 0 <= i < new.len() ==> cached.contains(#[trigger] new[i]))
}

/// When the length/containment test reports no change and neither list
/// repeats a member, the cached list names exactly the loaded peer set:
/// keeping the cache loses nothing.
pub proof fn lemma_unchanged_cache_same_set(new: Seq<Seq<char>>, cached: Seq<Seq<char>>)
    requires
        !members_changed(new, cached),
        new.no_duplicates(),
        cached.no_duplicates(),
    ensures
        new.to_set() == cached.to_set(),
{
    broadcast use vstd::seq_lib::seq_to_set_is_finite;

    assert(new.to_set().subset_of(cached.to_set())) by {
        assert forall|x: Seq<char>| new.to_set().contains(x) implies cached.to_set().contains(
            x,
        ) by {
            assert(new.contains(x));
            let i = choose|i: int| 0 <= i < new.len() && new[i] == x;
            assert(cached.contains(new[i]));
        }
    }
    new.unique_seq_to_set();
    cached.unique_seq_to_set();
    vstd::set_lib::lemma_subset_equality(new.to_set(), cached.to_set());
}

impl Scheduler {
    /// The refresh clock never stands at a negative reading.
    pub open spec fn wf(&self) -> bool {
        self.last_member_refresh >= 0
    }

    /// A scheduler for one subscription, with an empty member cache.
    pub fn new(topic_id: String, local_node_id: String, user: UserInfo) -> (r: Scheduler)
        ensures
            r.wf(),
            r.topic_id == topic_id,
            r.local_node_id == local_node_id,
            r.user == user,
            r.cached_members@.len() == 0,
            r.last_member_refresh == 0,
    {
        Scheduler {
            topic_id,
            local_node_id,
            user,
            cached_members: Vec::new(),
            last_member_refresh: 0,
        }
    }

    /// Whether the member cache must be reloaded at time `now`: it is
    /// empty, or more than one refresh interval old.
    pub fn needs_refresh(&self, now: i64) -> (r: bool)
        requires
            self.wf(),
            now >= 0,
        ensures
            r == (self.cached_members@.len() == 0 || now - self.last_member_refresh
                > MEMBER_CACHE_REFRESH_INTERVAL),
    {
        self.cached_members.len() == 0 || now - self.last_member_refresh
            > MEMBER_CACHE_REFRESH_INTERVAL
    }

    /// One tick: refresh the cache if due, collect the per-member
    /// watermarks in one batched store lookup, and build the check-in
    /// message.  Fails exactly when a due refresh finds no record of the
    /// topic.  After a successful tick the cache is at most one refresh
    /// interval stale: the staleness bound of the member list.
    pub fn tick(&mut self, now: i64, store: &Store) -> (r: Result<MessageType, Error>)
        requires
            old(self).wf(),
            store.wf(),
            now >= 0,
        ensures
            final(self).wf(),
            final(self).topic_id == old(self).topic_id,
            final(self).local_node_id == old(self).local_node_id,
            final(self).user == old(self).user,
            // refresh outcome
            (if old(self).cached_members@.len() == 0 || now - old(self).last_member_refresh
                > MEMBER_CACHE_REFRESH_INTERVAL {
                &&& (r is Ok <==> has_topic_id(store@.topics, old(self).topic_id@))
                &&& (r is Ok ==> final(self).last_member_refresh == now && (exists|ti: int|
                    0 <= ti < store@.topics.len() && (#[trigger] store@.topics[ti]).topic_id
                        == old(self).topic_id@ && {
                        let peers = peers_of(store@.topics[ti]);
                        if members_changed(peers, old(self).cached_members.deep_view()) {
                            final(self).cached_members.deep_view() == peers
                        } else {
                            final(self).cached_members == old(self).cached_members
                        }
                    }))
            } else {
                &&& r is Ok
                &&& final(self).cached_members == old(self).cached_members
                &&& final(self).last_member_refresh == old(self).last_member_refresh
            }),
            // staleness bound: after any successful tick the cache is at
            // most one refresh interval old
            r is Ok ==> now - final(self).last_member_refresh <= MEMBER_CACHE_REFRESH_INTERVAL,
            // the message carries this node's identity and, per other
            // cached member, the newest shared_at recorded from it
            r matches Ok(msg) ==> (match msg {
                MessageType::CheckIn(m) => {
                    &&& m.data.topic_id@ == old(self).topic_id@
                    &&& m.metadata.sender@ == old(self).local_node_id@
                    &&& m.metadata.ts == now
                    &&& m.metadata.user@ == old(self).user@
                    &&& m.data.sync.wf()
                    &&& ({
                        let members = final(self).cached_members.deep_view();
                        let targets = members.filter(not_self_pred(old(self).local_node_id@));
                        &&& m.data.sync@.dom() == targets.to_set()
                        &&& forall|k: int|
                            0 <= k < targets.len() ==> m.data.sync@[#[trigger] targets[k]]
                                == reported_ts(store@.files, old(self).topic_id@, targets[k])
                    })
                },
                _ => false,
            }),
    {
        if self.needs_refresh(now) {
            let topic = match store.get_topic_by_topic_id(self.topic_id.clone()) {
                Ok(t) => t,
                Err(e) => {
                    return Err(e);
                },
            };
            let ghost ti = choose|k: int|
                0 <= k < store@.topics.len() && #[trigger] store@.topics[k] == topic@;
            let new_members = topic.get_peers();
            let changed = self.members_differ(&new_members);
            if changed {
                self.cached_members = new_members;
            }
            self.last_member_refresh = now;
            proof {
                assert(store@.topics[ti].topic_id == old(self).topic_id@);
            }
        }
        let targets = self.other_members();
        let sync = match store.get_latest_file_timestamps_by_members(&self.topic_id, &targets) {
            Ok(s) => s,
            Err(e) => {
                proof {
                    assert(false);
                }
                return Err(e);
            },
        };
        let metadata = Metadata::new(self.user.duplicate(), self.local_node_id.clone(), Some(now));
        let body = CheckIn::new(self.topic_id.clone(), sync);
        Ok(MessageType::CheckIn(Message::new(body, metadata)))
    }

    /// Whether `new_members` differs from the cache under the length /
    /// containment test.
    fn members_differ(&self, new_members: &Vec<String>) -> (r: bool)
        ensures
            r == members_changed(new_members.deep_view(), self.cached_members.deep_view()),
    {
        let n = new_members.len();
        if n != self.cached_members.len() {
            return true;
        }
        let mut i: usize = 0;
        while i < n
            invariant
                n == new_members@.len(),
                0 <= i <= n,
                forall|k: int|
                    0 <= k < i ==> self.cached_members.deep_view().contains(
                        #[trigger] new_members.deep_view()[k],
                    ),
            decreases n - i,
        {
            if !vec_has_string(&self.cached_members, &new_members[i]) {
                proof {
                    assert(new_members.deep_view()[i as int] == new_members@[i as int]@);
                    assert(!self.cached_members.deep_view().contains(
                        new_members.deep_view()[i as int],
                    ));
                }
                return true;
            }
            i = i + 1;
        }
        false
    }

    /// Every cached member but the local node, in cache order.
    fn other_members(&self) -> (r: Vec<String>)
        ensures
            r.deep_view() == self.cached_members.deep_view().filter(
                not_self_pred(self.local_node_id@),
            ),
    {
        let ghost pred = not_self_pred(self.local_node_id@);
        let n = self.cached_members.len();
        let mut out: Vec<String> = Vec::new();
        let mut i: usize = 0;
        proof {
            reveal(Seq::filter);
            assert(self.cached_members.deep_view().subrange(0, 0).filter(pred) =~~= out.deep_view());
        }
        while i < n
            invariant
                n == self.cached_members@.len(),
                0 <= i <= n,
                pred == not_self_pred(self.local_node_id@),
                out.deep_view() == self.cached_members.deep_view().subrange(0, i as int).filter(
                    pred,
                ),
            decreases n - i,
        {
            let ghost pre_out = out.deep_view();
            let keep = !(self.cached_members[i] == self.local_node_id);
            if keep {
                out.push(self.cached_members[i].clone());
            }
            proof {
                reveal(Seq::filter);
                let dv = self.cached_members.deep_view();
                let pre = dv.subrange(0, i as int);
                let cur = dv.subrange(0, i + 1 as int);
                assert(cur.drop_last() =~= pre);
                assert(cur.last() == dv[i as int]);
                assert(keep == pred(dv[i as int]));
                if keep {
                    assert(out.deep_view() =~~= pre_out.push(dv[i as int]));
                }
                assert(out.deep_view() =~= cur.filter(pred));
            }
            i = i + 1;
        }
        proof {
            assert(self.cached_members.deep_view().subrange(0, n as int)
                =~= self.cached_members.deep_view());
        }
        out
    }
}

/// Whether `v` holds the string `x`.
fn vec_has_string(v: &Vec<String>, x: &String) -> (r: bool)
    ensures
        r == v.deep_view().contains(x@),
{
    let n = v.len();
    let mut i: usize = 0;
    while i < n
        invariant
            n == v@.len(),
            0 <= i <= n,
            forall|k: int| 0 <= k < i ==> v.deep_view()[k] != x@,
        decreases n - i,
    {
        if v[i] == *x {
            proof {
                assert(v.deep_view()[i as int] == x@);
            }
            return true;
        }
        i = i + 1;
    }
    false
}

} // verus!
