//! The record store model: files, topics, nodes and users, with the
//! uniqueness invariants the protocol relies on.
//!
//! The surrounding process persists these records; the protocol's own
//! obligations — one file record per content hash, sequential row ids,
//! unique topic and node identifiers, the exact result of every query
//! the scheduler and dispatcher issue — are stated and proved here.

use vstd::prelude::*;

use crate::errors::Error;
use crate::records::{File, FileStatus, FileV, Node, NodeV, Topic, TopicV, TsFilter, User, UserV};
use crate::sync_map::SyncMap;

verus! {

use vstd::multiset::Multiset;
use vstd::pervasive::VecAdditionalExecFns;
use vstd::string::StringExecFns;

/// Ghost view of the whole store.
pub ghost struct StoreV {
    pub files: Seq<FileV>,
    pub topics: Seq<TopicV>,
    pub nodes: Seq<NodeV>,
    pub users: Seq<UserV>,
}

/// The record store.
pub struct Store {
    pub files: Vec<File>,
    pub topics: Vec<Topic>,
    pub nodes: Vec<Node>,
    pub users: Vec<User>,
}

impl View for Store {
    type V = StoreV;

    open spec fn view(&self) -> StoreV {
        StoreV {
            files: self.files.deep_view(),
            topics: self.topics.deep_view(),
            nodes: self.nodes.deep_view(),
            users: self.users.deep_view(),
        }
    }
}

/// Some file record carries content hash `h`.
pub open spec fn has_file_hash(files: Seq<FileV>, h: Seq<char>) -> bool {
    exists|i: int| 0 <= i < files.len() && (#[trigger] files[i]).hash == h
}

/// Some topic record carries public id `t`.
pub open spec fn has_topic_id(topics: Seq<TopicV>, t: Seq<char>) -> bool {
    exists|i: int| 0 <= i < topics.len() && (#[trigger] topics[i]).topic_id == t
}

/// Some node record carries public node id `n`.
pub open spec fn has_node_id(nodes: Seq<NodeV>, n: Seq<char>) -> bool {
    exists|i: int| 0 <= i < nodes.len() && (#[trigger] nodes[i]).node_id == n
}

/// Some user record is bound to node row `id`.
pub open spec fn has_user_for_node(users: Seq<UserV>, id: int) -> bool {
    exists|i: int| 0 <= i < users.len() && (#[trigger] users[i]).node_id == Some(id)
}

/// Whether a file record passes the dispatcher's and scheduler's query
/// filters: same topic, optionally same owning node, optionally strictly
/// newer than a watermark.
pub open spec fn file_matches(f: FileV, topic: Seq<char>, node: Option<Seq<char>>, w: Option<int>) -> bool {
    &&& f.topic_id == topic
    &&& match node {
        Some(n) => f.node_id == n,
        None => true,
    }
    &&& match w {
        Some(t) => f.shared_at > t,
        None => true,
    }
}

/// The watermark denoted by an optional timestamp filter.
pub open spec fn watermark_of(ts: Option<TsFilter>) -> Option<int> {
    match ts {
        Some(t) => Some(t.timestamp as int),
        None => None,
    }
}

/// The query predicate of `list_files`, as a function of its filters.
pub open spec fn list_pred(topic: Seq<char>, node: Option<Seq<char>>, w: Option<int>) -> spec_fn(FileV) -> bool {
    |f: FileV| file_matches(f, topic, node, w)
}

/// Newest `shared_at` among the files of `node` in `topic`, if any.
pub open spec fn latest_shared_at(files: Seq<FileV>, topic: Seq<char>, node: Seq<char>) -> Option<int>
    decreases files.len(),
{
    if files.len() == 0 {
        None
    } else {
        let rest = latest_shared_at(files.drop_last(), topic, node);
        if files.last().topic_id == topic && files.last().node_id == node {
            match rest {
                Some(m) => if files.last().shared_at > m {
                    Some(files.last().shared_at)
                } else {
                    Some(m)
                },
                None => Some(files.last().shared_at),
            }
        } else {
            rest
        }
    }
}

/// The timestamp the scheduler reports for a member: the newest
/// `shared_at` recorded from it, or 0 when it has no files.
pub open spec fn reported_ts(files: Seq<FileV>, topic: Seq<char>, node: Seq<char>) -> int {
    match latest_shared_at(files, topic, node) {
        Some(m) => m,
        None => 0,
    }
}

/// Sorted newest-first on `shared_at`.
pub open spec fn sorted_desc(s: Seq<FileV>) -> bool {
    forall|i: int, j: int| 0 <= i < j < s.len() ==> #[trigger] s[i].shared_at >= #[trigger] s[j].shared_at
}

/// Row ids strictly ascend: the store's insertion order.
pub open spec fn ids_asc(s: Seq<FileV>) -> bool {
    forall|a: int, b: int| 0 <= a < b < s.len() ==> #[trigger] s[a].id < #[trigger] s[b].id
}

/// Among records with equal `shared_at`, row ids ascend — ties keep the
/// store's insertion order.
pub open spec fn ties_by_id_asc(s: Seq<FileV>) -> bool {
    forall|a: int, b: int|
        0 <= a < b < s.len() && #[trigger] s[a].shared_at == #[trigger] s[b].shared_at ==> s[a].id
            < s[b].id
}

impl Store {
    /// Row ids are sequential and the protocol's uniqueness invariants
    /// hold: one file record per hash, one topic record per topic id,
    /// one node record per node id.
    pub open spec fn wf(&self) -> bool {
        &&& forall|i: int| 0 <= i < self@.files.len() ==> (#[trigger] self@.files[i]).id == i + 1
        &&& forall|i: int, j: int|
            0 <= i < j < self@.files.len() ==> self@.files[i].hash != self@.files[j].hash
        &&& self@.files.len() < 0x7fff_ffff_ffff_ffff
        &&& forall|i: int| 0 <= i < self@.topics.len() ==> (#[trigger] self@.topics[i]).id == i + 1
        &&& forall|i: int, j: int|
            0 <= i < j < self@.topics.len() ==> self@.topics[i].topic_id != self@.topics[j].topic_id
        &&& self@.topics.len() < 0x7fff_ffff_ffff_ffff
        &&& forall|i: int| 0 <= i < self@.nodes.len() ==> (#[trigger] self@.nodes[i]).id == i + 1
        &&& forall|i: int, j: int|
            0 <= i < j < self@.nodes.len() ==> self@.nodes[i].node_id != self@.nodes[j].node_id
        &&& self@.nodes.len() < 0x7fff_ffff_ffff_ffff
        &&& forall|i: int| 0 <= i < self@.users.len() ==> (#[trigger] self@.users[i]).id == i + 1
        &&& self@.users.len() < 0x7fff_ffff_ffff_ffff
    }

    /// An empty store.
    pub fn new() -> (r: Store)
        ensures
            r.wf(),
            r@.files.len() == 0,
            r@.topics.len() == 0,
            r@.nodes.len() == 0,
            r@.users.len() == 0,
    {
        let r = Store { files: Vec::new(), topics: Vec::new(), nodes: Vec::new(), users: Vec::new() };
        proof {
            assert(r@.files =~= Seq::<FileV>::empty());
            assert(r@.topics =~= Seq::<TopicV>::empty());
            assert(r@.nodes =~= Seq::<NodeV>::empty());
            assert(r@.users =~= Seq::<UserV>::empty());
        }
        r
    }

    /// Insert a file record, assigning the next row id.  Fails, leaving
    /// the store unchanged, exactly when a record with the same content
    /// hash already exists — the store-level guarantee behind idempotent
    /// replication.
    pub fn create_file(&mut self, file: File) -> (r: Result<File, Error>)
        requires
            old(self).wf(),
        ensures
            final(self).wf(),
            final(self)@.topics == old(self)@.topics,
            final(self)@.nodes == old(self)@.nodes,
            final(self)@.users == old(self)@.users,
            r is Ok <==> (!has_file_hash(old(self)@.files, file@.hash) && old(self)@.files.len() + 1
                < 0x7fff_ffff_ffff_ffff),
            r matches Ok(f) ==> {
                &&& f@ == (FileV { id: old(self)@.files.len() as int + 1, ..file@ })
                &&& final(self)@.files == old(self)@.files.push(f@)
            },
            r is Err ==> final(self)@ == old(self)@,
    {
        let n = self.files.len();
        let mut i: usize = 0;
        while i < n
            invariant
                n == self@.files.len(),
                0 <= i <= n,
                self == old(self),
                old(self).wf(),
                forall|k: int| 0 <= k < i ==> (#[trigger] self@.files[k]).hash != file@.hash,
            decreases n - i,
        {
            if self.files[i].hash == file.hash {
                proof {
                    assert(old(self)@.files[i as int].hash == file@.hash);
                    assert(has_file_hash(old(self)@.files, file@.hash));
                }
                return Err(Error::Database(String::from_str("file hash already present")));
            }
            i = i + 1;
        }
        if (n as u64) >= 0x7fff_ffff_ffff_fffeu64 {
            return Err(Error::Database(String::from_str("file table is full")));
        }
        let mut stored = file;
        stored.id = (n as i64) + 1;
        let out = stored.duplicate();
        let ghost pre = self@.files;
        self.files.push(stored);
        proof {
            assert(self@.files =~= pre.push(out@));
        }
        Ok(out)
    }

    /// The record carrying content hash `hash`, if one exists.
    pub fn get_file_by_hash(&self, hash: String) -> (r: Result<File, Error>)
        requires
            self.wf(),
        ensures
            r is Ok <==> has_file_hash(self@.files, hash@),
            r matches Ok(f) ==> f@.hash == hash@ && self@.files.contains(f@),
    {
        let n = self.files.len();
        let mut i: usize = 0;
        while i < n
            invariant
                n == self@.files.len(),
                0 <= i <= n,
                self.wf(),
                forall|k: int| 0 <= k < i ==> (#[trigger] self@.files[k]).hash != hash@,
            decreases n - i,
        {
            if self.files[i].hash == hash {
                let f = self.files[i].duplicate();
                proof {
                    assert(self@.files[i as int] == f@);
                    assert(has_file_hash(self@.files, hash@));
                    assert(self@.files.contains(f@));
                }
                return Ok(f);
            }
            i = i + 1;
        }
        Err(Error::Database(String::from_str("no file with this hash")))
    }

    /// Every record of `topic_id` passing the optional owner and
    /// watermark filters, ordered newest-first on `shared_at`, ties in
    /// insertion (row id) order.
    pub fn list_files(&self, topic_id: String, node_id: Option<String>, ts_filter: Option<TsFilter>) -> (r: Result<
        Vec<File>,
        Error,
    >)
        requires
            self.wf(),
        ensures
            r is Ok,
            r matches Ok(v) ==> {
                let node = match node_id {
                    Some(n) => Some(n@),
                    None => None,
                };
                let sel = self@.files.filter(list_pred(topic_id@, node, watermark_of(ts_filter)));
                &&& v.deep_view().to_multiset() == sel.to_multiset()
                &&& sorted_desc(v.deep_view())
                &&& ties_by_id_asc(v.deep_view())
            },
    {
        let ghost node: Option<Seq<char>> = match node_id {
            Some(ref n) => Some(n@),
            None => None,
        };
        let ghost pred = list_pred(topic_id@, node, watermark_of(ts_filter));
        let n = self.files.len();
        let mut selected: Vec<File> = Vec::new();
        let mut i: usize = 0;
        proof {
            reveal(Seq::filter);
            assert(self@.files.subrange(0, 0).filter(pred) =~= Seq::<FileV>::empty());
            assert(selected.deep_view() =~= Seq::<FileV>::empty());
        }
        while i < n
            invariant
                n == self@.files.len(),
                0 <= i <= n,
                self.wf(),
                node == (match node_id {
                    Some(ref n) => Some(n@),
                    None => None::<Seq<char>>,
                }),
                pred == list_pred(topic_id@, node, watermark_of(ts_filter)),
                selected.deep_view() == self@.files.subrange(0, i as int).filter(pred),
                ids_asc(selected.deep_view()),
                forall|a: int|
                    0 <= a < selected.deep_view().len() ==> (
                    #[trigger] selected.deep_view()[a]).id <= i,
            decreases n - i,
        {
            let f = &self.files[i];
            let mut keep = f.topic_id == topic_id;
            match &node_id {
                Some(nid) => {
                    if keep {
                        keep = f.node_id == *nid;
                    }
                },
                None => {},
            }
            match &ts_filter {
                Some(ts) => {
                    if keep {
                        keep = f.shared_at > ts.timestamp;
                    }
                },
                None => {},
            }
            assert(keep == pred(f@));
            let ghost pre_sel = selected.deep_view();
            if keep {
                selected.push(f.duplicate());
            }
            proof {
                let pre = self@.files.subrange(0, i as int);
                let cur = self@.files.subrange(0, i + 1 as int);
                assert(cur.drop_last() =~= pre);
                assert(cur.last() == self@.files[i as int]);
                assert(f@ == self@.files[i as int]);
                lemma_filter_step(cur, pred);
                if keep {
                    assert(selected.deep_view() =~= pre_sel.push(self@.files[i as int]));
                    assert(cur.filter(pred) == pre.filter(pred).push(cur.last()));
                    assert(self@.files[i as int].id == i + 1);
                } else {
                    assert(cur.filter(pred) == pre.filter(pred));
                }
                assert(selected.deep_view() =~= cur.filter(pred));
            }
            i = i + 1;
        }
        proof {
            assert(self@.files.subrange(0, n as int) =~= self@.files);
        }
        Ok(sort_files_desc(selected))
    }

    /// Set the status of the record with row id `id`.  Fails, leaving the
    /// store unchanged, exactly when no such row exists.
    pub fn update_file(&mut self, id: i64, status: FileStatus) -> (r: Result<File, Error>)
        requires
            old(self).wf(),
        ensures
            final(self).wf(),
            final(self)@.topics == old(self)@.topics,
            final(self)@.nodes == old(self)@.nodes,
            final(self)@.users == old(self)@.users,
            r is Ok <==> 1 <= id <= old(self)@.files.len(),
            r matches Ok(f) ==> {
                &&& f@ == (FileV { status: status, ..old(self)@.files[id - 1] })
                &&& final(self)@.files == old(self)@.files.update(id - 1, f@)
            },
            r is Err ==> final(self)@ == old(self)@,
    {
        if id < 1 || id > self.files.len() as i64 {
            return Err(Error::Database(String::from_str("no file with this id")));
        }
        let idx = (id - 1) as usize;
        let mut f = self.files[idx].duplicate();
        f.status = status;
        let out = f.duplicate();
        let ghost pre = self@.files;
        self.files.set(idx, f);
        proof {
            assert(self@.files =~= pre.update(id - 1, out@));
        }
        Ok(out)
    }

    /// The newest `shared_at` per member, over the files of `topic_id`,
    /// defaulting to 0 for a member with no files — one batched lookup
    /// for the scheduler.
    pub fn get_latest_file_timestamps_by_members(&self, topic_id: &String, members: &Vec<String>) -> (r: Result<
        SyncMap,
        Error,
    >)
        requires
            self.wf(),
        ensures
            r is Ok,
            r matches Ok(m) ==> {
                &&& m.wf()
                &&& m@.dom() == members.deep_view().to_set()
                &&& forall|k: int|
                    0 <= k < members.deep_view().len() ==> m@[#[trigger] members.deep_view()[k]]
                        == reported_ts(self@.files, topic_id@, members.deep_view()[k])
            },
    {
        let mut out = SyncMap::new();
        let n = members.len();
        let mut i: usize = 0;
        while i < n
            invariant
                n == members@.len(),
                0 <= i <= n,
                self.wf(),
                out.wf(),
                out@.dom() =~= members.deep_view().subrange(0, i as int).to_set(),
                forall|k: int|
                    0 <= k < i ==> out@[#[trigger] members.deep_view()[k]] == reported_ts(
                        self@.files,
                        topic_id@,
                        members.deep_view()[k],
                    ),
            decreases n - i,
        {
            let member = &members[i];
            let ts = self.latest_for(topic_id, member);
            out.insert(member.clone(), ts);
            proof {
                let pre = members.deep_view().subrange(0, i as int);
                let cur = members.deep_view().subrange(0, i + 1 as int);
                assert(cur.drop_last() =~= pre);
                assert(cur.last() == members.deep_view()[i as int]);
                assert(cur.to_set() =~= pre.to_set().insert(members.deep_view()[i as int])) by {
                    broadcast use vstd::seq_lib::group_seq_properties;

                    assert(forall|x: Seq<char>| cur.contains(x) <==> pre.contains(x) || x == cur.last());
                }
                assert(out@.dom() =~= cur.to_set());
            }
            i = i + 1;
        }
        proof {
            assert(members.deep_view().subrange(0, n as int) =~= members.deep_view());
        }
        Ok(out)
    }

    /// The newest `shared_at` among `node`'s files in `topic`, or 0.
    fn latest_for(&self, topic: &String, node: &String) -> (r: i64)
        requires
            self.wf(),
        ensures
            r as int == reported_ts(self@.files, topic@, node@),
    {
        let n = self.files.len();
        let mut best: i64 = 0;
        let mut found = false;
        let mut i: usize = 0;
        while i < n
            invariant
                n == self@.files.len(),
                0 <= i <= n,
                self.wf(),
                (match latest_shared_at(self@.files.subrange(0, i as int), topic@, node@) {
                    Some(m) => found && best as int == m,
                    None => !found,
                }),
            decreases n - i,
        {
            let f = &self.files[i];
            proof {
                let pre = self@.files.subrange(0, i as int);
                let cur = self@.files.subrange(0, i + 1 as int);
                assert(cur.drop_last() =~= pre);
                assert(cur.last() == self@.files[i as int]);
            }
            if f.topic_id == *topic && f.node_id == *node {
                if !found || f.shared_at > best {
                    best = f.shared_at;
                }
                found = true;
            }
            i = i + 1;
        }
        proof {
            assert(self@.files.subrange(0, n as int) =~= self@.files);
        }
        if found {
            best
        } else {
            0
        }
    }
}

impl Store {
    /// Insert a topic record, assigning the next row id.  Fails, leaving
    /// the store unchanged, exactly when a record with the same public
    /// topic id already exists.
    pub fn create_topic(&mut self, topic: Topic) -> (r: Result<Topic, Error>)
        requires
            old(self).wf(),
        ensures
            final(self).wf(),
            final(self)@.files == old(self)@.files,
            final(self)@.nodes == old(self)@.nodes,
            final(self)@.users == old(self)@.users,
            r is Ok <==> (!has_topic_id(old(self)@.topics, topic@.topic_id) && old(self)@.topics.len() + 1
                < 0x7fff_ffff_ffff_ffff),
            r matches Ok(t) ==> {
                &&& t@ == (TopicV { id: old(self)@.topics.len() as int + 1, ..topic@ })
                &&& final(self)@.topics == old(self)@.topics.push(t@)
            },
            r is Err ==> final(self)@ == old(self)@,
    {
        let n = self.topics.len();
        let mut i: usize = 0;
        while i < n
            invariant
                n == self@.topics.len(),
                0 <= i <= n,
                self == old(self),
                old(self).wf(),
                forall|k: int| 0 <= k < i ==> (#[trigger] self@.topics[k]).topic_id != topic@.topic_id,
            decreases n - i,
        {
            if self.topics[i].topic_id == topic.topic_id {
                proof {
                    assert(old(self)@.topics[i as int].topic_id == topic@.topic_id);
                    assert(has_topic_id(old(self)@.topics, topic@.topic_id));
                }
                return Err(Error::Database(String::from_str("topic id already present")));
            }
            i = i + 1;
        }
        if (n as u64) >= 0x7fff_ffff_ffff_fffeu64 {
            return Err(Error::Database(String::from_str("topic table is full")));
        }
        let mut stored = topic;
        stored.id = (n as i64) + 1;
        let out = stored.duplicate();
        let ghost pre = self@.topics;
        self.topics.push(stored);
        proof {
            assert(self@.topics =~= pre.push(out@));
        }
        Ok(out)
    }

    /// The topic with row id `id`, if that row exists.
    pub fn get_topic_by_id(&self, id: i64) -> (r: Result<Topic, Error>)
        requires
            self.wf(),
        ensures
            r is Ok <==> 1 <= id <= self@.topics.len(),
            r matches Ok(t) ==> t@ == self@.topics[id - 1],
    {
        if id < 1 || id > self.topics.len() as i64 {
            return Err(Error::Database(String::from_str("no topic with this id")));
        }
        let idx = (id - 1) as usize;
        Ok(self.topics[idx].duplicate())
    }

    /// The topic with public id `topic_id`, if one exists.
    pub fn get_topic_by_topic_id(&self, topic_id: String) -> (r: Result<Topic, Error>)
        requires
            self.wf(),
        ensures
            r is Ok <==> has_topic_id(self@.topics, topic_id@),
            r matches Ok(t) ==> t@.topic_id == topic_id@ && self@.topics.contains(t@),
    {
        let n = self.topics.len();
        let mut i: usize = 0;
        while i < n
            invariant
                n == self@.topics.len(),
                0 <= i <= n,
                self.wf(),
                forall|k: int| 0 <= k < i ==> (#[trigger] self@.topics[k]).topic_id != topic_id@,
            decreases n - i,
        {
            if self.topics[i].topic_id == topic_id {
                let t = self.topics[i].duplicate();
                proof {
                    assert(self@.topics[i as int] == t@);
                    assert(has_topic_id(self@.topics, topic_id@));
                    assert(self@.topics.contains(t@));
                }
                return Ok(t);
            }
            i = i + 1;
        }
        Err(Error::Database(String::from_str("no topic with this topic id")))
    }

    /// Every topic record.
    pub fn list_topics(&self) -> (r: Result<Vec<Topic>, Error>)
        requires
            self.wf(),
        ensures
            r is Ok,
            r matches Ok(v) ==> v.deep_view() == self@.topics,
    {
        let n = self.topics.len();
        let mut out: Vec<Topic> = Vec::new();
        let mut i: usize = 0;
        while i < n
            invariant
                n == self@.topics.len(),
                0 <= i <= n,
                self.wf(),
                out@.len() == i,
                forall|k: int| 0 <= k < i ==> #[trigger] out@[k]@ == self@.topics[k],
            decreases n - i,
        {
            out.push(self.topics[i].duplicate());
            i = i + 1;
        }
        proof {
            assert(out.deep_view() =~= self@.topics);
        }
        Ok(out)
    }

    /// Replace the member list of the topic with row id `id`.  Fails,
    /// leaving the store unchanged, exactly when no such row exists.
    pub fn update_topic(&mut self, id: i64, members: Vec<String>) -> (r: Result<Topic, Error>)
        requires
            old(self).wf(),
        ensures
            final(self).wf(),
            final(self)@.files == old(self)@.files,
            final(self)@.nodes == old(self)@.nodes,
            final(self)@.users == old(self)@.users,
            r is Ok <==> 1 <= id <= old(self)@.topics.len(),
            r matches Ok(t) ==> {
                &&& t@ == (TopicV { members: Some(members.deep_view()), ..old(self)@.topics[id - 1] })
                &&& final(self)@.topics == old(self)@.topics.update(id - 1, t@)
            },
            r is Err ==> final(self)@ == old(self)@,
    {
        if id < 1 || id > self.topics.len() as i64 {
            return Err(Error::Database(String::from_str("no topic with this id")));
        }
        let idx = (id - 1) as usize;
        let mut t = self.topics[idx].duplicate();
        t.members = Some(members);
        let out = t.duplicate();
        let ghost pre = self@.topics;
        self.topics.set(idx, t);
        proof {
            assert(self@.topics =~= pre.update(id - 1, out@));
        }
        Ok(out)
    }

    /// Insert a node record, assigning the next row id.  Fails, leaving
    /// the store unchanged, exactly when a record with the same public
    /// node id already exists.
    pub fn create_node(&mut self, node: Node) -> (r: Result<Node, Error>)
        requires
            old(self).wf(),
        ensures
            final(self).wf(),
            final(self)@.files == old(self)@.files,
            final(self)@.topics == old(self)@.topics,
            final(self)@.users == old(self)@.users,
            r is Ok <==> (!has_node_id(old(self)@.nodes, node@.node_id) && old(self)@.nodes.len() + 1
                < 0x7fff_ffff_ffff_ffff),
            r matches Ok(o) ==> {
                &&& o@ == (NodeV { id: old(self)@.nodes.len() as int + 1, ..node@ })
                &&& final(self)@.nodes == old(self)@.nodes.push(o@)
            },
            r is Err ==> final(self)@ == old(self)@,
    {
        let n = self.nodes.len();
        let mut i: usize = 0;
        while i < n
            invariant
                n == self@.nodes.len(),
                0 <= i <= n,
                self == old(self),
                old(self).wf(),
                forall|k: int| 0 <= k < i ==> (#[trigger] self@.nodes[k]).node_id != node@.node_id,
            decreases n - i,
        {
            if self.nodes[i].node_id == node.node_id {
                proof {
                    assert(old(self)@.nodes[i as int].node_id == node@.node_id);
                    assert(has_node_id(old(self)@.nodes, node@.node_id));
                }
                return Err(Error::Database(String::from_str("node id already present")));
            }
            i = i + 1;
        }
        if (n as u64) >= 0x7fff_ffff_ffff_fffeu64 {
            return Err(Error::Database(String::from_str("node table is full")));
        }
        let mut stored = node;
        stored.id = (n as i64) + 1;
        let out = stored.duplicate();
        let ghost pre = self@.nodes;
        self.nodes.push(stored);
        proof {
            assert(self@.nodes =~= pre.push(out@));
        }
        Ok(out)
    }

    /// The node with row id `id`, if that row exists.
    pub fn get_node_by_id(&self, id: i64) -> (r: Result<Node, Error>)
        requires
            self.wf(),
        ensures
            r is Ok <==> 1 <= id <= self@.nodes.len(),
            r matches Ok(o) ==> o@ == self@.nodes[id - 1],
    {
        if id < 1 || id > self.nodes.len() as i64 {
            return Err(Error::Database(String::from_str("no node with this id")));
        }
        let idx = (id - 1) as usize;
        Ok(self.nodes[idx].duplicate())
    }

    /// The node with public id `node_id`, if one exists.
    pub fn get_node_by_node_id(&self, node_id: String) -> (r: Result<Node, Error>)
        requires
            self.wf(),
        ensures
            r is Ok <==> has_node_id(self@.nodes, node_id@),
            r matches Ok(o) ==> o@.node_id == node_id@ && self@.nodes.contains(o@),
    {
        let n = self.nodes.len();
        let mut i: usize = 0;
        while i < n
            invariant
                n == self@.nodes.len(),
                0 <= i <= n,
                self.wf(),
                forall|k: int| 0 <= k < i ==> (#[trigger] self@.nodes[k]).node_id != node_id@,
            decreases n - i,
        {
            if self.nodes[i].node_id == node_id {
                let o = self.nodes[i].duplicate();
                proof {
                    assert(self@.nodes[i as int] == o@);
                    assert(has_node_id(self@.nodes, node_id@));
                    assert(self@.nodes.contains(o@));
                }
                return Ok(o);
            }
            i = i + 1;
        }
        Err(Error::Database(String::from_str("no node with this node id")))
    }

    /// Insert a user record, assigning the next row id.
    pub fn create_user(&mut self, user: User) -> (r: Result<User, Error>)
        requires
            old(self).wf(),
        ensures
            final(self).wf(),
            final(self)@.files == old(self)@.files,
            final(self)@.topics == old(self)@.topics,
            final(self)@.nodes == old(self)@.nodes,
            r is Ok <==> old(self)@.users.len() + 1 < 0x7fff_ffff_ffff_ffff,
            r matches Ok(u) ==> {
                &&& u@ == (UserV { id: old(self)@.users.len() as int + 1, ..user@ })
                &&& final(self)@.users == old(self)@.users.push(u@)
            },
            r is Err ==> final(self)@ == old(self)@,
    {
        let n = self.users.len();
        if (n as u64) >= 0x7fff_ffff_ffff_fffeu64 {
            return Err(Error::Database(String::from_str("user table is full")));
        }
        let mut stored = user;
        stored.id = (n as i64) + 1;
        let out = stored.duplicate();
        let ghost pre = self@.users;
        self.users.push(stored);
        proof {
            assert(self@.users =~= pre.push(out@));
        }
        Ok(out)
    }

    /// The user with row id `id`, if that row exists.
    pub fn get_user_by_id(&self, id: i64) -> (r: Result<User, Error>)
        requires
            self.wf(),
        ensures
            r is Ok <==> 1 <= id <= self@.users.len(),
            r matches Ok(u) ==> u@ == self@.users[id - 1],
    {
        if id < 1 || id > self.users.len() as i64 {
            return Err(Error::Database(String::from_str("no user with this id")));
        }
        let idx = (id - 1) as usize;
        Ok(self.users[idx].duplicate())
    }

    /// The user bound to node row `node_id`, if one exists.
    pub fn get_user_by_node_id(&self, node_id: i64) -> (r: Result<User, Error>)
        requires
            self.wf(),
        ensures
            r is Ok <==> has_user_for_node(self@.users, node_id as int),
            r matches Ok(u) ==> u@.node_id == Some(node_id as int) && self@.users.contains(u@),
    {
        let n = self.users.len();
        let mut i: usize = 0;
        while i < n
            invariant
                n == self@.users.len(),
                0 <= i <= n,
                self.wf(),
                forall|k: int| 0 <= k < i ==> (#[trigger] self@.users[k]).node_id != Some(node_id as int),
            decreases n - i,
        {
            let matches_row = match self.users[i].node_id {
                Some(nid) => nid == node_id,
                None => false,
            };
            if matches_row {
                let u = self.users[i].duplicate();
                proof {
                    assert(self@.users[i as int] == u@);
                    assert(has_user_for_node(self@.users, node_id as int));
                    assert(self@.users.contains(u@));
                }
                return Ok(u);
            }
            i = i + 1;
        }
        Err(Error::Database(String::from_str("no user for this node")))
    }
}

/// One unfolding step of `Seq::filter`, seen from the back.
proof fn lemma_filter_step(s: Seq<FileV>, p: spec_fn(FileV) -> bool)
    requires
        s.len() > 0,
    ensures
        s.filter(p) == if p(s.last()) {
            s.drop_last().filter(p).push(s.last())
        } else {
            s.drop_last().filter(p)
        },
{
    reveal(Seq::filter);
}

/// Sort file records newest-first on `shared_at`, keeping the given
/// (insertion) order among equal timestamps; the result holds exactly
/// the given records.
fn sort_files_desc(input: Vec<File>) -> (r: Vec<File>)
    requires
        ids_asc(input.deep_view()),
    ensures
        r.deep_view().to_multiset() == input.deep_view().to_multiset(),
        sorted_desc(r.deep_view()),
        ties_by_id_asc(r.deep_view()),
{
    broadcast use vstd::seq_lib::group_to_multiset_ensures;
    broadcast use vstd::multiset::group_multiset_axioms;

    let mut work = input;
    let mut out: Vec<File> = Vec::new();
    proof {
        assert(out.deep_view() =~= Seq::<FileV>::empty());
        assert(out.deep_view().to_multiset().add(work.deep_view().to_multiset()) =~= input.deep_view().to_multiset());
    }
    while work.len() > 0
        invariant
            out.deep_view().to_multiset().add(work.deep_view().to_multiset()) == input.deep_view().to_multiset(),
            sorted_desc(out.deep_view()),
            ids_asc(work.deep_view()),
            ties_by_id_asc(out.deep_view()),
            forall|a: int, b: int|
                0 <= a < out.deep_view().len() && 0 <= b < work.deep_view().len() ==> (#[trigger] out.deep_view()[a]).shared_at
                    >= (#[trigger] work.deep_view()[b]).shared_at,
            forall|a: int, b: int|
                0 <= a < out.deep_view().len() && 0 <= b < work.deep_view().len() && (
                #[trigger] out.deep_view()[a]).shared_at == (#[trigger] work.deep_view()[b]).shared_at
                    ==> out.deep_view()[a].id < work.deep_view()[b].id,
        decreases work.len(),
    {
        let m = work.len();
        let mut mi: usize = 0;
        let mut k: usize = 1;
        // find the first record carrying the newest timestamp
        while k < m
            invariant
                m == work.deep_view().len(),
                0 <= mi < m,
                1 <= k <= m,
                forall|t: int| 0 <= t < k ==> work.deep_view()[mi as int].shared_at >= (#[trigger] work.deep_view()[t]).shared_at,
                forall|t: int|
                    0 <= t < mi ==> (#[trigger] work.deep_view()[t]).shared_at
                        < work.deep_view()[mi as int].shared_at,
            decreases m - k,
        {
            if work[k].shared_at > work[mi].shared_at {
                mi = k;
            }
            k = k + 1;
        }
        let ghost pre_work = work.deep_view();
        let ghost pre_out = out.deep_view();
        let f = work.remove(mi);
        out.push(f);
        proof {
            assert(f@ == pre_work[mi as int]);
            assert(work.deep_view() =~= pre_work.remove(mi as int));
            assert(out.deep_view() =~= pre_out.push(f@));
            pre_work.remove_ensures(mi as int);
            vstd::seq_lib::to_multiset_remove(pre_work, mi as int);
            vstd::seq_lib::to_multiset_build(pre_out, f@);
            vstd::seq_lib::to_multiset_contains(pre_work, f@);
            assert(pre_work.contains(f@));
            assert(pre_work.to_multiset().count(f@) > 0);
            assert(work.deep_view().to_multiset() == pre_work.to_multiset().remove(f@));
            assert(out.deep_view().to_multiset() == pre_out.to_multiset().insert(f@));
            assert(out.deep_view().to_multiset().add(work.deep_view().to_multiset()) =~= pre_out.to_multiset().add(
                pre_work.to_multiset(),
            ));
            // remaining records keep ascending ids
            assert(ids_asc(work.deep_view())) by {
                assert forall|a: int, b: int|
                    0 <= a < b < work.deep_view().len() implies (#[trigger] work.deep_view()[a]).id
                    < (#[trigger] work.deep_view()[b]).id by {
                    if a < mi {
                        assert(work.deep_view()[a] == pre_work[a]);
                    } else {
                        assert(work.deep_view()[a] == pre_work[a + 1]);
                    }
                    if b < mi {
                        assert(work.deep_view()[b] == pre_work[b]);
                    } else {
                        assert(work.deep_view()[b] == pre_work[b + 1]);
                    }
                }
            }
            // a remaining record with the extracted timestamp stood after
            // the extracted one, so it carries a larger id
            assert forall|b: int|
                0 <= b < work.deep_view().len() && (#[trigger] work.deep_view()[b]).shared_at
                    == f@.shared_at implies f@.id < work.deep_view()[b].id by {
                if b < mi {
                    assert(work.deep_view()[b] == pre_work[b]);
                    assert(pre_work[b].shared_at < pre_work[mi as int].shared_at);
                } else {
                    assert(work.deep_view()[b] == pre_work[b + 1]);
                    assert(pre_work[mi as int].id < pre_work[b + 1].id);
                }
            }
        }
    }
    proof {
        assert(work.deep_view().to_multiset() =~= Multiset::<FileV>::empty());
        assert(out.deep_view().to_multiset() =~= input.deep_view().to_multiset());
    }
    out
}

} // verus!
