//! The per-peer watermark map carried inside a check-in message.
//!
//! Maps a member's node id to the newest `shared_at` timestamp the sender
//! has recorded from that member.  Kept as an association vector so that
//! the contents have a deterministic order on the wire; its mathematical
//! view is a `Map` from node id to timestamp.

use vstd::prelude::*;

verus! {

use vstd::pervasive::VecAdditionalExecFns;

/// One entry of a [`SyncMap`]: a member's node id and the newest
/// `shared_at` timestamp recorded from that member.
pub struct SyncEntry {
    pub node: String,
    pub ts: i64,
}

/// Ghost view of one entry.
pub ghost struct SyncEntryV {
    pub node: Seq<char>,
    pub ts: int,
}

impl View for SyncEntry {
    type V = SyncEntryV;

    open spec fn view(&self) -> SyncEntryV {
        SyncEntryV { node: self.node@, ts: self.ts as int }
    }
}

impl DeepView for SyncEntry {
    type V = SyncEntryV;

    open spec fn deep_view(&self) -> SyncEntryV {
        self@
    }
}

/// The watermark map: node id -> newest recorded `shared_at`.
pub struct SyncMap {
    pub entries: Vec<SyncEntry>,
}

/// The `Map` denoted by a sequence of entries; later entries win.
pub open spec fn entries_map(s: Seq<SyncEntryV>) -> Map<Seq<char>, int>
    decreases s.len(),
{
    if s.len() == 0 {
        Map::empty()
    } else {
        entries_map(s.drop_last()).insert(s.last().node, s.last().ts)
    }
}

impl View for SyncMap {
    type V = Map<Seq<char>, int>;

    open spec fn view(&self) -> Map<Seq<char>, int> {
        entries_map(self.entries.deep_view())
    }
}

impl SyncMap {
    /// No entry names the same node twice.
    pub open spec fn wf(&self) -> bool {
        forall|i: int, j: int|
            0 <= i < j < self.entries@.len() ==> self.entries@[i]@.node != self.entries@[j]@.node
    }

    /// An empty watermark map.
    pub fn new() -> (r: SyncMap)
        ensures
            r.wf(),
            r@ == Map::<Seq<char>, int>::empty(),
            r.entries@.len() == 0,
    {
        SyncMap { entries: Vec::new() }
    }

    /// How many members have an entry.
    pub fn len(&self) -> (r: usize)
        requires
            self.wf(),
        ensures
            r == self.entries@.len(),
            r == self@.dom().len(),
    {
        proof {
            lemma_entries_map_distinct_len(self.entries.deep_view());
        }
        self.entries.len()
    }

    /// The recorded timestamp for `node`, if one is present.
    pub fn get(&self, node: &String) -> (r: Option<i64>)
        requires
            self.wf(),
        ensures
            match r {
                Some(t) => self@.contains_key(node@) && self@[node@] == t as int,
                None => !self@.contains_key(node@),
            },
    {
        let n = self.entries.len();
        let mut i: usize = 0;
        while i < n
            invariant
                n == self.entries@.len(),
                0 <= i <= n,
                self.wf(),
                forall|k: int| 0 <= k < i ==> self.entries@[k]@.node != node@,
            decreases n - i,
        {
            if self.entries[i].node == *node {
                proof {
                    lemma_entries_map_index(self.entries.deep_view(), i as int);
                }
                return Some(self.entries[i].ts);
            }
            i = i + 1;
        }
        proof {
            lemma_entries_map_dom(self.entries.deep_view(), node@);
        }
        None
    }

    /// Record `ts` for `node`, replacing any earlier entry for it.
    pub fn insert(&mut self, node: String, ts: i64)
        requires
            old(self).wf(),
        ensures
            final(self).wf(),
            final(self)@ == old(self)@.insert(node@, ts as int),
    {
        let n = self.entries.len();
        let mut i: usize = 0;
        while i < n
            invariant
                n == self.entries@.len(),
                0 <= i <= n,
                self.wf(),
                self == old(self),
                forall|k: int| 0 <= k < i ==> self.entries@[k]@.node != node@,
            decreases n - i,
        {
            if self.entries[i].node == node {
                let ghost pre = self.entries.deep_view();
                self.entries.set(i, SyncEntry { node, ts });
                proof {
                    lemma_entries_map_update(pre, i as int, SyncEntryV { node: pre[i as int].node, ts: ts as int });
                    assert(self.entries.deep_view() =~= pre.update(i as int, SyncEntryV { node: pre[i as int].node, ts: ts as int }));
                }
                return;
            }
            i = i + 1;
        }
        let ghost pre = self.entries.deep_view();
        self.entries.push(SyncEntry { node, ts });
        proof {
            assert(self.entries.deep_view() =~= pre.push(SyncEntryV { node: node@, ts: ts as int }));
            assert(self.entries.deep_view().drop_last() =~= pre);
            lemma_entries_map_dom(pre, node@);
        }
    }
}

/// Looking up the node named at index `i` of a duplicate-free entry list
/// yields that entry's timestamp.
proof fn lemma_entries_map_index(s: Seq<SyncEntryV>, i: int)
    requires
        0 <= i < s.len(),
        forall|p: int, q: int| 0 <= p < q < s.len() ==> s[p].node != s[q].node,
    ensures
        entries_map(s).contains_key(s[i].node),
        entries_map(s)[s[i].node] == s[i].ts,
    decreases s.len(),
{
    if i + 1 < s.len() {
        assert(s.drop_last()[i] == s[i]);
        lemma_entries_map_index(s.drop_last(), i);
    }
}

/// A node named by no entry is outside the denoted map's domain.
proof fn lemma_entries_map_dom(s: Seq<SyncEntryV>, node: Seq<char>)
    requires
        forall|k: int| 0 <= k < s.len() ==> s[k].node != node,
    ensures
        !entries_map(s).contains_key(node),
    decreases s.len(),
{
    if s.len() > 0 {
        lemma_entries_map_dom(s.drop_last(), node);
    }
}

/// Replacing the entry at `i` (same node, new timestamp) in a
/// duplicate-free list updates the denoted map at that node alone.
proof fn lemma_entries_map_update(s: Seq<SyncEntryV>, i: int, e: SyncEntryV)
    requires
        0 <= i < s.len(),
        e.node == s[i].node,
        forall|p: int, q: int| 0 <= p < q < s.len() ==> s[p].node != s[q].node,
    ensures
        entries_map(s.update(i, e)) == entries_map(s).insert(e.node, e.ts),
    decreases s.len(),
{
    let su = s.update(i, e);
    if i + 1 == s.len() {
        assert(su.drop_last() =~= s.drop_last());
        assert(su.last() == e);
        assert(entries_map(su) =~= entries_map(s).insert(e.node, e.ts));
    } else {
        assert(su.drop_last() =~= s.drop_last().update(i, e));
        lemma_entries_map_update(s.drop_last(), i, e);
        assert(su.last() == s.last());
        assert(entries_map(su) =~= entries_map(s).insert(e.node, e.ts)) by {
            assert(entries_map(su) == entries_map(s.drop_last()).insert(e.node, e.ts).insert(s.last().node, s.last().ts));
            lemma_entries_map_index(s, i);
            assert(e.node != s.last().node);
        }
    }
}

/// A duplicate-free entry list denotes a map whose domain has exactly one
/// element per entry.
proof fn lemma_entries_map_distinct_len(s: Seq<SyncEntryV>)
    requires
        forall|p: int, q: int| 0 <= p < q < s.len() ==> s[p].node != s[q].node,
    ensures
        entries_map(s).dom().finite(),
        entries_map(s).dom().len() == s.len(),
    decreases s.len(),
{
    if s.len() > 0 {
        lemma_entries_map_distinct_len(s.drop_last());
        lemma_entries_map_dom(s.drop_last(), s.last().node);
    }
}

} // verus!
