//! The inbound dispatcher and the sync reconciliation engine.
//!
//! One dispatcher runs per active subscription.  Each inbound payload is
//! decoded by the surrounding process and handed here; the dispatcher
//! updates the record store, decides which catch-up batches to send, and
//! yields at most one UI notification per event.  Malformed payloads
//! never change state and never terminate the loop; a missing topic
//! record during check-in handling is the one fatal store error.

use vstd::prelude::*;

use crate::errors::Error;
use crate::model;
use crate::model::{MessageType, UserInfo};
use crate::records;
use crate::records::{FileStatus, Node, TsDirection, TsFilter, Topic, TopicV, User};
use crate::store::{
    has_file_hash, has_node_id, has_topic_id, has_user_for_node, list_pred, Store, StoreV,
};

verus! {

use vstd::multiset::Multiset;

/// Most files a single catch-up batch may carry.
pub const MAX_FILES_PER_BATCH: usize = 50;

/// What a parsed blob locator names: the content hash and the format,
/// both in their text forms.
pub struct BlobLocator {
    pub hash: String,
    pub format: String,
}

/// Ghost view of [`BlobLocator`].
pub ghost struct BlobLocatorV {
    pub hash: Seq<char>,
    pub format: Seq<char>,
}

impl View for BlobLocator {
    type V = BlobLocatorV;

    open spec fn view(&self) -> BlobLocatorV {
        BlobLocatorV { hash: self.hash@, format: self.format@ }
    }
}

/// What a locator string parses to, when it parses: a function of the
/// string alone, computed by the blob transport's ticket codec.
pub uninterp spec fn locator_of(s: Seq<char>) -> Option<BlobLocatorV>;

/// Relies on `iroh_blobs::ticket::BlobTicket::from_str` and its `hash`
/// and `format` accessors: parsing is deterministic in the string alone;
/// the hash renders as 64 hex digits, the format as its name.
#[verifier::external_body]
fn parse_locator(s: &String) -> (r: Option<BlobLocator>)
    ensures
        match r {
            Some(l) => locator_of(s@) == Some(l@),
            None => locator_of(s@) is None,
        },
{
    match s.parse::<iroh_blobs::ticket::BlobTicket>() {
        Ok(t) => Some(
            BlobLocator { hash: t.hash().to_string(), format: t.format().to_string() },
        ),
        Err(_) => None,
    }
}

/// One UI-facing notification, at most one per inbound event.
pub enum Notification {
    CheckIn { sender: String, user: UserInfo },
    Chat { sender: String, content: String },
    File { file: records::File },
    FileBatch { files: Vec<records::File>, sender: String },
}

impl Notification {
    /// The event-type tag the UI channel carries.
    pub fn kind_tag(&self) -> (r: &'static str)
        ensures
            r@ == match self {
                Notification::CheckIn { .. } => "check_in"@,
                Notification::Chat { .. } => "chat"@,
                Notification::File { .. } => "file"@,
                Notification::FileBatch { .. } => "file_batch"@,
            },
    {
        match self {
            Notification::CheckIn { .. } => "check_in",
            Notification::Chat { .. } => "chat",
            Notification::File { .. } => "file",
            Notification::FileBatch { .. } => "file_batch",
        }
    }
}

/// The catch-up batches one reconciliation round asks the process to
/// broadcast: ordered chunks of records, addressed to one node.
pub struct CatchUpPlan {
    pub target: String,
    pub chunks: Vec<Vec<records::File>>,
}

/// What one dispatched event asks the process to do.
pub struct DispatchOutcome {
    pub notification: Option<Notification>,
    pub catch_up: Option<CatchUpPlan>,
}

/// The dispatcher's state: who we are, which topic we serve, and the
/// record store.
pub struct DispatcherState {
    pub local_node_id: String,
    pub topic_id: String,
    pub store: Store,
}

impl DispatcherState {
    pub open spec fn wf(&self) -> bool {
        self.store.wf()
    }
}

/// The record the dispatcher creates for a wire file entry, given the
/// locator it parsed.
pub open spec fn record_of_wire(
    files: Seq<records::FileV>,
    topic: Seq<char>,
    sender: Seq<char>,
    w: model::FileV,
    loc: BlobLocatorV,
) -> records::FileV {
    records::FileV {
        id: files.len() as int + 1,
        node_id: sender,
        topic_id: topic,
        hash: loc.hash,
        name: w.file_name,
        absolute_path: None,
        format: loc.format,
        size: w.size,
        status: FileStatus::Shared,
        shared_at: w.shared_at,
    }
}

/// Applying one wire file entry to the file table: create a record on
/// first sight of the hash, do nothing on replay or an unparseable
/// locator.
pub open spec fn spec_apply_file(
    files: Seq<records::FileV>,
    topic: Seq<char>,
    sender: Seq<char>,
    w: model::FileV,
) -> (Seq<records::FileV>, Option<records::FileV>) {
    match locator_of(w.blob_ticket) {
        None => (files, None),
        Some(loc) => {
            if has_file_hash(files, loc.hash) {
                (files, None)
            } else {
                let rec = record_of_wire(files, topic, sender, w, loc);
                (files.push(rec), Some(rec))
            }
        },
    }
}

/// Applying a run of wire file entries in order, collecting the records
/// created.
pub open spec fn spec_apply_files(
    files: Seq<records::FileV>,
    topic: Seq<char>,
    sender: Seq<char>,
    ws: Seq<model::FileV>,
) -> (Seq<records::FileV>, Seq<records::FileV>)
    decreases ws.len(),
{
    if ws.len() == 0 {
        (files, Seq::empty())
    } else {
        let (f1, c1) = spec_apply_file(files, topic, sender, ws[0]);
        let (f2, rest) = spec_apply_files(f1, topic, sender, ws.drop_first());
        (
            f2,
            match c1 {
                Some(r) => seq![r] + rest,
                None => rest,
            },
        )
    }
}

/// A batch is applied only when addressed to this node or to everyone;
/// otherwise it changes nothing.
pub open spec fn spec_apply_batch(
    files: Seq<records::FileV>,
    local: Seq<char>,
    topic: Seq<char>,
    sender: Seq<char>,
    b: model::FileBatchV,
) -> (Seq<records::FileV>, Seq<records::FileV>) {
    if b.sync_request_node == local || b.sync_request_node.len() == 0 {
        spec_apply_files(files, topic, sender, b.files)
    } else {
        (files, Seq::empty())
    }
}

/// A file entry whose hash is already stored changes nothing and
/// creates nothing.
pub proof fn lemma_apply_file_absorbed(
    files: Seq<records::FileV>,
    topic: Seq<char>,
    sender: Seq<char>,
    w: model::FileV,
)
    requires
        match locator_of(w.blob_ticket) {
            Some(loc) => has_file_hash(files, loc.hash),
            None => true,
        },
    ensures
        spec_apply_file(files, topic, sender, w) == (files, None::<records::FileV>),
{
}

/// File idempotence: delivering the same file entry a second time (and
/// so any further time) leaves the file table exactly as after the
/// first delivery and creates no record, so no notification is emitted
/// for the replay.
pub proof fn lemma_file_idempotent(
    files: Seq<records::FileV>,
    topic: Seq<char>,
    sender: Seq<char>,
    w: model::FileV,
)
    ensures
        ({
            let (f1, c1) = spec_apply_file(files, topic, sender, w);
            let (f2, c2) = spec_apply_file(f1, topic, sender, w);
            &&& f2 == f1
            &&& c2 is None
            &&& (match locator_of(w.blob_ticket) {
                Some(loc) => has_file_hash(f1, loc.hash),
                None => f1 == files,
            })
        }),
{
    let (f1, c1) = spec_apply_file(files, topic, sender, w);
    match locator_of(w.blob_ticket) {
        None => {},
        Some(loc) => {
            if !has_file_hash(files, loc.hash) {
                let rec = record_of_wire(files, topic, sender, w, loc);
                assert(f1[files.len() as int] == rec);
                assert(has_file_hash(f1, loc.hash));
            }
            lemma_apply_file_absorbed(f1, topic, sender, w);
        },
    }
}

/// Batch targeting: a batch addressed to node `x` is applied by `x` and
/// ignored — no store change, nothing created — by any other node,
/// unless the address is empty, which every node applies.
pub proof fn lemma_batch_targeting(
    files: Seq<records::FileV>,
    x: Seq<char>,
    y: Seq<char>,
    topic: Seq<char>,
    sender: Seq<char>,
    b: model::FileBatchV,
)
    requires
        b.sync_request_node == x,
        x.len() > 0,
        y != x,
    ensures
        spec_apply_batch(files, x, topic, sender, b) == spec_apply_files(files, topic, sender, b.files),
        spec_apply_batch(files, y, topic, sender, b) == (files, Seq::<records::FileV>::empty()),
{
}

/// A batch addressed to nobody in particular is applied by every node.
pub proof fn lemma_batch_broadcast(
    files: Seq<records::FileV>,
    anyone: Seq<char>,
    topic: Seq<char>,
    sender: Seq<char>,
    b: model::FileBatchV,
)
    requires
        b.sync_request_node.len() == 0,
    ensures
        spec_apply_batch(files, anyone, topic, sender, b) == spec_apply_files(
            files,
            topic,
            sender,
            b.files,
        ),
{
}

/// The membership effect of a check-in from `member`: the member's node
/// and user records exist afterwards, and the member stands in the
/// topic's member list unless it already was a peer.
pub open spec fn membership_updated(
    pre: StoreV,
    post: StoreV,
    msg_topic: Seq<char>,
    member: Seq<char>,
    user: model::UserInfoV,
) -> bool {
    &&& post.files == pre.files
    &&& (if has_node_id(pre.nodes, member) {
        post.nodes == pre.nodes
    } else {
        post.nodes == pre.nodes.push(
            records::NodeV { id: pre.nodes.len() as int + 1, node_id: member, secret_key: None },
        )
    })
    &&& (exists|ni: int|
        0 <= ni < post.nodes.len() && (#[trigger] post.nodes[ni]).node_id == member && (
        if has_user_for_node(pre.users, post.nodes[ni].id) {
            post.users == pre.users
        } else {
            post.users == pre.users.push(
                records::UserV {
                    id: pre.users.len() as int + 1,
                    email: user.email,
                    first_name: user.first_name,
                    last_name: user.last_name,
                    node_id: Some(post.nodes[ni].id),
                },
            )
        }))
    &&& (exists|ti: int|
        0 <= ti < pre.topics.len() && (#[trigger] pre.topics[ti]).topic_id == msg_topic && (
        if crate::records::peers_of(pre.topics[ti]).contains(member) {
            post.topics == pre.topics
        } else {
            post.topics == pre.topics.update(
                ti,
                TopicV {
                    members: Some(
                        match pre.topics[ti].members {
                            Some(ms) => ms.push(member),
                            None => seq![member],
                        },
                    ),
                    ..pre.topics[ti]
                },
            )
        }))
}

/// Sorted oldest-first on `shared_at`.
pub open spec fn sorted_asc(s: Seq<records::FileV>) -> bool {
    forall|i: int, j: int|
        0 <= i < j < s.len() ==> #[trigger] s[i].shared_at <= #[trigger] s[j].shared_at
}

/// Among records with equal `shared_at`, row ids descend.  The engine
/// reverses the store's newest-first listing whole, so ties flip from
/// the store's insertion order to its reverse.
pub open spec fn ties_by_id_desc(s: Seq<records::FileV>) -> bool {
    forall|a: int, b: int|
        0 <= a < b < s.len() && #[trigger] s[a].shared_at == #[trigger] s[b].shared_at ==> s[a].id
            > s[b].id
}

/// The records of a chunk list, in order.
pub open spec fn concat_chunks(cs: Seq<Seq<records::FileV>>) -> Seq<records::FileV>
    decreases cs.len(),
{
    if cs.len() == 0 {
        Seq::empty()
    } else {
        concat_chunks(cs.drop_last()) + cs.last()
    }
}

/// Whether `v` contains the string `x`.
fn vec_contains_string(v: &Vec<String>, x: &String) -> (r: bool)
    ensures
        r == v.deep_view().contains(x@),
{
    let n = v.len();
    let mut i: usize = 0;
    while i < n
        invariant
            n == v@.len(),
            0 <= i <= n,
            forall|k: int| 0 <= k < i ==> v.deep_view()[k] != x@,
        decreases n - i,
    {
        if v[i] == *x {
            proof {
                assert(v.deep_view()[i as int] == x@);
            }
            return true;
        }
        i = i + 1;
    }
    false
}

impl DispatcherState {
    /// Record a check-in sender as an observed member: ensure its node
    /// and user records exist, and append it to the topic's member list
    /// unless it already is a peer.  Fails, leaving the store unchanged,
    /// exactly when the named topic is unknown — the dispatcher's one
    /// fatal store error.
    fn apply_membership(&mut self, msg_topic: &String, member: &String, user: &UserInfo) -> (r: Result<
        (),
        Error,
    >)
        requires
            old(self).wf(),
            old(self).store@.nodes.len() + 1 < 0x7fff_ffff_ffff_ffff,
            old(self).store@.users.len() + 1 < 0x7fff_ffff_ffff_ffff,
        ensures
            final(self).wf(),
            final(self).local_node_id == old(self).local_node_id,
            final(self).topic_id == old(self).topic_id,
            r is Ok <==> has_topic_id(old(self).store@.topics, msg_topic@),
            r is Err ==> final(self).store@ == old(self).store@,
            r is Ok ==> membership_updated(
                old(self).store@,
                final(self).store@,
                msg_topic@,
                member@,
                user@,
            ),
    {
        let topic = match self.store.get_topic_by_topic_id(msg_topic.clone()) {
            Ok(t) => t,
            Err(e) => {
                return Err(e);
            },
        };
        let ghost pre = self.store@;
        proof {
            assert(exists|k: int|
                0 <= k < pre.topics.len() && #[trigger] pre.topics[k] == topic@);
        }
        let ghost ti = choose|k: int| 0 <= k < pre.topics.len() && #[trigger] pre.topics[k]
            == topic@;
        proof {
            assert(pre.topics[ti].id == ti + 1);
            assert(topic@.id == ti + 1);
        }
        let node = match self.store.get_node_by_node_id(member.clone()) {
            Ok(n) => n,
            Err(_) => {
                match self.store.create_node(Node::new(member.clone(), None)) {
                    Ok(n) => n,
                    Err(e) => {
                        proof {
                            assert(false);
                        }
                        return Err(e);
                    },
                }
            },
        };
        let ghost ni: int = node@.id - 1;
        proof {
            if has_node_id(pre.nodes, member@) {
                assert(exists|k: int|
                    0 <= k < self.store@.nodes.len() && #[trigger] self.store@.nodes[k] == node@);
                let k = choose|k: int|
                    0 <= k < self.store@.nodes.len() && #[trigger] self.store@.nodes[k] == node@;
                assert(self.store@.nodes[k].id == k + 1);
                assert(self.store@.nodes[ni] == node@);
            } else {
                assert(self.store@.nodes[ni] == node@);
            }
        }
        if self.store.get_user_by_node_id(node.id).is_err() {
            let last_name: Option<String> = match &user.last_name {
                Some(s) => Some(s.clone()),
                None => None,
            };
            let u = User::new(
                user.email.clone(),
                user.first_name.clone(),
                last_name,
                Some(node.id),
            );
            match self.store.create_user(u) {
                Ok(_) => {},
                Err(e) => {
                    proof {
                        assert(false);
                    }
                    return Err(e);
                },
            }
        }
        let peers = topic.get_peers();
        if !vec_contains_string(&peers, member) {
            let Topic { id: topic_row, members, .. } = topic;
            let ghost old_members = match pre.topics[ti].members {
                Some(ms) => ms,
                None => Seq::<Seq<char>>::empty(),
            };
            let ms: Vec<String> = match members {
                Some(mut v) => {
                    let ghost pre_v = v.deep_view();
                    v.push(member.clone());
                    proof {
                        assert(v.deep_view() =~~= pre_v.push(member@));
                    }
                    v
                },
                None => {
                    let mut v: Vec<String> = Vec::new();
                    v.push(member.clone());
                    proof {
                        assert(v.deep_view() =~~= seq![member@]);
                    }
                    v
                },
            };
            match self.store.update_topic(topic_row, ms) {
                Ok(_) => {},
                Err(e) => {
                    proof {
                        assert(false);
                    }
                    return Err(e);
                },
            }
        }
        proof {
            assert(membership_updated(pre, self.store@, msg_topic@, member@, user@));
        }
        Ok(())
    }

    /// Decode-and-handle step of the inbound loop, for one event.  `None`
    /// stands for a payload that failed to decode: it changes nothing,
    /// emits nothing, and never terminates the loop.  A check-in for an
    /// unknown topic is the one fatal error.
    pub fn dispatch(&mut self, event: Option<MessageType>) -> (r: Result<DispatchOutcome, Error>)
        requires
            old(self).wf(),
            old(self).store@.files.len() + wire_file_count(event) < 0x7fff_ffff_ffff_ffff,
            old(self).store@.nodes.len() + 1 < 0x7fff_ffff_ffff_ffff,
            old(self).store@.users.len() + 1 < 0x7fff_ffff_ffff_ffff,
            match event {
                Some(MessageType::CheckIn(m)) => m.data.sync.wf(),
                _ => true,
            },
        ensures
            final(self).wf(),
            final(self).local_node_id == old(self).local_node_id,
            final(self).topic_id == old(self).topic_id,
            match event {
                None => {
                    &&& r is Ok
                    &&& final(self).store@ == old(self).store@
                    &&& (r matches Ok(o) ==> o.notification is None && o.catch_up is None)
                },
                Some(MessageType::Chat(m)) => {
                    &&& r is Ok
                    &&& final(self).store@ == old(self).store@
                    &&& (r matches Ok(o) ==> o.catch_up is None && (match o.notification {
                        Some(Notification::Chat { sender, content }) => sender@
                            == m.metadata.sender@ && content@ == m.data.content@,
                        _ => false,
                    }))
                },
                Some(MessageType::File(m)) => {
                    let applied = spec_apply_file(
                        old(self).store@.files,
                        old(self).topic_id@,
                        m.metadata.sender@,
                        m.data@,
                    );
                    &&& r is Ok
                    &&& final(self).store@.files == applied.0
                    &&& final(self).store@.topics == old(self).store@.topics
                    &&& final(self).store@.nodes == old(self).store@.nodes
                    &&& final(self).store@.users == old(self).store@.users
                    &&& (r matches Ok(o) ==> o.catch_up is None && (match applied.1 {
                        Some(rec) => (match o.notification {
                            Some(Notification::File { file }) => file@ == rec,
                            _ => false,
                        }),
                        None => o.notification is None,
                    }))
                },
                Some(MessageType::FileBatch(m)) => {
                    let applied = spec_apply_batch(
                        old(self).store@.files,
                        old(self).local_node_id@,
                        old(self).topic_id@,
                        m.metadata.sender@,
                        m.data@,
                    );
                    &&& r is Ok
                    &&& final(self).store@.files == applied.0
                    &&& final(self).store@.topics == old(self).store@.topics
                    &&& final(self).store@.nodes == old(self).store@.nodes
                    &&& final(self).store@.users == old(self).store@.users
                    &&& (r matches Ok(o) ==> o.catch_up is None && (if applied.1.len() > 0 {
                        match o.notification {
                            Some(Notification::FileBatch { files, sender }) => files.deep_view()
                                == applied.1 && sender@ == m.metadata.sender@,
                            _ => false,
                        }
                    } else {
                        o.notification is None
                    }))
                },
                Some(MessageType::CheckIn(m)) => {
                    &&& (r is Ok <==> has_topic_id(old(self).store@.topics, m.data.topic_id@))
                    &&& (r is Err ==> final(self).store@ == old(self).store@)
                    &&& (r matches Ok(o) ==> {
                        &&& membership_updated(
                            old(self).store@,
                            final(self).store@,
                            m.data.topic_id@,
                            m.metadata.sender@,
                            m.metadata.user@,
                        )
                        &&& (match o.notification {
                            Some(Notification::CheckIn { sender, user }) => sender@
                                == m.metadata.sender@ && user@ == m.metadata.user@,
                            _ => false,
                        })
                        &&& (if !m.data.sync@.contains_key(old(self).local_node_id@) {
                            o.catch_up is None
                        } else {
                            let sel = final(self).store@.files.filter(
                                list_pred(
                                    old(self).topic_id@,
                                    Some(old(self).local_node_id@),
                                    Some(m.data.sync@[old(self).local_node_id@]),
                                ),
                            );
                            match o.catch_up {
                                Some(plan) => {
                                    &&& plan.target@ == m.metadata.sender@
                                    &&& concat_chunks(plan.chunks.deep_view()).to_multiset()
                                        == sel.to_multiset()
                                    &&& sorted_asc(concat_chunks(plan.chunks.deep_view()))
                                    &&& ties_by_id_desc(concat_chunks(plan.chunks.deep_view()))
                                    &&& sel.len() > 0
                                    &&& forall|i: int|
                                        0 <= i < plan.chunks.deep_view().len() ==> 0 < (
                                        #[trigger] plan.chunks.deep_view()[i]).len()
                                            <= MAX_FILES_PER_BATCH
                                    &&& forall|i: int|
                                        0 <= i < plan.chunks.deep_view().len() - 1 ==> (
                                        #[trigger] plan.chunks.deep_view()[i]).len()
                                            == MAX_FILES_PER_BATCH
                                },
                                None => sel.len() == 0,
                            }
                        })
                    })
                },
            },
    {
        let msg = match event {
            None => {
                return Ok(DispatchOutcome { notification: None, catch_up: None });
            },
            Some(msg) => msg,
        };
        match msg {
            MessageType::Chat(m) => {
                Ok(
                    DispatchOutcome {
                        notification: Some(
                            Notification::Chat { sender: m.metadata.sender, content: m.data.content },
                        ),
                        catch_up: None,
                    },
                )
            },
            MessageType::File(m) => {
                let loc = match parse_locator(&m.data.blob_ticket) {
                    Some(l) => l,
                    None => {
                        return Ok(DispatchOutcome { notification: None, catch_up: None });
                    },
                };
                if self.store.get_file_by_hash(loc.hash.clone()).is_err() {
                    let rec = records::File::new(
                        m.metadata.sender.clone(),
                        self.topic_id.clone(),
                        loc.hash,
                        m.data.file_name.clone(),
                        None,
                        m.data.size,
                        loc.format,
                        FileStatus::Shared,
                        m.data.shared_at,
                    );
                    match self.store.create_file(rec) {
                        Ok(nf) => {
                            proof {
                                assert(nf@ == record_of_wire(
                                    old(self).store@.files,
                                    old(self).topic_id@,
                                    m.metadata.sender@,
                                    m.data@,
                                    locator_of(m.data.blob_ticket@)->Some_0,
                                ));
                            }
                            Ok(
                                DispatchOutcome {
                                    notification: Some(Notification::File { file: nf }),
                                    catch_up: None,
                                },
                            )
                        },
                        Err(e) => {
                            proof {
                                assert(false);
                            }
                            Err(e)
                        },
                    }
                } else {
                    Ok(DispatchOutcome { notification: None, catch_up: None })
                }
            },
            MessageType::FileBatch(m) => self.handle_batch(m),
            MessageType::CheckIn(m) => {
                match self.apply_membership(&m.data.topic_id, &m.metadata.sender, &m.metadata.user) {
                    Ok(()) => {},
                    Err(e) => {
                        return Err(e);
                    },
                }
                let catch_up = match m.data.sync.get(&self.local_node_id) {
                    None => None,
                    Some(w) => {
                        let chunks = plan_catch_up(
                            &self.store,
                            &self.topic_id,
                            &self.local_node_id,
                            w,
                        );
                        if chunks.len() == 0 {
                            None
                        } else {
                            Some(CatchUpPlan { target: m.metadata.sender.clone(), chunks })
                        }
                    },
                };
                Ok(
                    DispatchOutcome {
                        notification: Some(
                            Notification::CheckIn { sender: m.metadata.sender, user: m.metadata.user },
                        ),
                        catch_up,
                    },
                )
            },
        }
    }
}

impl DispatcherState {
    /// Apply one batch: when it is addressed to this node (or to
    /// everyone), parse, deduplicate and store each entry in order,
    /// skipping unparseable entries, and collect the records created.
    fn handle_batch(&mut self, m: model::Message<model::FileBatch>) -> (r: Result<
        DispatchOutcome,
        Error,
    >)
        requires
            old(self).wf(),
            old(self).store@.files.len() + m.data.files@.len() < 0x7fff_ffff_ffff_ffff,
        ensures
            final(self).wf(),
            final(self).local_node_id == old(self).local_node_id,
            final(self).topic_id == old(self).topic_id,
            ({
                let applied = spec_apply_batch(
                    old(self).store@.files,
                    old(self).local_node_id@,
                    old(self).topic_id@,
                    m.metadata.sender@,
                    m.data@,
                );
                &&& r is Ok
                &&& final(self).store@.files == applied.0
                &&& final(self).store@.topics == old(self).store@.topics
                &&& final(self).store@.nodes == old(self).store@.nodes
                &&& final(self).store@.users == old(self).store@.users
                &&& (r matches Ok(o) ==> o.catch_up is None && (if applied.1.len() > 0 {
                    match o.notification {
                        Some(Notification::FileBatch { files, sender }) => files.deep_view()
                            == applied.1 && sender@ == m.metadata.sender@,
                        _ => false,
                    }
                } else {
                    o.notification is None
                }))
            }),
    {
        let sender = m.metadata.sender;
        let batch = m.data;
        let ghost ws = batch.files.deep_view();
        let ghost t = old(self).topic_id@;
        let ghost snd = sender@;
        let targeted = batch.sync_request_node == self.local_node_id
            || batch.sync_request_node.as_str().is_empty();
        if !targeted {
            return Ok(DispatchOutcome { notification: None, catch_up: None });
        }
        let n = batch.files.len();
        let mut created: Vec<records::File> = Vec::new();
        let mut i: usize = 0;
        proof {
            assert(ws.skip(0) =~= ws);
            assert(created.deep_view() =~= Seq::<records::FileV>::empty());
            let part = spec_apply_files(self.store@.files, t, snd, ws.skip(0));
            assert(created.deep_view() + part.1 =~= part.1);
        }
        while i < n
            invariant
                n == ws.len(),
                n == batch.files@.len(),
                ws == m.data.files.deep_view(),
                ws == batch.files.deep_view(),
                0 <= i <= n,
                self.wf(),
                t == old(self).topic_id@,
                snd == m.metadata.sender@,
                self.local_node_id == old(self).local_node_id,
                self.topic_id == old(self).topic_id,
                sender@ == snd,
                self.store@.topics == old(self).store@.topics,
                self.store@.nodes == old(self).store@.nodes,
                self.store@.users == old(self).store@.users,
                self.store@.files.len() <= old(self).store@.files.len() + i,
                old(self).store@.files.len() + n < 0x7fff_ffff_ffff_ffff,
                ({
                    let full = spec_apply_files(old(self).store@.files, t, snd, ws);
                    let part = spec_apply_files(self.store@.files, t, snd, ws.skip(i as int));
                    full.0 == part.0 && full.1 == created.deep_view() + part.1
                }),
            decreases n - i,
        {
            let wf_ref = &batch.files[i];
            let ghost cur_files = self.store@.files;
            let ghost wv = ws[i as int];
            proof {
                assert(wf_ref@ == wv);
                assert(ws.skip(i as int)[0] == wv);
                assert(ws.skip(i as int).drop_first() =~= ws.skip(i + 1 as int));
            }
            match parse_locator(&wf_ref.blob_ticket) {
                None => {
                    proof {
                        let part = spec_apply_files(cur_files, t, snd, ws.skip(i as int));
                        let next = spec_apply_files(cur_files, t, snd, ws.skip(i + 1 as int));
                        assert(spec_apply_file(cur_files, t, snd, wv) == (
                            cur_files,
                            None::<records::FileV>,
                        ));
                        assert(part.0 == next.0 && part.1 == next.1);
                    }
                },
                Some(loc) => {
                    let ghost locv = loc@;
                    let dup = self.store.get_file_by_hash(loc.hash.clone());
                    match dup {
                        Ok(_) => {
                            proof {
                                assert(has_file_hash(cur_files, locv.hash));
                                assert(spec_apply_file(cur_files, t, snd, wv) == (
                                    cur_files,
                                    None::<records::FileV>,
                                ));
                                let part = spec_apply_files(cur_files, t, snd, ws.skip(i as int));
                                let next = spec_apply_files(
                                    cur_files,
                                    t,
                                    snd,
                                    ws.skip(i + 1 as int),
                                );
                                assert(part.0 == next.0 && part.1 == next.1);
                            }
                        },
                        Err(_) => {
                            let rec = records::File::new(
                                sender.clone(),
                                self.topic_id.clone(),
                                loc.hash,
                                wf_ref.file_name.clone(),
                                None,
                                wf_ref.size,
                                loc.format,
                                FileStatus::Shared,
                                wf_ref.shared_at,
                            );
                            match self.store.create_file(rec) {
                                Ok(nf) => {
                                    let ghost new_rec = record_of_wire(cur_files, t, snd, wv, locv);
                                    let ghost pre_created = created.deep_view();
                                    proof {
                                        assert(nf@ == new_rec);
                                    }
                                    created.push(nf);
                                    proof {
                                        assert(created.deep_view() =~= pre_created.push(new_rec));
                                        assert(spec_apply_file(cur_files, t, snd, wv) == (
                                            cur_files.push(new_rec),
                                            Some(new_rec),
                                        ));
                                        let next = spec_apply_files(
                                            self.store@.files,
                                            t,
                                            snd,
                                            ws.skip(i + 1 as int),
                                        );
                                        let part = spec_apply_files(
                                            cur_files,
                                            t,
                                            snd,
                                            ws.skip(i as int),
                                        );
                                        assert(part.0 == next.0);
                                        assert(part.1 == seq![new_rec] + next.1);
                                        assert(pre_created + (seq![new_rec] + next.1)
                                            =~= created.deep_view() + next.1);
                                    }
                                },
                                Err(e) => {
                                    proof {
                                        assert(false);
                                    }
                                    return Err(e);
                                },
                            }
                        },
                    }
                },
            }
            i = i + 1;
        }
        proof {
            assert(ws.skip(n as int) =~= Seq::<model::FileV>::empty());
            let part = spec_apply_files(self.store@.files, t, snd, Seq::<model::FileV>::empty());
            assert(part.0 == self.store@.files && part.1 == Seq::<records::FileV>::empty());
            assert(created.deep_view() + Seq::<records::FileV>::empty() =~= created.deep_view());
        }
        if created.len() > 0 {
            Ok(
                DispatchOutcome {
                    notification: Some(Notification::FileBatch { files: created, sender }),
                    catch_up: None,
                },
            )
        } else {
            Ok(DispatchOutcome { notification: None, catch_up: None })
        }
    }
}

/// Records a message may create: one for a file announcement, one per
/// batch entry, none otherwise.
pub open spec fn wire_file_count(event: Option<MessageType>) -> int {
    match event {
        Some(MessageType::File(_)) => 1,
        Some(MessageType::FileBatch(m)) => m.data.files@.len() as int,
        _ => 0,
    }
}

/// Select, order and chunk the catch-up payload for one peer: exactly
/// the local node's files of this topic with `shared_at` strictly above
/// the peer's watermark, oldest first across the chunks, every chunk
/// full at [`MAX_FILES_PER_BATCH`] records but the last, which is
/// non-empty.  The whole newest-first listing is reversed, so records
/// sharing a timestamp travel in reverse insertion order.
pub fn plan_catch_up(store: &Store, topic_id: &String, local: &String, watermark: i64) -> (chunks: Vec<
    Vec<records::File>,
>)
    requires
        store.wf(),
    ensures
        ({
            let sel = store@.files.filter(
                list_pred(topic_id@, Some(local@), Some(watermark as int)),
            );
            &&& concat_chunks(chunks.deep_view()).to_multiset() == sel.to_multiset()
            &&& sorted_asc(concat_chunks(chunks.deep_view()))
            &&& ties_by_id_desc(concat_chunks(chunks.deep_view()))
            &&& forall|i: int|
                0 <= i < chunks.deep_view().len() ==> 0 < (#[trigger] chunks.deep_view()[i]).len()
                    <= MAX_FILES_PER_BATCH
            &&& forall|i: int|
                0 <= i < chunks.deep_view().len() - 1 ==> (#[trigger] chunks.deep_view()[i]).len()
                    == MAX_FILES_PER_BATCH
            &&& (sel.len() == 0 <==> chunks.deep_view().len() == 0)
        }),
{
    broadcast use vstd::seq_lib::group_to_multiset_ensures;
    broadcast use vstd::multiset::group_multiset_axioms;

    let listed = store.list_files(
        topic_id.clone(),
        Some(local.clone()),
        Some(TsFilter { timestamp: watermark, direction: TsDirection::Newer }),
    );
    let desc = match listed {
        Ok(v) => v,
        Err(_) => {
            proof {
                assert(false);
            }
            Vec::new()
        },
    };
    let ghost sel = store@.files.filter(list_pred(topic_id@, Some(local@), Some(watermark as int)));
    let ghost desc_dv = desc.deep_view();
    // oldest first: reverse the newest-first query result whole
    let mut work = desc;
    let mut asc: Vec<records::File> = Vec::new();
    proof {
        assert(asc.deep_view().to_multiset().add(work.deep_view().to_multiset()) =~= sel.to_multiset());
        assert(work.deep_view() =~= desc_dv.subrange(0, work.deep_view().len() as int));
    }
    while work.len() > 0
        invariant
            asc.deep_view().to_multiset().add(work.deep_view().to_multiset()) == sel.to_multiset(),
            sorted_asc(asc.deep_view()),
            crate::store::sorted_desc(work.deep_view()),
            forall|a: int, b: int|
                0 <= a < asc.deep_view().len() && 0 <= b < work.deep_view().len() ==> (
                #[trigger] asc.deep_view()[a]).shared_at <= (#[trigger] work.deep_view()[b]).shared_at,
            work.deep_view().len() + asc.deep_view().len() == desc_dv.len(),
            work.deep_view() == desc_dv.subrange(0, work.deep_view().len() as int),
            forall|k: int|
                0 <= k < asc.deep_view().len() ==> #[trigger] asc.deep_view()[k] == desc_dv[desc_dv.len()
                    - 1 - k],
        decreases work.len(),
    {
        let ghost pre_work = work.deep_view();
        let ghost pre_asc = asc.deep_view();
        let f = match work.pop() {
            Some(f) => f,
            None => {
                proof {
                    assert(false);
                }
                continue ;
            },
        };
        asc.push(f);
        proof {
            assert(work.deep_view() =~= pre_work.drop_last());
            assert(asc.deep_view() =~= pre_asc.push(f@));
            assert(f@ == pre_work.last());
            vstd::seq_lib::to_multiset_remove(pre_work, pre_work.len() as int - 1);
            vstd::seq_lib::to_multiset_build(pre_asc, f@);
            vstd::seq_lib::to_multiset_contains(pre_work, f@);
            assert(pre_work.contains(f@));
            assert(pre_work.to_multiset().count(f@) > 0);
            assert(pre_work.drop_last() =~= pre_work.remove(pre_work.len() as int - 1));
            assert(work.deep_view().to_multiset() == pre_work.to_multiset().remove(f@));
            assert(asc.deep_view().to_multiset() == pre_asc.to_multiset().insert(f@));
            assert(asc.deep_view().to_multiset().add(work.deep_view().to_multiset())
                =~= pre_asc.to_multiset().add(pre_work.to_multiset()));
            assert(work.deep_view() =~= desc_dv.subrange(0, work.deep_view().len() as int));
            assert(asc.deep_view()[pre_asc.len() as int] == desc_dv[desc_dv.len() - 1
                - pre_asc.len()]);
        }
    }
    proof {
        assert(work.deep_view().to_multiset() =~= Multiset::<records::FileV>::empty());
        assert(asc.deep_view().to_multiset() =~= sel.to_multiset());
        vstd::seq_lib::to_multiset_len(asc.deep_view());
        vstd::seq_lib::to_multiset_len(sel);
        // the reversal flips the listing's insertion-order ties
        assert(ties_by_id_desc(asc.deep_view())) by {
            assert forall|a: int, b: int|
                0 <= a < b < asc.deep_view().len() && (#[trigger] asc.deep_view()[a]).shared_at
                    == (#[trigger] asc.deep_view()[b]).shared_at implies asc.deep_view()[a].id
                > asc.deep_view()[b].id by {
                let ia = desc_dv.len() - 1 - a;
                let ib = desc_dv.len() - 1 - b;
                assert(asc.deep_view()[a] == desc_dv[ia]);
                assert(asc.deep_view()[b] == desc_dv[ib]);
                assert(desc_dv[ib].shared_at == desc_dv[ia].shared_at);
                assert(desc_dv[ib].id < desc_dv[ia].id);
            }
        }
    }
    // chunk, at most MAX_FILES_PER_BATCH records each
    let n = asc.len();
    let mut chunks: Vec<Vec<records::File>> = Vec::new();
    let mut cur: Vec<records::File> = Vec::new();
    let mut i: usize = 0;
    proof {
        assert(concat_chunks(chunks.deep_view()) + cur.deep_view() =~= asc.deep_view().subrange(0, 0));
    }
    while i < n
        invariant
            n == asc.deep_view().len(),
            0 <= i <= n,
            sorted_asc(asc.deep_view()),
            ties_by_id_desc(asc.deep_view()),
            concat_chunks(chunks.deep_view()) + cur.deep_view() == asc.deep_view().subrange(
                0,
                i as int,
            ),
            cur.deep_view().len() < MAX_FILES_PER_BATCH,
            i < n ==> cur.deep_view().len() <= i,
            forall|k: int|
                0 <= k < chunks.deep_view().len() ==> (#[trigger] chunks.deep_view()[k]).len()
                    == MAX_FILES_PER_BATCH,
        decreases n - i,
    {
        let ghost pre_chunks = chunks.deep_view();
        let ghost pre_cur = cur.deep_view();
        let next_file = asc[i].duplicate();
        proof {
            assert(next_file@ == asc.deep_view()[i as int]);
        }
        cur.push(next_file);
        proof {
            assert(cur.deep_view() =~= pre_cur.push(asc.deep_view()[i as int])) by {
                assert(cur@.len() == pre_cur.len() + 1);
                assert(forall|k: int|
                    0 <= k < pre_cur.len() ==> #[trigger] cur.deep_view()[k] == pre_cur[k]);
                assert(cur.deep_view()[pre_cur.len() as int] == asc.deep_view()[i as int]);
            }
            assert(concat_chunks(pre_chunks) + cur.deep_view() =~= (concat_chunks(pre_chunks)
                + pre_cur).push(asc.deep_view()[i as int]));
            assert((concat_chunks(pre_chunks) + pre_cur).push(asc.deep_view()[i as int])
                =~= asc.deep_view().subrange(0, i + 1 as int));
            assert(concat_chunks(pre_chunks) + cur.deep_view() =~= asc.deep_view().subrange(
                0,
                i + 1 as int,
            ));
        }
        if cur.len() == MAX_FILES_PER_BATCH {
            let ghost full_cur = cur.deep_view();
            let mut next: Vec<records::File> = Vec::new();
            proof {
                assert(next.deep_view() =~~= Seq::<records::FileV>::empty());
            }
            chunks.push(cur);
            cur = next;
            proof {
                assert(chunks.deep_view() =~~= pre_chunks.push(full_cur));
                assert(concat_chunks(chunks.deep_view()) == concat_chunks(pre_chunks) + full_cur) by {
                    assert(chunks.deep_view().drop_last() =~= pre_chunks);
                    assert(chunks.deep_view().last() == full_cur);
                }
                assert(concat_chunks(chunks.deep_view()) + cur.deep_view() =~= asc.deep_view().subrange(
                    0,
                    i + 1 as int,
                ));
            }
        }
        i = i + 1;
    }
    if cur.len() > 0 {
        let ghost pre_chunks = chunks.deep_view();
        let ghost last_cur = cur.deep_view();
        chunks.push(cur);
        proof {
            assert(chunks.deep_view() =~~= pre_chunks.push(last_cur));
            assert(concat_chunks(chunks.deep_view()) == concat_chunks(pre_chunks) + last_cur) by {
                assert(chunks.deep_view().drop_last() =~= pre_chunks);
                assert(chunks.deep_view().last() == last_cur);
            }
        }
    }
    proof {
        assert(asc.deep_view().subrange(0, n as int) =~= asc.deep_view());
        assert(concat_chunks(chunks.deep_view()) =~= asc.deep_view());
    }
    chunks
}

} // verus!
