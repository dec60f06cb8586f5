//! Persisted record types: files, topics, nodes and users, with their
//! ghost views and constructors.

use vstd::prelude::*;

use crate::ascii::{all_ascii, ascii_chars_of, ascii_to_string};
use crate::hex::{hex_encode, is_hex_digit_code, lemma_hex_of_digits};

verus! {

use vstd::string::StringExecFns;

/// Lifecycle state of a file record: announced by a peer, or fully
/// fetched by the local node.
#[derive(Clone, Copy, Debug, PartialEq, Eq, Structural)]
pub enum FileStatus {
    Shared,
    Downloaded,
}

impl FileStatus {
    /// The stored text form of this status.
    pub fn text(&self) -> (r: &'static str)
        ensures
            r@ == match self {
                FileStatus::Shared => "Shared"@,
                FileStatus::Downloaded => "Downloaded"@,
            },
    {
        match self {
            FileStatus::Shared => "Shared",
            FileStatus::Downloaded => "Downloaded",
        }
    }

    /// Parse a stored status text; `None` on any other text.
    pub fn parse(value: &String) -> (r: Option<FileStatus>)
        ensures
            match r {
                Some(s) => (s is Shared <==> value@ == "Shared"@) && (s is Downloaded <==> value@
                    == "Downloaded"@),
                None => value@ != "Shared"@ && value@ != "Downloaded"@,
            },
    {
        let shared = String::from_str("Shared");
        let downloaded = String::from_str("Downloaded");
        proof {
            reveal_strlit("Shared");
            reveal_strlit("Downloaded");
            assert("Shared"@.len() == 6);
            assert("Downloaded"@.len() == 10);
        }
        if *value == shared {
            Some(FileStatus::Shared)
        } else if *value == downloaded {
            Some(FileStatus::Downloaded)
        } else {
            None
        }
    }

    /// The status named by `value`; callers must pass one of the two
    /// stored text forms.
    pub fn from_text(value: &String) -> (r: FileStatus)
        requires
            value@ == "Shared"@ || value@ == "Downloaded"@,
        ensures
            r is Shared <==> value@ == "Shared"@,
    {
        proof {
            reveal_strlit("Shared");
            reveal_strlit("Downloaded");
        }
        match FileStatus::parse(value) {
            Some(s) => s,
            None => FileStatus::Shared,
        }
    }
}

/// Direction of a timestamp filter: select records strictly newer than
/// the given watermark.
#[derive(Clone, Copy, Debug, PartialEq, Eq, Structural)]
pub enum TsDirection {
    Newer,
}

/// A watermark filter on `shared_at`.
#[derive(Clone, Copy, Debug, PartialEq, Eq, Structural)]
pub struct TsFilter {
    pub timestamp: i64,
    pub direction: TsDirection,
}

/// A replicated file record.  At most one record exists per content
/// `hash`; that uniqueness is what makes replay of file announcements
/// idempotent.
pub struct File {
    pub id: i64,
    pub node_id: String,
    pub topic_id: String,
    pub hash: String,
    pub name: String,
    pub absolute_path: Option<String>,
    pub format: String,
    pub size: i64,
    pub status: FileStatus,
    pub shared_at: i64,
}

/// Ghost view of a file record.
pub ghost struct FileV {
    pub id: int,
    pub node_id: Seq<char>,
    pub topic_id: Seq<char>,
    pub hash: Seq<char>,
    pub name: Seq<char>,
    pub absolute_path: Option<Seq<char>>,
    pub format: Seq<char>,
    pub size: int,
    pub status: FileStatus,
    pub shared_at: int,
}

impl View for File {
    type V = FileV;

    open spec fn view(&self) -> FileV {
        FileV {
            id: self.id as int,
            node_id: self.node_id@,
            topic_id: self.topic_id@,
            hash: self.hash@,
            name: self.name@,
            absolute_path: match self.absolute_path {
                Some(ref p) => Some(p@),
                None => None,
            },
            format: self.format@,
            size: self.size as int,
            status: self.status,
            shared_at: self.shared_at as int,
        }
    }
}

impl DeepView for File {
    type V = FileV;

    open spec fn deep_view(&self) -> FileV {
        self@
    }
}

impl File {
    /// A record as built before insertion; the store assigns the id.
    pub fn new(
        node_id: String,
        topic_id: String,
        hash: String,
        name: String,
        absolute_path: Option<String>,
        size: i64,
        format: String,
        status: FileStatus,
        shared_at: i64,
    ) -> (r: File)
        ensures
            r@ == (FileV {
                id: 0,
                node_id: node_id@,
                topic_id: topic_id@,
                hash: hash@,
                name: name@,
                absolute_path: match absolute_path {
                    Some(p) => Some(p@),
                    None => None,
                },
                format: format@,
                size: size as int,
                status: status,
                shared_at: shared_at as int,
            }),
    {
        File {
            id: 0,
            node_id,
            topic_id,
            hash,
            name,
            absolute_path,
            size,
            format,
            status,
            shared_at,
        }
    }

    /// An explicit copy of this record.
    pub fn duplicate(&self) -> (r: File)
        ensures
            r@ == self@,
    {
        File {
            id: self.id,
            node_id: self.node_id.clone(),
            topic_id: self.topic_id.clone(),
            hash: self.hash.clone(),
            name: self.name.clone(),
            absolute_path: match &self.absolute_path {
                Some(p) => Some(p.clone()),
                None => None,
            },
            format: self.format.clone(),
            size: self.size,
            status: self.status,
            shared_at: self.shared_at,
        }
    }
}

/// A known peer: its public node id, and the local node's secret key on
/// the row that describes the local node itself.
pub struct Node {
    pub id: i64,
    pub node_id: String,
    pub secret_key: Option<String>,
}

/// Ghost view of a node record.
pub ghost struct NodeV {
    pub id: int,
    pub node_id: Seq<char>,
    pub secret_key: Option<Seq<char>>,
}

impl View for Node {
    type V = NodeV;

    open spec fn view(&self) -> NodeV {
        NodeV {
            id: self.id as int,
            node_id: self.node_id@,
            secret_key: match self.secret_key {
                Some(ref s) => Some(s@),
                None => None,
            },
        }
    }
}

impl DeepView for Node {
    type V = NodeV;

    open spec fn deep_view(&self) -> NodeV {
        self@
    }
}

impl Node {
    /// A node record as built before insertion.
    pub fn new(node_id: String, secret_key: Option<String>) -> (r: Node)
        ensures
            r@ == (NodeV {
                id: 0,
                node_id: node_id@,
                secret_key: match secret_key {
                    Some(s) => Some(s@),
                    None => None,
                },
            }),
    {
        Node { id: 0, node_id, secret_key }
    }

    /// An explicit copy of this record.
    pub fn duplicate(&self) -> (r: Node)
        ensures
            r@ == self@,
    {
        Node {
            id: self.id,
            node_id: self.node_id.clone(),
            secret_key: match &self.secret_key {
                Some(s) => Some(s.clone()),
                None => None,
            },
        }
    }
}

/// A user profile, optionally bound to a node record.
pub struct User {
    pub id: i64,
    pub email: String,
    pub first_name: String,
    pub last_name: Option<String>,
    pub node_id: Option<i64>,
}

/// Ghost view of a user record.
pub ghost struct UserV {
    pub id: int,
    pub email: Seq<char>,
    pub first_name: Seq<char>,
    pub last_name: Option<Seq<char>>,
    pub node_id: Option<int>,
}

impl View for User {
    type V = UserV;

    open spec fn view(&self) -> UserV {
        UserV {
            id: self.id as int,
            email: self.email@,
            first_name: self.first_name@,
            last_name: match self.last_name {
                Some(ref s) => Some(s@),
                None => None,
            },
            node_id: match self.node_id {
                Some(n) => Some(n as int),
                None => None,
            },
        }
    }
}

impl DeepView for User {
    type V = UserV;

    open spec fn deep_view(&self) -> UserV {
        self@
    }
}

impl User {
    /// A user record as built before insertion.
    pub fn new(email: String, first_name: String, last_name: Option<String>, node_id: Option<i64>) -> (r: User)
        ensures
            r@ == (UserV {
                id: 0,
                email: email@,
                first_name: first_name@,
                last_name: match last_name {
                    Some(s) => Some(s@),
                    None => None,
                },
                node_id: match node_id {
                    Some(n) => Some(n as int),
                    None => None,
                },
            }),
    {
        User { id: 0, email, first_name, last_name, node_id }
    }

    /// An explicit copy of this record.
    pub fn duplicate(&self) -> (r: User)
        ensures
            r@ == self@,
    {
        User {
            id: self.id,
            email: self.email.clone(),
            first_name: self.first_name.clone(),
            last_name: match &self.last_name {
                Some(s) => Some(s.clone()),
                None => None,
            },
            node_id: self.node_id,
        }
    }
}

/// A topic: a named group identified by a public topic id, owned by one
/// node, with an optional list of further members.
pub struct Topic {
    pub id: i64,
    pub topic_id: String,
    pub name: String,
    pub owner: String,
    pub members: Option<Vec<String>>,
}

/// Ghost view of a topic record.
pub ghost struct TopicV {
    pub id: int,
    pub topic_id: Seq<char>,
    pub name: Seq<char>,
    pub owner: Seq<char>,
    pub members: Option<Seq<Seq<char>>>,
}

impl View for Topic {
    type V = TopicV;

    open spec fn view(&self) -> TopicV {
        TopicV {
            id: self.id as int,
            topic_id: self.topic_id@,
            name: self.name@,
            owner: self.owner@,
            members: match self.members {
                Some(ref m) => Some(m.deep_view()),
                None => None,
            },
        }
    }
}

impl DeepView for Topic {
    type V = TopicV;

    open spec fn deep_view(&self) -> TopicV {
        self@
    }
}

/// The effective peer set of a topic: the owner, then the members.
pub open spec fn peers_of(t: TopicV) -> Seq<Seq<char>> {
    seq![t.owner] + match t.members {
        Some(m) => m,
        None => Seq::empty(),
    }
}

/// The owner stands outside `members`, and no member repeats.
pub open spec fn topic_wf(t: TopicV) -> bool {
    match t.members {
        Some(m) => {
            &&& forall|i: int| 0 <= i < m.len() ==> #[trigger] m[i] != t.owner
            &&& forall|i: int, j: int| 0 <= i < j < m.len() ==> m[i] != m[j]
        },
        None => true,
    }
}

/// Relies on `rand::random`: 32 bytes drawn from the thread's generator.
/// The value is random; only its length is promised.
#[verifier::external_body]
fn fresh_id_bytes() -> (r: Vec<u8>)
    ensures
        r@.len() == 32,
{
    let bytes: [u8; 32] = rand::random();
    bytes.to_vec()
}

impl Topic {
    /// A topic started by the local node: a fresh 64-digit hex topic id,
    /// `owner` set to the local node.
    pub fn new_topic(name: String, owner: String, members: Option<Vec<String>>) -> (r: Topic)
        ensures
            r@.id == 0,
            r@.name == name@,
            r@.owner == owner@,
            r@.members == (match members {
                Some(m) => Some(m.deep_view()),
                None => None::<Seq<Seq<char>>>,
            }),
            r@.topic_id.len() == 64,
            forall|i: int| 0 <= i < 64 ==> is_hex_digit_code(#[trigger] r@.topic_id[i] as int),
    {
        let bytes = fresh_id_bytes();
        let digits = hex_encode(bytes.as_slice());
        proof {
            lemma_hex_of_digits(bytes@);
            assert(all_ascii(digits@));
        }
        let ghost digit_bytes = digits@;
        let topic_id = ascii_to_string(digits);
        proof {
            assert(topic_id@ == ascii_chars_of(digit_bytes));
            assert(forall|i: int| 0 <= i < 64 ==> is_hex_digit_code(#[trigger] topic_id@[i] as int)) by {
                assert(forall|i: int| 0 <= i < 64 ==> topic_id@[i] == (#[trigger] digit_bytes[i]) as char);
            }
        }
        Topic { id: 0, topic_id, name, owner, members }
    }

    /// A local entry for an existing topic the node has joined.
    pub fn new_topic_with_id(topic_id: String, name: String, owner: String, members: Option<Vec<String>>) -> (r: Topic)
        ensures
            r@ == (TopicV {
                id: 0,
                topic_id: topic_id@,
                name: name@,
                owner: owner@,
                members: match members {
                    Some(m) => Some(m.deep_view()),
                    None => None,
                },
            }),
    {
        Topic { id: 0, topic_id, name, owner, members }
    }

    /// The peers of this topic: the owner followed by the members.
    pub fn get_peers(&self) -> (r: Vec<String>)
        ensures
            r.deep_view() == peers_of(self@),
    {
        let mut peers: Vec<String> = Vec::new();
        peers.push(self.owner.clone());
        match &self.members {
            Some(members) => {
                let n = members.len();
                let mut i: usize = 0;
                while i < n
                    invariant
                        n == members@.len(),
                        0 <= i <= n,
                        peers@.len() == 1 + i,
                        peers@[0]@ == self.owner@,
                        forall|k: int| 0 <= k < i ==> #[trigger] peers@[1 + k]@ == members@[k]@,
                    decreases n - i,
                {
                    peers.push(members[i].clone());
                    i = i + 1;
                }
                proof {
                    assert forall|j: int| 1 <= j < peers@.len() implies #[trigger] peers@[j]@ == members@[j - 1]@ by {
                        assert(peers@[1 + (j - 1)]@ == members@[j - 1]@);
                    }
                    assert(peers.deep_view() =~= peers_of(self@));
                }
            },
            None => {
                proof {
                    assert(peers.deep_view() =~= peers_of(self@));
                }
            },
        }
        peers
    }

    /// An explicit copy of this record.
    pub fn duplicate(&self) -> (r: Topic)
        ensures
            r@ == self@,
    {
        let members: Option<Vec<String>> = match &self.members {
            Some(m) => {
                let n = m.len();
                let mut out: Vec<String> = Vec::new();
                let mut i: usize = 0;
                while i < n
                    invariant
                        n == m@.len(),
                        0 <= i <= n,
                        out@.len() == i,
                        forall|k: int| 0 <= k < i ==> #[trigger] out@[k]@ == m@[k]@,
                    decreases n - i,
                {
                    out.push(m[i].clone());
                    i = i + 1;
                }
                proof {
                    assert(out.deep_view() =~= m.deep_view());
                }
                Some(out)
            },
            None => None,
        };
        Topic {
            id: self.id,
            topic_id: self.topic_id.clone(),
            name: self.name.clone(),
            owner: self.owner.clone(),
            members,
        }
    }
}

} // verus!
