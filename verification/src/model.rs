//! The wire model: the tagged message union exchanged over the gossip
//! channel, and the metadata envelope wrapped around every payload.

use vstd::prelude::*;

use crate::clock::now_ts;
use crate::sync_map::SyncMap;

verus! {

/// The sending user's profile, carried in every envelope.
pub struct UserInfo {
    /// Local row id of the user record; not sent on the wire.
    pub id: i64,
    pub email: String,
    pub first_name: String,
    pub last_name: Option<String>,
}

/// Ghost view of [`UserInfo`].
pub ghost struct UserInfoV {
    pub id: int,
    pub email: Seq<char>,
    pub first_name: Seq<char>,
    pub last_name: Option<Seq<char>>,
}

impl View for UserInfo {
    type V = UserInfoV;

    open spec fn view(&self) -> UserInfoV {
        UserInfoV {
            id: self.id as int,
            email: self.email@,
            first_name: self.first_name@,
            last_name: match self.last_name {
                Some(ref s) => Some(s@),
                None => None,
            },
        }
    }
}

impl UserInfo {
    /// An explicit copy; every field of the copy equals the original's.
    pub fn duplicate(&self) -> (r: UserInfo)
        ensures
            r@ == self@,
    {
        UserInfo {
            id: self.id,
            email: self.email.clone(),
            first_name: self.first_name.clone(),
            last_name: match &self.last_name {
                Some(s) => Some(s.clone()),
                None => None,
            },
        }
    }
}

/// Sender metadata attached to every outbound message.
pub struct Metadata {
    pub user: UserInfo,
    pub ts: i64,
    pub sender: String,
}

/// Ghost view of [`Metadata`].
pub ghost struct MetadataV {
    pub user: UserInfoV,
    pub ts: int,
    pub sender: Seq<char>,
}

impl View for Metadata {
    type V = MetadataV;

    open spec fn view(&self) -> MetadataV {
        MetadataV { user: self.user@, ts: self.ts as int, sender: self.sender@ }
    }
}

impl Metadata {
    /// Wrap the sender's identity; `ts` defaults to the current wall-clock
    /// reading when not supplied.
    pub fn new(user: UserInfo, sender: String, ts: Option<i64>) -> (r: Metadata)
        ensures
            r.user == user,
            r.sender == sender,
            (ts matches Some(t) ==> r.ts == t),
    {
        let ts: i64 = match ts {
            Some(t) => t,
            None => now_ts(),
        };
        Metadata { user, sender, ts }
    }
}

/// The envelope: a typed body plus its sender metadata.
pub struct Message<T> {
    pub data: T,
    pub metadata: Metadata,
}

/// Ghost view of [`Message`].
pub ghost struct MessageV<DV> {
    pub data: DV,
    pub metadata: MetadataV,
}

impl<T: View> View for Message<T> {
    type V = MessageV<T::V>;

    open spec fn view(&self) -> MessageV<T::V> {
        MessageV { data: self.data@, metadata: self.metadata@ }
    }
}

impl<T> Message<T> {
    /// Wrap `data` in an envelope carrying `metadata`.
    pub fn new(data: T, metadata: Metadata) -> (r: Message<T>)
        ensures
            r.data == data,
            r.metadata == metadata,
    {
        Message { data, metadata }
    }
}

/// A heartbeat: the sender announces liveness and, per known member, the
/// newest `shared_at` timestamp it has recorded from that member.
pub struct CheckIn {
    pub topic_id: String,
    pub sync: SyncMap,
}

/// Ghost view of [`CheckIn`].
pub ghost struct CheckInV {
    pub topic_id: Seq<char>,
    pub sync: Map<Seq<char>, int>,
}

impl View for CheckIn {
    type V = CheckInV;

    open spec fn view(&self) -> CheckInV {
        CheckInV { topic_id: self.topic_id@, sync: self.sync@ }
    }
}

impl CheckIn {
    /// A heartbeat body for `topic_id` carrying the watermark map `sync`.
    pub fn new(topic_id: String, sync: SyncMap) -> (r: CheckIn)
        ensures
            r.topic_id == topic_id,
            r.sync == sync,
    {
        CheckIn { topic_id, sync }
    }
}

/// A chat line typed by the sending user.
pub struct Chat {
    pub content: String,
}

/// Ghost view of [`Chat`].
pub ghost struct ChatV {
    pub content: Seq<char>,
}

impl View for Chat {
    type V = ChatV;

    open spec fn view(&self) -> ChatV {
        ChatV { content: self.content@ }
    }
}

impl Chat {
    /// A chat body holding `content`.
    pub fn new(content: String) -> (r: Chat)
        ensures
            r.content == content,
    {
        Chat { content }
    }
}

/// One shared file announced on the wire.  `blob_ticket` is an opaque
/// locator (provider address, content hash, format) sufficient for any
/// peer to fetch the bytes.
pub struct File {
    pub file_name: String,
    pub blob_ticket: String,
    pub size: i64,
    pub shared_at: i64,
}

/// Ghost view of a wire [`File`].
pub ghost struct FileV {
    pub file_name: Seq<char>,
    pub blob_ticket: Seq<char>,
    pub size: int,
    pub shared_at: int,
}

impl View for File {
    type V = FileV;

    open spec fn view(&self) -> FileV {
        FileV {
            file_name: self.file_name@,
            blob_ticket: self.blob_ticket@,
            size: self.size as int,
            shared_at: self.shared_at as int,
        }
    }
}

impl DeepView for File {
    type V = FileV;

    open spec fn deep_view(&self) -> FileV {
        self@
    }
}

impl File {
    /// A wire file entry.
    pub fn new(file_name: String, blob_ticket: String, size: i64, shared_at: i64) -> (r: File)
        ensures
            r.file_name == file_name,
            r.blob_ticket == blob_ticket,
            r.size == size,
            r.shared_at == shared_at,
    {
        File { file_name, blob_ticket, size, shared_at }
    }
}

/// A catch-up chunk: an ordered run of files, addressed to one node
/// (`sync_request_node`), or to every member when that field is empty.
pub struct FileBatch {
    pub files: Vec<File>,
    pub sync_request_node: String,
}

/// Ghost view of [`FileBatch`].
pub ghost struct FileBatchV {
    pub files: Seq<FileV>,
    pub sync_request_node: Seq<char>,
}

impl View for FileBatch {
    type V = FileBatchV;

    open spec fn view(&self) -> FileBatchV {
        FileBatchV { files: self.files.deep_view(), sync_request_node: self.sync_request_node@ }
    }
}

impl FileBatch {
    /// A batch of `files` addressed to `sync_request_node`.
    pub fn new(files: Vec<File>, sync_request_node: String) -> (r: FileBatch)
        ensures
            r.files == files,
            r.sync_request_node == sync_request_node,
    {
        FileBatch { files, sync_request_node }
    }
}

/// The one topic-wide message namespace: every payload on the channel is
/// exactly one of these.
pub enum MessageType {
    CheckIn(Message<CheckIn>),
    Chat(Message<Chat>),
    File(Message<File>),
    FileBatch(Message<FileBatch>),
}

/// Ghost view of [`MessageType`].
pub ghost enum MessageTypeV {
    CheckIn(MessageV<CheckInV>),
    Chat(MessageV<ChatV>),
    File(MessageV<FileV>),
    FileBatch(MessageV<FileBatchV>),
}

impl View for MessageType {
    type V = MessageTypeV;

    open spec fn view(&self) -> MessageTypeV {
        match self {
            MessageType::CheckIn(m) => MessageTypeV::CheckIn(m@),
            MessageType::Chat(m) => MessageTypeV::Chat(m@),
            MessageType::File(m) => MessageTypeV::File(m@),
            MessageType::FileBatch(m) => MessageTypeV::FileBatch(m@),
        }
    }
}

} // verus!
