//! Builders for outbound messages: chat lines, single file
//! announcements, and catch-up batches assembled from planned chunks.

use vstd::prelude::*;

use crate::model::{Chat, File, FileBatch, Message, MessageType, Metadata, UserInfo};
use crate::records;

verus! {

/// The chat message broadcast for one typed line.
pub fn make_chat_message(user: UserInfo, sender: String, content: String, ts: Option<i64>) -> (r: MessageType)
    ensures
        (match r {
            MessageType::Chat(m) => {
                &&& m.data.content == content
                &&& m.metadata.user == user
                &&& m.metadata.sender == sender
                &&& (ts matches Some(t) ==> m.metadata.ts == t)
            },
            _ => false,
        }),
{
    let metadata = Metadata::new(user, sender, ts);
    MessageType::Chat(Message::new(Chat::new(content), metadata))
}

/// The announcement broadcast when the local node shares a file.
pub fn make_file_message(
    user: UserInfo,
    sender: String,
    file_name: String,
    blob_ticket: String,
    size: i64,
    shared_at: i64,
) -> (r: MessageType)
    ensures
        (match r {
            MessageType::File(m) => {
                &&& m.data.file_name == file_name
                &&& m.data.blob_ticket == blob_ticket
                &&& m.data.size == size
                &&& m.data.shared_at == shared_at
                &&& m.metadata.user == user
                &&& m.metadata.sender == sender
                &&& m.metadata.ts == shared_at
            },
            _ => false,
        }),
{
    let metadata = Metadata::new(user, sender, Some(shared_at));
    MessageType::File(Message::new(File::new(file_name, blob_ticket, size, shared_at), metadata))
}

/// The wire entry for one stored record, under a freshly minted locator
/// that names the local node as the provider.
pub fn wire_file_from_record(rec: &records::File, blob_ticket: String) -> (r: File)
    ensures
        r.file_name@ == rec.name@,
        r.blob_ticket == blob_ticket,
        r.size == rec.size,
        r.shared_at == rec.shared_at,
{
    File::new(rec.name.clone(), blob_ticket, rec.size, rec.shared_at)
}

/// One catch-up batch message, addressed to `target`.
pub fn make_batch_message(
    files: Vec<File>,
    target: String,
    user: UserInfo,
    sender: String,
    ts: Option<i64>,
) -> (r: MessageType)
    ensures
        (match r {
            MessageType::FileBatch(m) => {
                &&& m.data.files == files
                &&& m.data.sync_request_node == target
                &&& m.metadata.user == user
                &&& m.metadata.sender == sender
                &&& (ts matches Some(t) ==> m.metadata.ts == t)
            },
            _ => false,
        }),
{
    let metadata = Metadata::new(user, sender, ts);
    MessageType::FileBatch(Message::new(FileBatch::new(files, target), metadata))
}

} // verus!
