//! The message record: one row of either log table.

use vstd::prelude::*;

verus! {

/// One logged chat message, as stored in a log table.
///
/// `attachments` holds the attachment references joined into a single
/// comma-delimited string (`""` when there are none); see the codec module
/// for the join/split pair.
#[derive(Debug)]
pub struct MsgLogs {
    pub msg_id: i64,
    pub guild_id: i64,
    pub channel_id: i64,
    pub author_id: i64,
    pub content: String,
    pub attachments: String,
}

/// The mathematical image of a `MsgLogs` record: every field as an
/// unbounded integer or a sequence of characters.
pub ghost struct RecordView {
    pub msg_id: int,
    pub guild_id: int,
    pub channel_id: int,
    pub author_id: int,
    pub content: Seq<char>,
    pub attachments: Seq<char>,
}

impl View for MsgLogs {
    type V = RecordView;

    open spec fn view(&self) -> RecordView {
        RecordView {
            msg_id: self.msg_id as int,
            guild_id: self.guild_id as int,
            channel_id: self.channel_id as int,
            author_id: self.author_id as int,
            content: self.content@,
            attachments: self.attachments@,
        }
    }
}

impl RecordView {
    /// The same record with its `content` replaced: the shape a content
    /// update leaves behind.
    pub open spec fn with_content(self, content: Seq<char>) -> RecordView {
        RecordView { content, ..self }
    }
}

impl Clone for MsgLogs {
    fn clone(&self) -> (res: Self)
        ensures
            res@ == self@,
    {
        MsgLogs {
            msg_id: self.msg_id,
            guild_id: self.guild_id,
            channel_id: self.channel_id,
            author_id: self.author_id,
            content: self.content.clone(),
            attachments: self.attachments.clone(),
        }
    }
}

} // verus!
