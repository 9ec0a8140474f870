//! The bounded log store: two identical tables, `msg_logs` for messages
//! currently observed and `deleted_msgs` for the forensic trail of deleted
//! ones, each capped at the same row budget.

use vstd::prelude::*;

use crate::codec::{encode_attachments, spec_encode_attachments, string_views};
use crate::errors::StoreError;
use crate::record::{MsgLogs, RecordView};
use crate::table::{insert_step, LogTable};

verus! {

/// The row budget of each table when none is chosen explicitly.
pub const LOG_CAPACITY: usize = 1000;

/// The abstract value of the store: each table as a map from `msg_id` to
/// its record, and whether each table's schema has been ensured.
pub ghost struct DatabaseView {
    pub msg_logs: Map<int, RecordView>,
    pub deleted_msgs: Map<int, RecordView>,
    pub msg_logs_ready: bool,
    pub deleted_msgs_ready: bool,
}

/// The bounded log store.
pub struct Database {
    msg_logs: LogTable,
    deleted_msgs: LogTable,
    msg_logs_ready: bool,
    deleted_msgs_ready: bool,
}

impl View for Database {
    type V = DatabaseView;

    closed spec fn view(&self) -> DatabaseView {
        DatabaseView {
            msg_logs: self.msg_logs@,
            deleted_msgs: self.deleted_msgs@,
            msg_logs_ready: self.msg_logs_ready,
            deleted_msgs_ready: self.deleted_msgs_ready,
        }
    }
}

impl Database {
    /// The row budget shared by the two tables.
    pub closed spec fn cap(&self) -> nat {
        self.msg_logs.cap()
    }

    /// Both tables are well-formed and share one row budget.
    pub closed spec fn wf(&self) -> bool {
        &&& self.msg_logs.wf()
        &&& self.deleted_msgs.wf()
        &&& self.deleted_msgs.cap() == self.msg_logs.cap()
    }

    /// The view of the record an insert call builds from its scalars.
    pub open spec fn record_of(
        msg_id: i64,
        guild_id: i64,
        channel_id: i64,
        author_id: i64,
        content: Seq<char>,
        attachments: Seq<Seq<char>>,
    ) -> RecordView {
        RecordView {
            msg_id: msg_id as int,
            guild_id: guild_id as int,
            channel_id: channel_id as int,
            author_id: author_id as int,
            content,
            attachments: spec_encode_attachments(attachments),
        }
    }

    /// An empty store with the default row budget and no schema ensured yet.
    pub fn new() -> (r: Result<Database, StoreError>)
        ensures
            r is Ok,
            r matches Ok(db) ==> {
                &&& db.wf()
                &&& db.cap() == LOG_CAPACITY
                &&& db@.msg_logs == Map::<int, RecordView>::empty()
                &&& db@.deleted_msgs == Map::<int, RecordView>::empty()
                &&& !db@.msg_logs_ready
                &&& !db@.deleted_msgs_ready
            },
    {
        Ok(Database::with_capacity(LOG_CAPACITY))
    }

    /// An empty store whose tables each hold at most `capacity` records.
    pub fn with_capacity(capacity: usize) -> (r: Database)
        requires
            capacity >= 1,
        ensures
            r.wf(),
            r.cap() == capacity,
            r@.msg_logs == Map::<int, RecordView>::empty(),
            r@.deleted_msgs == Map::<int, RecordView>::empty(),
            !r@.msg_logs_ready,
            !r@.deleted_msgs_ready,
    {
        Database {
            msg_logs: LogTable::new(capacity),
            deleted_msgs: LogTable::new(capacity),
            msg_logs_ready: false,
            deleted_msgs_ready: false,
        }
    }

    /// Idempotently ensures the `msg_logs` table exists; never drops or
    /// alters the records either table already holds.
    pub fn create_table_msg_logs(&mut self) -> (r: Result<(), StoreError>)
        requires
            old(self).wf(),
        ensures
            final(self).wf(),
            final(self).cap() == old(self).cap(),
            r is Ok,
            final(self)@ == (DatabaseView { msg_logs_ready: true, ..old(self)@ }),
    {
        self.msg_logs_ready = true;
        Ok(())
    }

    /// Idempotently ensures the `deleted_msgs` table exists; never drops or
    /// alters the records either table already holds.
    pub fn create_table_deleted_msgs(&mut self) -> (r: Result<(), StoreError>)
        requires
            old(self).wf(),
        ensures
            final(self).wf(),
            final(self).cap() == old(self).cap(),
            r is Ok,
            final(self)@ == (DatabaseView { deleted_msgs_ready: true, ..old(self)@ }),
    {
        self.deleted_msgs_ready = true;
        Ok(())
    }

    /// Records a message in `msg_logs`: the attachments are joined into one
    /// delimited string, the record goes in atomically, and the record with
    /// the smallest `msg_id` is evicted if the table would exceed its
    /// budget. A `msg_id` already present is refused with `DuplicateKey`
    /// and nothing changes.
    pub fn insert_msg_logs(
        &mut self,
        msg_id: i64,
        guild_id: i64,
        channel_id: i64,
        author_id: i64,
        content: &str,
        attachments: Vec<String>,
    ) -> (r: Result<(), StoreError>)
        requires
            old(self).wf(),
        ensures
            final(self).wf(),
            final(self).cap() == old(self).cap(),
            r is Ok <==> !old(self)@.msg_logs.dom().contains(msg_id as int),
            r is Err ==> r == Err::<(), StoreError>(StoreError::DuplicateKey) && final(self)@
                == old(self)@,
            final(self)@.msg_logs == insert_step(
                old(self)@.msg_logs,
                Database::record_of(
                    msg_id,
                    guild_id,
                    channel_id,
                    author_id,
                    content@,
                    string_views(attachments@),
                ),
                old(self).cap(),
            ),
            final(self)@.deleted_msgs == old(self)@.deleted_msgs,
            final(self)@.msg_logs_ready == old(self)@.msg_logs_ready,
            final(self)@.deleted_msgs_ready == old(self)@.deleted_msgs_ready,
    {
        let rec = MsgLogs {
            msg_id,
            guild_id,
            channel_id,
            author_id,
            content: content.to_owned(),
            attachments: encode_attachments(&attachments),
        };
        self.msg_logs.insert(rec)
    }

    /// Records a deleted message in `deleted_msgs`, with the same insert,
    /// eviction and duplicate-key behaviour as `insert_msg_logs`.
    pub fn insert_deleted_msgs(
        &mut self,
        msg_id: i64,
        guild_id: i64,
        channel_id: i64,
        author_id: i64,
        content: &str,
        attachments: Vec<String>,
    ) -> (r: Result<(), StoreError>)
        requires
            old(self).wf(),
        ensures
            final(self).wf(),
            final(self).cap() == old(self).cap(),
            r is Ok <==> !old(self)@.deleted_msgs.dom().contains(msg_id as int),
            r is Err ==> r == Err::<(), StoreError>(StoreError::DuplicateKey) && final(self)@
                == old(self)@,
            final(self)@.deleted_msgs == insert_step(
                old(self)@.deleted_msgs,
                Database::record_of(
                    msg_id,
                    guild_id,
                    channel_id,
                    author_id,
                    content@,
                    string_views(attachments@),
                ),
                old(self).cap(),
            ),
            final(self)@.msg_logs == old(self)@.msg_logs,
            final(self)@.msg_logs_ready == old(self)@.msg_logs_ready,
            final(self)@.deleted_msgs_ready == old(self)@.deleted_msgs_ready,
    {
        let rec = MsgLogs {
            msg_id,
            guild_id,
            channel_id,
            author_id,
            content: content.to_owned(),
            attachments: encode_attachments(&attachments),
        };
        self.deleted_msgs.insert(rec)
    }

    /// Point lookup in `msg_logs`: zero or one record, wrapped in a vector;
    /// an empty vector means not found and is not an error.
    pub fn read_logs_by_id(&self, msg_id: i64) -> (r: Result<Vec<MsgLogs>, StoreError>)
        requires
            self.wf(),
        ensures
            r is Ok,
            r matches Ok(v) ==> {
                &&& self@.msg_logs.dom().contains(msg_id as int) ==> v@.len() == 1 && v@[0]@
                    == self@.msg_logs[msg_id as int]
                &&& !self@.msg_logs.dom().contains(msg_id as int) ==> v@.len() == 0
            },
    {
        Ok(self.msg_logs.get_by_id(msg_id))
    }

    /// The most recent deletion a guild suffered: the `deleted_msgs` record
    /// with the largest `msg_id` among those sharing `guild_id`, or an
    /// empty vector if the guild has none.
    pub fn get_last_deleted_msgs(&self, guild_id: i64) -> (r: Result<Vec<MsgLogs>, StoreError>)
        requires
            self.wf(),
        ensures
            r is Ok,
            r matches Ok(v) ==> {
                &&& v@.len() <= 1
                &&& v@.len() == 0 <==> (forall|k: int|
                    #[trigger] self@.deleted_msgs.dom().contains(k)
                        ==> self@.deleted_msgs[k].guild_id != guild_id as int)
                &&& v@.len() == 1 ==> {
                    let rv = v@[0]@;
                    &&& self@.deleted_msgs.dom().contains(rv.msg_id)
                    &&& self@.deleted_msgs[rv.msg_id] == rv
                    &&& rv.guild_id == guild_id as int
                    &&& forall|k: int|
                        #[trigger] self@.deleted_msgs.dom().contains(k)
                            && self@.deleted_msgs[k].guild_id == guild_id as int ==> k
                            <= rv.msg_id
                }
            },
    {
        let v = self.deleted_msgs.get_latest_for_guild(guild_id);
        proof {
            if v@.len() == 0 {
                assert forall|k: int| #[trigger] self@.deleted_msgs.dom().contains(k) implies self@.deleted_msgs[k].guild_id
                    != guild_id as int by {
                    assert(self.deleted_msgs@.dom().contains(k));
                }
            } else {
                let rv = v@[0]@;
                assert(self@.deleted_msgs.dom().contains(rv.msg_id) && self@.deleted_msgs[rv.msg_id].guild_id
                    == guild_id as int);
            }
        }
        Ok(v)
    }

    /// Replaces the `content` of the `msg_logs` record carrying `msg_id`,
    /// leaving every other field of the record and both tables otherwise
    /// untouched; succeeds silently when no record carries it.
    pub fn update_logs_by_id(&mut self, msg_id: i64, new_content: &str) -> (r: Result<
        (),
        StoreError,
    >)
        requires
            old(self).wf(),
        ensures
            final(self).wf(),
            final(self).cap() == old(self).cap(),
            r is Ok,
            old(self)@.msg_logs.dom().contains(msg_id as int) ==> final(self)@.msg_logs == old(
                self,
            )@.msg_logs.insert(
                msg_id as int,
                old(self)@.msg_logs[msg_id as int].with_content(new_content@),
            ),
            !old(self)@.msg_logs.dom().contains(msg_id as int) ==> final(self)@.msg_logs == old(
                self,
            )@.msg_logs,
            final(self)@.deleted_msgs == old(self)@.deleted_msgs,
            final(self)@.msg_logs_ready == old(self)@.msg_logs_ready,
            final(self)@.deleted_msgs_ready == old(self)@.deleted_msgs_ready,
    {
        self.msg_logs.update_content(msg_id, new_content)
    }

    /// How many records `msg_logs` currently holds.
    pub fn msg_logs_len(&self) -> (r: usize)
        requires
            self.wf(),
        ensures
            r == self@.msg_logs.dom().len(),
    {
        self.msg_logs.len()
    }

    /// How many records `deleted_msgs` currently holds.
    pub fn deleted_msgs_len(&self) -> (r: usize)
        requires
            self.wf(),
        ensures
            r == self@.deleted_msgs.dom().len(),
    {
        self.deleted_msgs.len()
    }

    /// Whether a `msg_logs` record carries `msg_id`.
    pub fn msg_logs_contains(&self, msg_id: i64) -> (r: bool)
        requires
            self.wf(),
        ensures
            r == self@.msg_logs.dom().contains(msg_id as int),
    {
        self.msg_logs.contains_id(msg_id)
    }
}

} // verus!
