//! A single bounded log table: at most `capacity` records, keyed by
//! `msg_id`. When an insert would leave more than `capacity` records, the
//! record with the smallest `msg_id` is evicted as part of the same
//! operation.

use vstd::prelude::*;

use crate::errors::StoreError;
use crate::record::{MsgLogs, RecordView};

verus! {

/// No two rows share a `msg_id`.
pub open spec fn unique_ids(s: Seq<MsgLogs>) -> bool {
    forall|i: int, j: int| 0 <= i < j < s.len() ==> s[i].msg_id != s[j].msg_id
}

/// Some row carries this `msg_id`.
pub open spec fn has_id(s: Seq<MsgLogs>, id: int) -> bool {
    exists|j: int| 0 <= j < s.len() && (#[trigger] s[j]).msg_id as int == id
}

/// The rows as a map from `msg_id` to the record stored under it. Later
/// rows win, but under `unique_ids` there is no conflict.
pub open spec fn rows_map(s: Seq<MsgLogs>) -> Map<int, RecordView>
    decreases s.len(),
{
    if s.len() == 0 {
        Map::empty()
    } else {
        rows_map(s.drop_last()).insert(s.last().msg_id as int, s.last()@)
    }
}

/// `k` is the smallest key of `m`.
pub open spec fn is_min_key(m: Map<int, RecordView>, k: int) -> bool {
    &&& m.dom().contains(k)
    &&& forall|j: int| #[trigger] m.dom().contains(j) ==> k <= j
}

/// The smallest key of `m` (meaningful only when `m` has a minimum, which
/// every finite non-empty map does).
pub open spec fn min_key(m: Map<int, RecordView>) -> int {
    choose|k: int| is_min_key(m, k)
}

/// What one insert does to a table of capacity `cap`, as a map transition:
/// a duplicate key leaves the table unchanged, otherwise the record goes
/// in and, if the table then holds more than `cap` records, the one with
/// the smallest key goes out.
pub open spec fn insert_step(m: Map<int, RecordView>, r: RecordView, cap: nat) -> Map<
    int,
    RecordView,
> {
    if m.dom().contains(r.msg_id) {
        m
    } else {
        let m1 = m.insert(r.msg_id, r);
        if m1.dom().len() > cap {
            m1.remove(min_key(m1))
        } else {
            m1
        }
    }
}

pub proof fn lemma_rows_map_dom(s: Seq<MsgLogs>)
    ensures
        forall|id: int| #[trigger] rows_map(s).dom().contains(id) <==> has_id(s, id),
    decreases s.len(),
{
    if s.len() == 0 {
    } else {
        let t = s.drop_last();
        lemma_rows_map_dom(t);
        assert forall|id: int| #[trigger] rows_map(s).dom().contains(id) <==> has_id(s, id) by {
            if rows_map(s).dom().contains(id) {
                if id == s.last().msg_id as int {
                    assert(0 <= s.len() - 1 < s.len() && s[s.len() - 1].msg_id as int == id);
                } else {
                    assert(rows_map(t).dom().contains(id));
                    let j = choose|j: int| 0 <= j < t.len() && (#[trigger] t[j]).msg_id as int
                        == id;
                    assert(0 <= j < s.len() && s[j].msg_id as int == id);
                }
            }
            if has_id(s, id) {
                let j = choose|j: int| 0 <= j < s.len() && (#[trigger] s[j]).msg_id as int == id;
                if j == s.len() - 1 {
                    assert(rows_map(s).dom().contains(id));
                } else {
                    assert(0 <= j < t.len() && t[j].msg_id as int == id);
                    assert(rows_map(t).dom().contains(id));
                }
            }
        }
    }
}

pub proof fn lemma_rows_map_index(s: Seq<MsgLogs>)
    requires
        unique_ids(s),
    ensures
        forall|j: int|
            0 <= j < s.len() ==> {
                &&& rows_map(s).dom().contains((#[trigger] s[j]).msg_id as int)
                &&& rows_map(s)[s[j].msg_id as int] == s[j]@
            },
    decreases s.len(),
{
    if s.len() == 0 {
    } else {
        let t = s.drop_last();
        lemma_rows_map_index(t);
        assert forall|j: int| 0 <= j < s.len() implies {
            &&& rows_map(s).dom().contains((#[trigger] s[j]).msg_id as int)
            &&& rows_map(s)[s[j].msg_id as int] == s[j]@
        } by {
            if j == s.len() - 1 {
            } else {
                assert(t[j] == s[j]);
                assert(s[j].msg_id != s.last().msg_id);
            }
        }
    }
}

pub proof fn lemma_rows_map_len(s: Seq<MsgLogs>)
    requires
        unique_ids(s),
    ensures
        rows_map(s).dom().finite(),
        rows_map(s).dom().len() == s.len(),
    decreases s.len(),
{
    if s.len() == 0 {
        assert(rows_map(s).dom() =~= Set::<int>::empty());
    } else {
        let t = s.drop_last();
        lemma_rows_map_len(t);
        lemma_rows_map_dom(t);
        assert(!has_id(t, s.last().msg_id as int)) by {
            if has_id(t, s.last().msg_id as int) {
                let j = choose|j: int|
                    0 <= j < t.len() && (#[trigger] t[j]).msg_id as int == s.last().msg_id as int;
                assert(s[j].msg_id == s[s.len() - 1].msg_id);
                assert(false);
            }
        }
        assert(rows_map(s).dom() =~= rows_map(t).dom().insert(s.last().msg_id as int));
    }
}

pub proof fn lemma_rows_map_push(s: Seq<MsgLogs>, r: MsgLogs)
    ensures
        rows_map(s.push(r)) == rows_map(s).insert(r.msg_id as int, r@),
{
    assert(s.push(r).drop_last() =~= s);
    assert(s.push(r).last() == r);
}

pub proof fn lemma_unique_push(s: Seq<MsgLogs>, r: MsgLogs)
    requires
        unique_ids(s),
        !has_id(s, r.msg_id as int),
    ensures
        unique_ids(s.push(r)),
{
    let p = s.push(r);
    assert forall|i: int, j: int| 0 <= i < j < p.len() implies p[i].msg_id != p[j].msg_id by {
        if j == p.len() - 1 {
            assert(p[i] == s[i]);
            if s[i].msg_id == r.msg_id {
                assert(0 <= i < s.len() && s[i].msg_id as int == r.msg_id as int);
                assert(has_id(s, r.msg_id as int));
                assert(false);
            }
        } else {
            assert(p[i] == s[i] && p[j] == s[j]);
        }
    }
}

pub proof fn lemma_unique_remove(s: Seq<MsgLogs>, k: int)
    requires
        unique_ids(s),
        0 <= k < s.len(),
    ensures
        unique_ids(s.remove(k)),
{
    let t = s.remove(k);
    assert forall|i: int, j: int| 0 <= i < j < t.len() implies t[i].msg_id != t[j].msg_id by {
        let i0 = if i < k {
            i
        } else {
            i + 1
        };
        let j0 = if j < k {
            j
        } else {
            j + 1
        };
        assert(t[i] == s[i0] && t[j] == s[j0]);
    }
}

pub proof fn lemma_rows_map_remove(s: Seq<MsgLogs>, k: int)
    requires
        unique_ids(s),
        0 <= k < s.len(),
    ensures
        rows_map(s.remove(k)) == rows_map(s).remove(s[k].msg_id as int),
    decreases s.len(),
{
    let t = s.drop_last();
    if k == s.len() - 1 {
        assert(s.remove(k) =~= t);
        lemma_rows_map_dom(t);
        assert(!has_id(t, s[k].msg_id as int)) by {
            if has_id(t, s[k].msg_id as int) {
                let j = choose|j: int|
                    0 <= j < t.len() && (#[trigger] t[j]).msg_id as int == s[k].msg_id as int;
                assert(s[j].msg_id == s[k].msg_id);
                assert(false);
            }
        }
        assert(rows_map(s).remove(s[k].msg_id as int) =~= rows_map(t));
    } else {
        lemma_rows_map_remove(t, k);
        assert(s.remove(k).drop_last() =~= t.remove(k));
        assert(s.remove(k).last() == s.last());
        assert(s[k].msg_id != s.last().msg_id);
        assert(rows_map(t).remove(s[k].msg_id as int).insert(s.last().msg_id as int, s.last()@)
            =~= rows_map(t).insert(s.last().msg_id as int, s.last()@).remove(s[k].msg_id as int));
    }
}

pub proof fn lemma_rows_map_update(s: Seq<MsgLogs>, k: int, r: MsgLogs)
    requires
        unique_ids(s),
        0 <= k < s.len(),
        r.msg_id == s[k].msg_id,
    ensures
        rows_map(s.update(k, r)) == rows_map(s).insert(r.msg_id as int, r@),
    decreases s.len(),
{
    let t = s.drop_last();
    if k == s.len() - 1 {
        assert(s.update(k, r).drop_last() =~= t);
        assert(s.update(k, r).last() == r);
        assert(rows_map(t).insert(r.msg_id as int, r@) =~= rows_map(t).insert(
            s.last().msg_id as int,
            s.last()@,
        ).insert(r.msg_id as int, r@));
    } else {
        lemma_rows_map_update(t, k, r);
        assert(s.update(k, r).drop_last() =~= t.update(k, r));
        assert(s.update(k, r).last() == s.last());
        assert(s[k].msg_id != s.last().msg_id);
        assert(rows_map(t).insert(r.msg_id as int, r@).insert(s.last().msg_id as int, s.last()@)
            =~= rows_map(t).insert(s.last().msg_id as int, s.last()@).insert(
            r.msg_id as int,
            r@,
        ));
    }
}

pub proof fn lemma_unique_update(s: Seq<MsgLogs>, k: int, r: MsgLogs)
    requires
        unique_ids(s),
        0 <= k < s.len(),
        r.msg_id == s[k].msg_id,
    ensures
        unique_ids(s.update(k, r)),
{
    let t = s.update(k, r);
    assert forall|i: int, j: int| 0 <= i < j < t.len() implies t[i].msg_id != t[j].msg_id by {
        assert(t[i].msg_id == s[i].msg_id && t[j].msg_id == s[j].msg_id);
    }
}

/// Finds the position of the row carrying `msg_id`, if any.
fn find_index(rows: &Vec<MsgLogs>, msg_id: i64) -> (r: Option<usize>)
    ensures
        match r {
            Some(j) => j < rows@.len() && rows@[j as int].msg_id == msg_id,
            None => !has_id(rows@, msg_id as int),
        },
{
    let mut i: usize = 0;
    while i < rows.len()
        invariant
            i <= rows@.len(),
            forall|j: int| 0 <= j < i ==> (#[trigger] rows@[j]).msg_id != msg_id,
        decreases rows@.len() - i,
    {
        if rows[i].msg_id == msg_id {
            return Some(i);
        }
        i += 1;
    }
    None
}

/// Finds the position of the row with the smallest `msg_id`.
fn min_index(rows: &Vec<MsgLogs>) -> (r: usize)
    requires
        rows@.len() > 0,
    ensures
        r < rows@.len(),
        forall|j: int|
            0 <= j < rows@.len() ==> rows@[r as int].msg_id <= (#[trigger] rows@[j]).msg_id,
{
    let mut best: usize = 0;
    let mut i: usize = 1;
    while i < rows.len()
        invariant
            best < i <= rows@.len(),
            forall|j: int| 0 <= j < i ==> rows@[best as int].msg_id <= (#[trigger] rows@[j]).msg_id,
        decreases rows@.len() - i,
    {
        if rows[i].msg_id < rows[best].msg_id {
            best = i;
        }
        i += 1;
    }
    best
}

/// One bounded log table. Its abstract value is the map from `msg_id` to
/// the record stored under it.
pub struct LogTable {
    capacity: usize,
    rows: Vec<MsgLogs>,
}

impl View for LogTable {
    type V = Map<int, RecordView>;

    closed spec fn view(&self) -> Map<int, RecordView> {
        rows_map(self.rows@)
    }
}

impl LogTable {
    /// The row budget: the table never holds more than this many records.
    pub closed spec fn cap(&self) -> nat {
        self.capacity as nat
    }

    /// Well-formedness: a positive capacity, distinct keys, and no more
    /// rows than the capacity allows.
    pub closed spec fn wf(&self) -> bool {
        &&& self.capacity >= 1
        &&& unique_ids(self.rows@)
        &&& self.rows@.len() <= self.capacity
    }

    /// An empty table with the given row budget.
    pub fn new(capacity: usize) -> (r: LogTable)
        requires
            capacity >= 1,
        ensures
            r.wf(),
            r.cap() == capacity,
            r@ == Map::<int, RecordView>::empty(),
    {
        LogTable { capacity, rows: Vec::new() }
    }

    /// How many records the table currently holds.
    pub fn len(&self) -> (r: usize)
        requires
            self.wf(),
        ensures
            r == self@.dom().len(),
    {
        proof {
            lemma_rows_map_len(self.rows@);
        }
        self.rows.len()
    }

    /// Whether a record with this `msg_id` is present.
    pub fn contains_id(&self, msg_id: i64) -> (r: bool)
        requires
            self.wf(),
        ensures
            r == self@.dom().contains(msg_id as int),
    {
        proof {
            lemma_rows_map_dom(self.rows@);
        }
        match find_index(&self.rows, msg_id) {
            Some(j) => {
                proof {
                    assert(0 <= j < self.rows@.len() && self.rows@[j as int].msg_id as int
                        == msg_id as int);
                }
                true
            },
            None => false,
        }
    }

    /// Inserts `rec`, evicting the record with the smallest `msg_id` if the
    /// table would otherwise exceed its capacity. A `msg_id` already present
    /// is refused with `DuplicateKey` and the table is left unchanged.
    pub fn insert(&mut self, rec: MsgLogs) -> (r: Result<(), StoreError>)
        requires
            old(self).wf(),
        ensures
            final(self).wf(),
            final(self).cap() == old(self).cap(),
            r is Ok <==> !old(self)@.dom().contains(rec.msg_id as int),
            r is Err ==> r == Err::<(), StoreError>(StoreError::DuplicateKey) && final(self)@
                == old(self)@,
            final(self)@ == insert_step(old(self)@, rec@, old(self).cap()),
            r is Ok && old(self)@.dom().len() < old(self).cap() ==> final(self)@ == old(
                self,
            )@.insert(rec.msg_id as int, rec@),
            r is Ok && old(self)@.dom().len() == old(self).cap() ==> {
                let m1 = old(self)@.insert(rec.msg_id as int, rec@);
                exists|e: int| #[trigger] is_min_key(m1, e) && final(self)@ == m1.remove(e)
            },
    {
        proof {
            lemma_rows_map_dom(self.rows@);
            lemma_rows_map_len(self.rows@);
        }
        if find_index(&self.rows, rec.msg_id).is_some() {
            return Err(StoreError::DuplicateKey);
        }
        let ghost m0 = self@;
        let ghost grec = rec;
        let ghost old_rows = self.rows@;
        self.rows.push(rec);
        proof {
            lemma_rows_map_push(old_rows, grec);
            lemma_unique_push(old_rows, grec);
            lemma_rows_map_len(self.rows@);
        }
        if self.rows.len() > self.capacity {
            let k = min_index(&self.rows);
            let ghost pushed = self.rows@;
            proof {
                lemma_rows_map_index(pushed);
                lemma_rows_map_dom(pushed);
            }
            let _evicted = self.rows.remove(k);
            proof {
                lemma_rows_map_remove(pushed, k as int);
                lemma_unique_remove(pushed, k as int);
                lemma_rows_map_len(self.rows@);
                let m1 = m0.insert(grec.msg_id as int, grec@);
                let e = pushed[k as int].msg_id as int;
                assert(m1 == rows_map(pushed));
                assert(m1.dom().contains(e));
                assert forall|j: int| #[trigger] m1.dom().contains(j) implies e <= j by {
                    assert(has_id(pushed, j));
                    let idx = choose|idx: int|
                        0 <= idx < pushed.len() && (#[trigger] pushed[idx]).msg_id as int == j;
                    assert(pushed[k as int].msg_id <= pushed[idx].msg_id);
                }
                assert(is_min_key(m1, e));
                let c = min_key(m1);
                assert(is_min_key(m1, c));
                assert(m1.dom().contains(c) && m1.dom().contains(e));
                assert(c == e);
            }
        }
        Ok(())
    }

    /// Point lookup: at most one record can carry `msg_id`, and it is
    /// returned alone in the vector; an empty vector means not found.
    pub fn get_by_id(&self, msg_id: i64) -> (r: Vec<MsgLogs>)
        requires
            self.wf(),
        ensures
            self@.dom().contains(msg_id as int) ==> r@.len() == 1 && r@[0]@ == self@[msg_id as int],
            !self@.dom().contains(msg_id as int) ==> r@.len() == 0,
    {
        proof {
            lemma_rows_map_dom(self.rows@);
            lemma_rows_map_index(self.rows@);
        }
        let mut out: Vec<MsgLogs> = Vec::new();
        match find_index(&self.rows, msg_id) {
            Some(k) => {
                out.push(self.rows[k].clone());
                proof {
                    assert(0 <= k < self.rows@.len() && self.rows@[k as int].msg_id as int
                        == msg_id as int);
                }
            },
            None => {},
        }
        out
    }

    /// The single record with the largest `msg_id` among those sharing
    /// `guild_id`, or an empty vector if no record matches.
    pub fn get_latest_for_guild(&self, guild_id: i64) -> (r: Vec<MsgLogs>)
        requires
            self.wf(),
        ensures
            r@.len() <= 1,
            r@.len() == 0 <==> (forall|k: int|
                #[trigger] self@.dom().contains(k) ==> self@[k].guild_id != guild_id as int),
            r@.len() == 1 ==> {
                let rv = r@[0]@;
                &&& self@.dom().contains(rv.msg_id)
                &&& self@[rv.msg_id] == rv
                &&& rv.guild_id == guild_id as int
                &&& forall|k: int|
                    #[trigger] self@.dom().contains(k) && self@[k].guild_id == guild_id as int
                        ==> k <= rv.msg_id
            },
    {
        proof {
            lemma_rows_map_dom(self.rows@);
            lemma_rows_map_index(self.rows@);
        }
        let mut best: Option<usize> = None;
        let mut i: usize = 0;
        while i < self.rows.len()
            invariant
                i <= self.rows@.len(),
                match best {
                    Some(b) => {
                        &&& b < i
                        &&& self.rows@[b as int].guild_id == guild_id
                        &&& forall|j: int|
                            0 <= j < i && (#[trigger] self.rows@[j]).guild_id == guild_id
                                ==> self.rows@[j].msg_id <= self.rows@[b as int].msg_id
                    },
                    None => forall|j: int|
                        0 <= j < i ==> (#[trigger] self.rows@[j]).guild_id != guild_id,
                },
            decreases self.rows@.len() - i,
        {
            if self.rows[i].guild_id == guild_id {
                best = match best {
                    Some(b) => {
                        if self.rows[i].msg_id > self.rows[b].msg_id {
                            Some(i)
                        } else {
                            Some(b)
                        }
                    },
                    None => Some(i),
                };
            }
            i += 1;
        }
        let mut out: Vec<MsgLogs> = Vec::new();
        match best {
            Some(b) => {
                out.push(self.rows[b].clone());
                proof {
                    let rv = out@[0]@;
                    assert(rv == self.rows@[b as int]@);
                    assert(self@[self.rows@[b as int].msg_id as int] == rv);
                    assert forall|k: int|
                        #[trigger] self@.dom().contains(k) && self@[k].guild_id == guild_id as int
                            implies k <= rv.msg_id by {
                        assert(has_id(self.rows@, k));
                        let idx = choose|idx: int|
                            0 <= idx < self.rows@.len() && (#[trigger] self.rows@[idx]).msg_id
                                as int == k;
                        assert(self@[k] == self.rows@[idx]@);
                        assert(self.rows@[idx].guild_id == guild_id);
                        assert(self.rows@[idx].msg_id <= self.rows@[b as int].msg_id);
                    }
                }
            },
            None => {
                proof {
                    assert forall|k: int| #[trigger] self@.dom().contains(k) implies self@[k].guild_id
                        != guild_id as int by {
                        assert(has_id(self.rows@, k));
                        let idx = choose|idx: int|
                            0 <= idx < self.rows@.len() && (#[trigger] self.rows@[idx]).msg_id
                                as int == k;
                        assert(self@[k] == self.rows@[idx]@);
                    }
                }
            },
        }
        out
    }

    /// Replaces the `content` of the record carrying `msg_id`, leaving every
    /// other field untouched; succeeds silently when no record carries it.
    pub fn update_content(&mut self, msg_id: i64, new_content: &str) -> (r: Result<
        (),
        StoreError,
    >)
        requires
            old(self).wf(),
        ensures
            final(self).wf(),
            final(self).cap() == old(self).cap(),
            r is Ok,
            old(self)@.dom().contains(msg_id as int) ==> final(self)@ == old(self)@.insert(
                msg_id as int,
                old(self)@[msg_id as int].with_content(new_content@),
            ),
            !old(self)@.dom().contains(msg_id as int) ==> final(self)@ == old(self)@,
    {
        proof {
            lemma_rows_map_dom(self.rows@);
            lemma_rows_map_index(self.rows@);
        }
        let ghost old_rows = self.rows@;
        match find_index(&self.rows, msg_id) {
            Some(k) => {
                self.rows[k].content = new_content.to_owned();
                proof {
                    assert(0 <= k < old_rows.len() && old_rows[k as int].msg_id as int == msg_id
                        as int);
                    let updated = self.rows@[k as int];
                    assert(self.rows@ =~= old_rows.update(k as int, updated));
                    lemma_rows_map_update(old_rows, k as int, updated);
                    lemma_unique_update(old_rows, k as int, updated);
                    assert(updated@ == old_rows[k as int]@.with_content(new_content@));
                }
            },
            None => {},
        }
        Ok(())
    }
}

} // verus!
