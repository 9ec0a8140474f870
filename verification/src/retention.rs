//! The retention law of the bounded table: a long enough run of inserts
//! with distinct `msg_id`s leaves the table full, holding exactly the
//! records with the largest `msg_id`s among those inserted.

use vstd::prelude::*;

use crate::record::RecordView;
use crate::table::{insert_step, is_min_key, min_key};

verus! {

/// Some record in `rs` carries this `msg_id`.
pub open spec fn seq_has_id(rs: Seq<RecordView>, id: int) -> bool {
    exists|j: int| 0 <= j < rs.len() && (#[trigger] rs[j]).msg_id == id
}

/// `r` is one of the records of `rs`.
pub open spec fn seq_has_record(rs: Seq<RecordView>, r: RecordView) -> bool {
    exists|j: int| 0 <= j < rs.len() && (#[trigger] rs[j]) == r
}

/// No two records of `rs` share a `msg_id`.
pub open spec fn distinct_ids(rs: Seq<RecordView>) -> bool {
    forall|i: int, j: int| 0 <= i < j < rs.len() ==> rs[i].msg_id != rs[j].msg_id
}

/// The table state after inserting the records of `rs` in order, starting
/// from `m`, into a table of capacity `cap`.
pub open spec fn run_inserts(m: Map<int, RecordView>, rs: Seq<RecordView>, cap: nat) -> Map<
    int,
    RecordView,
>
    decreases rs.len(),
{
    if rs.len() == 0 {
        m
    } else {
        run_inserts(insert_step(m, rs[0], cap), rs.drop_first(), cap)
    }
}

/// The smaller of two naturals.
pub open spec fn smaller(a: nat, b: nat) -> nat {
    if a <= b {
        a
    } else {
        b
    }
}

/// Every finite non-empty map over integer keys has a smallest key.
pub proof fn lemma_has_min_key(m: Map<int, RecordView>)
    requires
        m.dom().finite(),
        m.dom().len() > 0,
    ensures
        exists|k: int| is_min_key(m, k),
        is_min_key(m, min_key(m)),
    decreases m.dom().len(),
{
    let x = m.dom().choose();
    assert(m.dom().contains(x));
    if m.dom().len() == 1 {
        assert forall|j: int| #[trigger] m.dom().contains(j) implies x <= j by {
            if j != x {
                assert(m.dom().remove(x).contains(j));
                assert(m.dom().remove(x).len() == 0);
                assert(false);
            }
        }
        assert(is_min_key(m, x));
    } else {
        let m2 = m.remove(x);
        assert(m2.dom() =~= m.dom().remove(x));
        lemma_has_min_key(m2);
        let k2 = choose|k: int| is_min_key(m2, k);
        let best = if x <= k2 {
            x
        } else {
            k2
        };
        assert forall|j: int| #[trigger] m.dom().contains(j) implies best <= j by {
            if j != x {
                assert(m2.dom().contains(j));
            }
        }
        assert(m2.dom().contains(k2));
        assert(is_min_key(m, best));
    }
}

/// The inductive heart of the retention law: if `m` is what a table of
/// capacity `cap` holds after inserting the records of `processed`, then
/// after also inserting the records of `rs` it holds the records with the
/// largest `msg_id`s of `processed + rs`, up to `cap` of them.
proof fn lemma_run_inserts_inv(
    m: Map<int, RecordView>,
    processed: Seq<RecordView>,
    rs: Seq<RecordView>,
    cap: nat,
)
    requires
        cap >= 1,
        distinct_ids(processed + rs),
        m.dom().finite(),
        m.dom().len() == smaller(processed.len(), cap),
        forall|id: int|
            #[trigger] m.dom().contains(id) ==> m[id].msg_id == id && seq_has_record(
                processed,
                m[id],
            ),
        processed.len() <= cap ==> (forall|id: int|
            seq_has_id(processed, id) ==> #[trigger] m.dom().contains(id)),
        forall|a: int, b: int|
            #[trigger] seq_has_id(processed, a) && !m.dom().contains(a)
                && #[trigger] m.dom().contains(b) ==> a < b,
    ensures
        ({
            let f = run_inserts(m, rs, cap);
            let all = processed + rs;
            &&& f.dom().finite()
            &&& f.dom().len() == smaller(all.len(), cap)
            &&& forall|id: int|
                #[trigger] f.dom().contains(id) ==> f[id].msg_id == id && seq_has_record(
                    all,
                    f[id],
                )
            &&& all.len() <= cap ==> (forall|id: int|
                seq_has_id(all, id) ==> #[trigger] f.dom().contains(id))
            &&& forall|a: int, b: int|
                #[trigger] seq_has_id(all, a) && !f.dom().contains(a)
                    && #[trigger] f.dom().contains(b) ==> a < b
        }),
    decreases rs.len(),
{
    if rs.len() == 0 {
        assert(processed + rs =~= processed);
    } else {
        let r = rs[0];
        let grown = processed.push(r);
        let rest = rs.drop_first();
        assert(processed + rs =~= grown + rest);
        assert((processed + rs)[processed.len() as int] == r);

        // The new record's id is fresh in `processed`, hence fresh in `m`.
        assert(!seq_has_id(processed, r.msg_id)) by {
            if seq_has_id(processed, r.msg_id) {
                let j = choose|j: int|
                    0 <= j < processed.len() && (#[trigger] processed[j]).msg_id == r.msg_id;
                assert((processed + rs)[j] == processed[j]);
                assert(false);
            }
        }
        assert(!m.dom().contains(r.msg_id));

        let m1 = m.insert(r.msg_id, r);
        assert(m1.dom() =~= m.dom().insert(r.msg_id));
        assert(m1.dom().len() == m.dom().len() + 1);

        // Facts about membership in the grown prefix.
        assert forall|id: int| seq_has_id(grown, id) implies seq_has_id(processed, id) || id
            == r.msg_id by {
            let j = choose|j: int| 0 <= j < grown.len() && (#[trigger] grown[j]).msg_id == id;
            if j < processed.len() {
                assert(processed[j].msg_id == id);
            }
        }
        assert(seq_has_id(grown, r.msg_id)) by {
            assert(grown[processed.len() as int].msg_id == r.msg_id);
        }
        assert forall|id: int| seq_has_id(processed, id) implies seq_has_id(grown, id) by {
            let j = choose|j: int|
                0 <= j < processed.len() && (#[trigger] processed[j]).msg_id == id;
            assert(grown[j].msg_id == id);
        }
        assert forall|x: RecordView| seq_has_record(processed, x) implies seq_has_record(
            grown,
            x,
        ) by {
            let j = choose|j: int| 0 <= j < processed.len() && (#[trigger] processed[j]) == x;
            assert(grown[j] == x);
        }
        assert(seq_has_record(grown, r)) by {
            assert(grown[processed.len() as int] == r);
        }

        if m1.dom().len() <= cap {
            // No eviction: the step keeps everything.
            assert(insert_step(m, r, cap) == m1);
            // The table was not full, so it held every processed id, and
            // nothing has ever been evicted.
            assert(m.dom().len() < cap);
            assert(processed.len() < cap);
            assert forall|id: int| seq_has_id(grown, id) implies #[trigger] m1.dom().contains(id) by {
                if id != r.msg_id {
                    assert(seq_has_id(processed, id));
                }
            }
            assert forall|a: int, b: int|
                #[trigger] seq_has_id(grown, a) && !m1.dom().contains(a)
                    && #[trigger] m1.dom().contains(b) implies a < b by {
                assert(false);
            }
            lemma_run_inserts_inv(m1, grown, rest, cap);
            assert(run_inserts(m, rs, cap) == run_inserts(m1, rest, cap));
        } else {
            // Eviction: the smallest key of the overfull table goes out.
            assert(m.dom().len() == cap);
            assert(processed.len() >= cap);
            lemma_has_min_key(m1);
            let e = min_key(m1);
            assert(is_min_key(m1, e));
            let m2 = m1.remove(e);
            assert(insert_step(m, r, cap) == m2);
            assert(m2.dom() =~= m1.dom().remove(e));
            assert(m2.dom().len() == cap);

            assert forall|a: int, b: int|
                #[trigger] seq_has_id(grown, a) && !m2.dom().contains(a)
                    && #[trigger] m2.dom().contains(b) implies a < b by {
                assert(m1.dom().contains(b) && b != e);
                assert(e <= b);
                if a == e {
                } else if a == r.msg_id {
                    // r survives only by not being the minimum; but a != e
                    // and a absent from m2 means r.msg_id == e, settled above.
                    assert(m1.dom().contains(a));
                    assert(false);
                } else {
                    // a was already missing before this insert.
                    assert(seq_has_id(processed, a));
                    assert(!m.dom().contains(a));
                    if b == r.msg_id {
                        // The evicted minimum e lay in m, so a < e < b.
                        assert(m.dom().contains(e));
                        assert(a < e);
                        assert(e < b);
                    } else {
                        assert(m.dom().contains(b));
                    }
                }
            }
            assert forall|id: int| #[trigger] m2.dom().contains(id) implies m2[id].msg_id == id
                && seq_has_record(grown, m2[id]) by {
                if id != r.msg_id {
                    assert(m.dom().contains(id));
                    assert(seq_has_record(processed, m[id]));
                }
            }
            lemma_run_inserts_inv(m2, grown, rest, cap);
            assert(run_inserts(m, rs, cap) == run_inserts(m2, rest, cap));
        }
    }
}

/// The retention law. Insert `rs`, at least as many records as the
/// capacity `cap` and all with distinct `msg_id`s, into an empty table of
/// capacity `cap`. The table then holds exactly `cap` records; each is one
/// of the inserted records, stored under its own `msg_id`; and every
/// inserted `msg_id` that is absent is smaller than every `msg_id` that is
/// present — the survivors are exactly the `cap` largest.
pub proof fn lemma_bounded_retention(rs: Seq<RecordView>, cap: nat)
    requires
        cap >= 1,
        distinct_ids(rs),
        rs.len() >= cap,
    ensures
        ({
            let f = run_inserts(Map::empty(), rs, cap);
            &&& f.dom().finite()
            &&& f.dom().len() == cap
            &&& forall|id: int|
                #[trigger] f.dom().contains(id) ==> f[id].msg_id == id && seq_has_record(
                    rs,
                    f[id],
                )
            &&& forall|a: int, b: int|
                #[trigger] seq_has_id(rs, a) && !f.dom().contains(a)
                    && #[trigger] f.dom().contains(b) ==> a < b
        }),
{
    let empty = Seq::<RecordView>::empty();
    assert(empty + rs =~= rs);
    assert(Map::<int, RecordView>::empty().dom() =~= Set::<int>::empty());
    lemma_run_inserts_inv(Map::empty(), empty, rs, cap);
}

} // verus!
