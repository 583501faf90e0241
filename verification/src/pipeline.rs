//! The dedup engine and the checkpoint.
//!
//! A freshly fetched bulletin arrives newest-first.  Against the
//! single last-seen checkpoint record, the genuinely new events are
//! exactly the prefix before the first record that names the
//! checkpoint's event; with no checkpoint, everything is new.  After a
//! successful fetch the checkpoint becomes the newest record of that
//! fetch; a fetch with no records leaves it untouched.

use crate::process::QuakeData;
use crate::process::QuakeRec;
use crate::process::recs;
use crate::process::same_event;
use vstd::prelude::*;

verus! {

/// The persisted checkpoint: at most one record, the most recently
/// seen event.
pub struct LastQuake(pub Option<QuakeData>);

/// Length of the prefix of `rs` strictly before the first record that
/// names the same event as `c`; the whole length when none does.
pub open spec fn new_prefix_len(rs: Seq<QuakeRec>, c: QuakeRec) -> int
    decreases rs.len(),
{
    if rs.len() == 0 {
        0
    } else if same_event(rs[0], c) {
        0
    } else {
        1 + new_prefix_len(rs.drop_first(), c)
    }
}

/// What the prefix length stands for: every record before it is a
/// genuinely new event, and the record at it (when there is one) is
/// the checkpoint's own.  A checkpoint absent from the whole sequence
/// leaves the prefix the whole sequence.
pub proof fn lemma_new_prefix_len_characterises(rs: Seq<QuakeRec>, c: QuakeRec)
    ensures
        0 <= new_prefix_len(rs, c) <= rs.len(),
        forall|j: int| 0 <= j < new_prefix_len(rs, c) ==> !same_event(rs[j], c),
        new_prefix_len(rs, c) < rs.len() ==> same_event(rs[new_prefix_len(rs, c)], c),
    decreases rs.len(),
{
    if rs.len() > 0 && !same_event(rs[0], c) {
        let t = rs.drop_first();
        lemma_new_prefix_len_characterises(t, c);
        assert(forall|j: int| 0 <= j < t.len() ==> t[j] == rs[j + 1]);
        assert forall|j: int| 0 <= j < new_prefix_len(rs, c) implies !same_event(rs[j], c) by {
            if j > 0 {
                assert(rs[j] == t[j - 1]);
            }
        }
    }
}

proof fn lemma_new_prefix_len_at(rs: Seq<QuakeRec>, c: QuakeRec, i: int)
    requires
        0 <= i <= rs.len(),
        forall|j: int| 0 <= j < i ==> !same_event(rs[j], c),
        i == rs.len() || same_event(rs[i], c),
    ensures
        new_prefix_len(rs, c) == i,
    decreases i,
{
    if i > 0 {
        let t = rs.drop_first();
        assert(forall|j: int| 0 <= j < t.len() ==> t[j] == rs[j + 1]);
        lemma_new_prefix_len_at(t, c, i - 1);
    }
}

/// The prefix of genuinely new records: everything with no
/// checkpoint, otherwise the records strictly before the first one
/// that names the checkpoint's event.  A checkpoint absent from the
/// whole sequence leaves the whole sequence new.
pub fn take_new_quakes(records: &Vec<QuakeData>, last: &Option<QuakeData>) -> (r: Vec<QuakeData>)
    ensures
        last is None ==> recs(r@) == recs(records@),
        last is Some ==> recs(r@) == recs(records@).take(
            new_prefix_len(recs(records@), last->Some_0@),
        ),
{
    let ghost full = recs(records@);
    let mut out: Vec<QuakeData> = Vec::new();
    proof {
        assert(recs(out@) =~= full.take(0));
    }
    match last {
        None => {
            let mut i: usize = 0;
            while i < records.len()
                invariant
                    i <= records@.len(),
                    full == recs(records@),
                    recs(out@) == full.take(i as int),
                decreases records@.len() - i,
            {
                let q = records[i].clone();
                proof {
                    assert(recs(out@.push(q)) =~= recs(out@) + seq![q@]);
                    assert(full.take(i + 1int) =~= full.take(i as int) + seq![full[i as int]]);
                }
                out.push(q);
                i += 1;
            }
            proof {
                assert(full.take(records@.len() as int) =~= full);
            }
        },
        Some(c) => {
            let mut i: usize = 0;
            while i < records.len() && !records[i].same_instance(c)
                invariant
                    i <= records@.len(),
                    full == recs(records@),
                    forall|j: int| 0 <= j < i ==> !same_event(full[j], c@),
                    recs(out@) == full.take(i as int),
                decreases records@.len() - i,
            {
                let q = records[i].clone();
                proof {
                    assert(recs(out@.push(q)) =~= recs(out@) + seq![q@]);
                    assert(full.take(i + 1int) =~= full.take(i as int) + seq![full[i as int]]);
                }
                out.push(q);
                i += 1;
            }
            proof {
                lemma_new_prefix_len_at(full, c@, i as int);
            }
        },
    }
    out
}

/// The checkpoint after a successful fetch: the newest record of the
/// fetch when there is one, the old checkpoint otherwise.
pub fn next_checkpoint(records: &Vec<QuakeData>, last: Option<QuakeData>) -> (r: Option<QuakeData>)
    ensures
        records@.len() > 0 ==> r is Some && r->Some_0@ == records@[0]@,
        records@.len() == 0 ==> (r is Some <==> last is Some) && (r is Some ==> r->Some_0@
            == last->Some_0@),
{
    if records.len() > 0 {
        Some(records[0].clone())
    } else {
        last
    }
}

} // verus!
