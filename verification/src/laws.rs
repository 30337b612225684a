//! The algebra of the aggregation store: replaying records, and the laws of
//! the merge operation.

use vstd::prelude::*;

use crate::record::RecordView;
use crate::record::opened_bytes;
use crate::sat_add;
use crate::score::ScoreView;
use crate::store::apply_record;
use crate::store::merge_maps;

verus! {

/// Replaying a sequence of records into a store, in order.
pub open spec fn apply_all(m: Map<u64, ScoreView>, rs: Seq<RecordView>) -> Map<u64, ScoreView>
    decreases rs.len(),
{
    if rs.len() == 0 {
        m
    } else {
        apply_record(apply_all(m, rs.drop_last()), rs.last())
    }
}

/// The record counts towards `id`'s opened counter.
pub open spec fn counts_opened(r: RecordView, id: u64) -> bool {
    match r {
        RecordView::Opened { id: rid, name: _, action } => rid == id && action == opened_bytes(),
        RecordView::Pushed { .. } => false,
    }
}

/// The record counts towards `id`'s push counters.
pub open spec fn counts_push(r: RecordView, id: u64) -> bool {
    match r {
        RecordView::Opened { .. } => false,
        RecordView::Pushed { id: rid, name: _, units } => rid == id && units > 0,
    }
}

/// The record touches `id` at all.
pub open spec fn counts(r: RecordView, id: u64) -> bool {
    counts_opened(r, id) || counts_push(r, id)
}

/// Some record of the sequence touches `id`.
pub open spec fn touched(rs: Seq<RecordView>, id: u64) -> bool {
    exists|i: int| 0 <= i < rs.len() && counts(rs[i], id)
}

/// The unit count a record contributes to `id`.
pub open spec fn units_of(r: RecordView, id: u64) -> u64 {
    match r {
        RecordView::Opened { .. } => 0,
        RecordView::Pushed { id: rid, name: _, units } => if rid == id && units > 0 {
            units
        } else {
            0
        },
    }
}

/// How many records of the sequence count towards `id`'s opened counter.
pub open spec fn opened_count(rs: Seq<RecordView>, id: u64) -> u64
    decreases rs.len(),
{
    if rs.len() == 0 {
        0
    } else if counts_opened(rs.last(), id) {
        sat_add(opened_count(rs.drop_last(), id), 1)
    } else {
        opened_count(rs.drop_last(), id)
    }
}

/// How many records of the sequence count towards `id`'s push counter.
pub open spec fn push_count(rs: Seq<RecordView>, id: u64) -> u64
    decreases rs.len(),
{
    if rs.len() == 0 {
        0
    } else if counts_push(rs.last(), id) {
        sat_add(push_count(rs.drop_last(), id), 1)
    } else {
        push_count(rs.drop_last(), id)
    }
}

/// The summed unit counts the sequence contributes to `id`.
pub open spec fn unit_sum(rs: Seq<RecordView>, id: u64) -> u64
    decreases rs.len(),
{
    if rs.len() == 0 {
        0
    } else {
        sat_add(unit_sum(rs.drop_last(), id), units_of(rs.last(), id))
    }
}

/// The name of the first record of the sequence that touches `id`.
pub open spec fn first_name(rs: Seq<RecordView>, id: u64) -> Seq<u8>
    decreases rs.len(),
{
    if rs.len() == 0 {
        Seq::empty()
    } else if touched(rs.drop_last(), id) {
        first_name(rs.drop_last(), id)
    } else {
        match rs.last() {
            RecordView::Opened { id: _, name, action: _ } => name,
            RecordView::Pushed { id: _, name, units: _ } => name,
        }
    }
}

/// The replay invariant: after replaying a record sequence into an empty
/// store, an entity is present exactly when some record counted towards it,
/// and its score is the name of the first such record together with the
/// count of counted opened-candidates, the count of counted push-candidates,
/// and the sum of the contributed unit counts. (The counters are unsigned,
/// so they are non-negative by type.)
pub proof fn lemma_replay(rs: Seq<RecordView>, id: u64)
    ensures
        apply_all(Map::<u64, ScoreView>::empty(), rs).dom().contains(id) <==> touched(rs, id),
        touched(rs, id) ==> apply_all(Map::<u64, ScoreView>::empty(), rs)[id] == (ScoreView {
            name: first_name(rs, id),
            prs_opened: opened_count(rs, id),
            pushes: push_count(rs, id),
            commits: unit_sum(rs, id),
        }),
    decreases rs.len(),
{
    if rs.len() > 0 {
        let pre = rs.drop_last();
        let r = rs.last();
        lemma_replay(pre, id);
        let m = apply_all(Map::<u64, ScoreView>::empty(), pre);
        if touched(rs, id) {
            assert(touched(pre, id) || counts(r, id)) by {
                let i = choose|i: int| 0 <= i < rs.len() && counts(rs[i], id);
                if i < pre.len() {
                    assert(counts(pre[i], id));
                }
            }
        }
        if touched(pre, id) {
            let i = choose|i: int| 0 <= i < pre.len() && counts(pre[i], id);
            assert(counts(rs[i], id));
        }
        if counts(r, id) {
            assert(touched(rs, id)) by {
                assert(counts(rs[rs.len() - 1], id));
            }
        }
        if !touched(pre, id) {
            lemma_untouched_counts(pre, id);
        }
    }
}

/// A sequence that never touches `id` contributes nothing to its counters.
proof fn lemma_untouched_counts(rs: Seq<RecordView>, id: u64)
    requires
        !touched(rs, id),
    ensures
        opened_count(rs, id) == 0,
        push_count(rs, id) == 0,
        unit_sum(rs, id) == 0,
    decreases rs.len(),
{
    if rs.len() > 0 {
        assert(!counts(rs[rs.len() - 1], id));
        assert forall|i: int| 0 <= i < rs.drop_last().len() implies !counts(
            rs.drop_last()[i],
            id,
        ) by {
            assert(rs.drop_last()[i] == rs[i]);
            assert(!counts(rs[i], id));
        }
        lemma_untouched_counts(rs.drop_last(), id);
        assert(units_of(rs.last(), id) == 0);
        assert(sat_add(0, 0) == 0);
    }
}

/// Saturating addition is commutative.
pub proof fn lemma_sat_add_comm(a: u64, b: u64)
    ensures
        sat_add(a, b) == sat_add(b, a),
{
}

/// Saturating addition is associative.
pub proof fn lemma_sat_add_assoc(a: u64, b: u64, c: u64)
    ensures
        sat_add(sat_add(a, b), c) == sat_add(a, sat_add(b, c)),
{
}

/// The two stores give every shared entity the same name. Within one run all
/// records for an id are assumed to carry one name, so every pair of stores
/// built from one run's records agrees in this sense.
pub open spec fn names_agree(a: Map<u64, ScoreView>, b: Map<u64, ScoreView>) -> bool {
    forall|k: u64| a.dom().contains(k) && b.dom().contains(k) ==> a[k].name == b[k].name
}

/// Merge is commutative, on stores that agree on the names of shared
/// entities.
pub proof fn lemma_merge_commutative(a: Map<u64, ScoreView>, b: Map<u64, ScoreView>)
    requires
        names_agree(a, b),
    ensures
        merge_maps(a, b) =~~= merge_maps(b, a),
{
    assert forall|k: u64| merge_maps(a, b).dom().contains(k) implies merge_maps(a, b)[k]
        == merge_maps(b, a)[k] by {
        if a.dom().contains(k) && b.dom().contains(k) {
            lemma_sat_add_comm(a[k].prs_opened, b[k].prs_opened);
            lemma_sat_add_comm(a[k].pushes, b[k].pushes);
            lemma_sat_add_comm(a[k].commits, b[k].commits);
        }
    }
}

/// Merge is associative.
pub proof fn lemma_merge_associative(
    a: Map<u64, ScoreView>,
    b: Map<u64, ScoreView>,
    c: Map<u64, ScoreView>,
)
    ensures
        merge_maps(merge_maps(a, b), c) =~~= merge_maps(a, merge_maps(b, c)),
{
    assert forall|k: u64| merge_maps(merge_maps(a, b), c).dom().contains(k) implies merge_maps(
        merge_maps(a, b),
        c,
    )[k] == merge_maps(a, merge_maps(b, c))[k] by {
        if a.dom().contains(k) && b.dom().contains(k) && c.dom().contains(k) {
            lemma_sat_add_assoc(a[k].prs_opened, b[k].prs_opened, c[k].prs_opened);
            lemma_sat_add_assoc(a[k].pushes, b[k].pushes, c[k].pushes);
            lemma_sat_add_assoc(a[k].commits, b[k].commits, c[k].commits);
        }
    }
}

/// Replaying one record sequence into two independent empty stores and
/// merging the results doubles every counter: each entity's counters in the
/// merged store are the saturating sum of the single-pass counter with
/// itself, which is exactly twice the single-pass counter whenever that does
/// not saturate. No update is lost and nothing is counted a third time.
pub proof fn lemma_double_pass(rs: Seq<RecordView>, id: u64)
    ensures
        ({
            let s = apply_all(Map::<u64, ScoreView>::empty(), rs);
            let d = merge_maps(s, s);
            &&& d.dom() =~= s.dom()
            &&& s.dom().contains(id) ==> {
                &&& d[id].name == s[id].name
                &&& d[id].prs_opened == sat_add(s[id].prs_opened, s[id].prs_opened)
                &&& d[id].pushes == sat_add(s[id].pushes, s[id].pushes)
                &&& d[id].commits == sat_add(s[id].commits, s[id].commits)
                &&& s[id].prs_opened + s[id].prs_opened <= u64::MAX ==> d[id].prs_opened == 2
                    * s[id].prs_opened
                &&& s[id].pushes + s[id].pushes <= u64::MAX ==> d[id].pushes == 2 * s[id].pushes
                &&& s[id].commits + s[id].commits <= u64::MAX ==> d[id].commits == 2
                    * s[id].commits
            }
        }),
{
}

/// A push-candidate record with unit count zero is a no-op: it neither
/// creates an entity nor changes any counter.
pub proof fn lemma_push_zero_no_op(m: Map<u64, ScoreView>, id: u64, name: Seq<u8>)
    ensures
        apply_record(m, RecordView::Pushed { id, name, units: 0 }) == m,
{
}

/// An opened-candidate record whose action is anything but `"opened"` is a
/// no-op: no counter changes and no entity is created.
pub proof fn lemma_other_action_no_op(
    m: Map<u64, ScoreView>,
    id: u64,
    name: Seq<u8>,
    action: Seq<u8>,
)
    requires
        action != opened_bytes(),
    ensures
        apply_record(m, RecordView::Opened { id, name, action }) == m,
{
}

} // verus!
