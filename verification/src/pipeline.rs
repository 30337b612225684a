//! One worker's pipeline step: classify a line, decode it if it is of a
//! recognized kind, and fold it into the worker's store.

use vstd::prelude::*;

use crate::decode::decode;
use crate::decode::spec_decode;
use crate::laws::apply_all;
use crate::laws::first_name;
use crate::laws::lemma_replay;
use crate::laws::opened_count;
use crate::laws::push_count;
use crate::laws::touched;
use crate::laws::unit_sum;
use crate::record::RecordView;
use crate::score::ScoreView;
use crate::store::AggregationStore;
use crate::store::apply_record;

verus! {

/// What one line does to a store: the decoded record is applied; a line of
/// no recognized kind, or one that fails to decode, is skipped and changes
/// nothing.
pub open spec fn spec_process_line(m: Map<u64, ScoreView>, line: Seq<u8>) -> Map<u64, ScoreView> {
    match spec_decode(line) {
        Some(r) => apply_record(m, r),
        None => m,
    }
}

/// What a sequence of lines does to a store, in order.
pub open spec fn spec_process_lines(m: Map<u64, ScoreView>, lines: Seq<Vec<u8>>) -> Map<
    u64,
    ScoreView,
>
    decreases lines.len(),
{
    if lines.len() == 0 {
        m
    } else {
        spec_process_line(spec_process_lines(m, lines.drop_last()), lines.last()@)
    }
}

/// How many of the lines are skipped: not classified as a recognized kind,
/// or classified but failing to decode.
pub open spec fn skipped_count(lines: Seq<Vec<u8>>) -> int
    decreases lines.len(),
{
    if lines.len() == 0 {
        0
    } else {
        skipped_count(lines.drop_last()) + if spec_decode(lines.last()@) is None {
            1int
        } else {
            0int
        }
    }
}

/// The records the decoder reads out of a line sequence, in order.
pub open spec fn decoded_records(lines: Seq<Vec<u8>>) -> Seq<RecordView>
    decreases lines.len(),
{
    if lines.len() == 0 {
        Seq::empty()
    } else {
        match spec_decode(lines.last()@) {
            Some(r) => decoded_records(lines.drop_last()).push(r),
            None => decoded_records(lines.drop_last()),
        }
    }
}

/// Processing a line sequence replays exactly the records decoded from it,
/// so the replay invariant of `lemma_replay` reaches from the raw lines down
/// to every counter of the resulting store.
pub proof fn lemma_process_is_replay(m: Map<u64, ScoreView>, lines: Seq<Vec<u8>>)
    ensures
        spec_process_lines(m, lines) == apply_all(m, decoded_records(lines)),
    decreases lines.len(),
{
    if lines.len() > 0 {
        lemma_process_is_replay(m, lines.drop_last());
        match spec_decode(lines.last()@) {
            Some(r) => {
                let rs = decoded_records(lines.drop_last());
                assert(rs.push(r).drop_last() =~= rs);
                assert(rs.push(r).last() == r);
            },
            None => {},
        }
    }
}

/// The replay invariant, from the raw lines up: after processing a line
/// sequence into an empty store, an entity is present exactly when some
/// record decoded from the lines counted towards it, and its counters are
/// exactly the counts and sums those records imply.
pub proof fn lemma_pipeline_replay(lines: Seq<Vec<u8>>, id: u64)
    ensures
        ({
            let rs = decoded_records(lines);
            let m = spec_process_lines(Map::<u64, ScoreView>::empty(), lines);
            &&& (m.dom().contains(id) <==> touched(rs, id))
            &&& touched(rs, id) ==> m[id] == (ScoreView {
                name: first_name(rs, id),
                prs_opened: opened_count(rs, id),
                pushes: push_count(rs, id),
                commits: unit_sum(rs, id),
            })
        }),
{
    lemma_process_is_replay(Map::<u64, ScoreView>::empty(), lines);
    lemma_replay(decoded_records(lines), id);
}

/// Run one line through the classifier, the decoder and the store. Returns
/// whether the line was decoded and applied; a skipped line is not an error
/// and leaves the store untouched.
pub fn process_line(store: &mut AggregationStore, line: &Vec<u8>) -> (decoded: bool)
    requires
        old(store).wf(),
    ensures
        final(store).wf(),
        final(store)@ == spec_process_line(old(store)@, line@),
        decoded == (spec_decode(line@) is Some),
{
    match decode(line) {
        Some(r) => {
            store.apply(r);
            true
        },
        None => false,
    }
}

/// Run a batch of lines through the pipeline in order, returning how many
/// were skipped.
pub fn process_lines(store: &mut AggregationStore, lines: &Vec<Vec<u8>>) -> (skipped: usize)
    requires
        old(store).wf(),
    ensures
        final(store).wf(),
        final(store)@ == spec_process_lines(old(store)@, lines@),
        skipped == skipped_count(lines@),
{
    let mut skipped: usize = 0;
    let mut i: usize = 0;
    while i < lines.len()
        invariant
            store.wf(),
            i <= lines@.len(),
            skipped <= i,
            store@ == spec_process_lines(old(store)@, lines@.take(i as int)),
            skipped == skipped_count(lines@.take(i as int)),
        decreases lines@.len() - i,
    {
        let decoded = process_line(store, &lines[i]);
        if !decoded {
            skipped = skipped + 1;
        }
        proof {
            let t = lines@.take(i + 1);
            assert(t.drop_last() =~= lines@.take(i as int));
            assert(t.last() == lines@[i as int]);
        }
        i = i + 1;
    }
    proof {
        assert(lines@.take(lines@.len() as int) =~= lines@);
    }
    skipped
}

} // verus!
