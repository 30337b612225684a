//! The aggregation store: per-entity counters keyed by entity id, with the
//! kind-specific update rule and the commutative, associative merge.

use vstd::prelude::*;

use crate::record::DecodedRecord;
use crate::record::RecordView;
use crate::record::opened_bytes;
use crate::record::is_opened_action;
use crate::sat_add;
use crate::score::EntityScore;
use crate::score::ScoreView;
use crate::score::spec_activity;

verus! {

/// A score with the observed name and all counters zero.
pub open spec fn fresh_score(name: Seq<u8>) -> ScoreView {
    ScoreView { name, prs_opened: 0, pushes: 0, commits: 0 }
}

/// The entity's current score, or a fresh one under the observed name if the
/// entity has not been seen.
pub open spec fn score_at(m: Map<u64, ScoreView>, id: u64, name: Seq<u8>) -> ScoreView {
    if m.dom().contains(id) {
        m[id]
    } else {
        fresh_score(name)
    }
}

/// The update rule of the store, on the mathematical model. An
/// opened-candidate with action exactly `"opened"` bumps the opened counter;
/// a push-candidate with a positive unit count bumps the push counter and
/// adds the units; anything else leaves the store untouched.
pub open spec fn apply_record(m: Map<u64, ScoreView>, r: RecordView) -> Map<u64, ScoreView> {
    match r {
        RecordView::Opened { id, name, action } => {
            if action == opened_bytes() {
                let s = score_at(m, id, name);
                m.insert(
                    id,
                    ScoreView {
                        name: s.name,
                        prs_opened: sat_add(s.prs_opened, 1),
                        pushes: s.pushes,
                        commits: s.commits,
                    },
                )
            } else {
                m
            }
        }
        RecordView::Pushed { id, name, units } => {
            if units > 0 {
                let s = score_at(m, id, name);
                m.insert(
                    id,
                    ScoreView {
                        name: s.name,
                        prs_opened: s.prs_opened,
                        pushes: sat_add(s.pushes, 1),
                        commits: sat_add(s.commits, units),
                    },
                )
            } else {
                m
            }
        }
    }
}

/// Component-wise sum of two scores for the same entity; the name comes from
/// the left side, the side that already had the entry.
pub open spec fn combine(a: ScoreView, b: ScoreView) -> ScoreView {
    ScoreView {
        name: a.name,
        prs_opened: sat_add(a.prs_opened, b.prs_opened),
        pushes: sat_add(a.pushes, b.pushes),
        commits: sat_add(a.commits, b.commits),
    }
}

/// The merge of two stores, on the mathematical model: the union of the
/// entity sets, with the counters of shared entities summed component-wise.
pub open spec fn merge_maps(a: Map<u64, ScoreView>, b: Map<u64, ScoreView>) -> Map<
    u64,
    ScoreView,
> {
    Map::new(
        |k: u64| a.dom().contains(k) || b.dom().contains(k),
        |k: u64|
            if a.dom().contains(k) {
                if b.dom().contains(k) {
                    combine(a[k], b[k])
                } else {
                    a[k]
                }
            } else {
                b[k]
            },
    )
}

/// Folding one entity's score into a store: sum if the entity is present,
/// copy if it is not.
pub open spec fn merge_entry(m: Map<u64, ScoreView>, id: u64, v: ScoreView) -> Map<
    u64,
    ScoreView,
> {
    if m.dom().contains(id) {
        m.insert(id, combine(m[id], v))
    } else {
        m.insert(id, v)
    }
}

/// Folding a sequence of entries into a store, left to right.
pub open spec fn merge_fold(a: Map<u64, ScoreView>, s: Seq<EntityScore>) -> Map<u64, ScoreView>
    decreases s.len(),
{
    if s.len() == 0 {
        a
    } else {
        merge_entry(merge_fold(a, s.drop_last()), s.last().id, s.last()@)
    }
}

/// No two entries carry the same entity id.
pub open spec fn distinct_ids(s: Seq<EntityScore>) -> bool {
    forall|i: int, j: int| 0 <= i < j < s.len() ==> s[i].id != s[j].id
}

/// Some entry of the sequence carries this id.
pub open spec fn has_id(s: Seq<EntityScore>, id: u64) -> bool {
    exists|k: int| 0 <= k < s.len() && s[k].id == id
}

/// The mapping an entry sequence stands for.
pub open spec fn entries_map(s: Seq<EntityScore>) -> Map<u64, ScoreView>
    decreases s.len(),
{
    if s.len() == 0 {
        Map::empty()
    } else {
        entries_map(s.drop_last()).insert(s.last().id, s.last()@)
    }
}

/// An id is in the mapping exactly when some entry carries it.
pub proof fn lemma_entries_map_contains(s: Seq<EntityScore>, id: u64)
    ensures
        entries_map(s).dom().contains(id) <==> exists|i: int| 0 <= i < s.len() && s[i].id == id,
    decreases s.len(),
{
    if s.len() > 0 {
        lemma_entries_map_contains(s.drop_last(), id);
        if s.last().id == id {
            assert(s[s.len() - 1].id == id);
        } else if entries_map(s).dom().contains(id) {
            let i = choose|i: int| 0 <= i < s.drop_last().len() && s.drop_last()[i].id == id;
            assert(s[i].id == id);
        } else if exists|i: int| 0 <= i < s.len() && s[i].id == id {
            let i = choose|i: int| 0 <= i < s.len() && s[i].id == id;
            assert(s.drop_last()[i].id == id);
        }
    }
}

/// With distinct ids, each entry's id maps to that entry's view.
pub proof fn lemma_entries_map_index(s: Seq<EntityScore>, i: int)
    requires
        distinct_ids(s),
        0 <= i < s.len(),
    ensures
        entries_map(s).dom().contains(s[i].id),
        entries_map(s)[s[i].id] == s[i]@,
    decreases s.len(),
{
    if i == s.len() - 1 {
        assert(s.last() == s[i]);
    } else {
        assert(distinct_ids(s.drop_last()));
        lemma_entries_map_index(s.drop_last(), i);
        assert(s.drop_last()[i] == s[i]);
        assert(s[i].id != s.last().id);
    }
}

/// Replacing an entry, keeping its id, replaces just that id's score.
pub proof fn lemma_entries_map_update(s: Seq<EntityScore>, i: int, e: EntityScore)
    requires
        distinct_ids(s),
        0 <= i < s.len(),
        e.id == s[i].id,
    ensures
        entries_map(s.update(i, e)) =~~= entries_map(s).insert(e.id, e@),
        distinct_ids(s.update(i, e)),
    decreases s.len(),
{
    assert forall|p: int, q: int| 0 <= p < q < s.len() implies s.update(i, e)[p].id != s.update(
        i,
        e,
    )[q].id by {
        assert(s[p].id != s[q].id);
    }
    if i == s.len() - 1 {
        assert(s.update(i, e).drop_last() =~= s.drop_last());
        assert(s.update(i, e).last() == e);
        assert(entries_map(s.update(i, e)) =~~= entries_map(s).insert(e.id, e@));
    } else {
        assert(distinct_ids(s.drop_last()));
        lemma_entries_map_update(s.drop_last(), i, e);
        assert(s.update(i, e).drop_last() =~= s.drop_last().update(i, e));
        assert(s.update(i, e).last() == s.last());
        assert(s.drop_last()[i] == s[i]);
        assert(e.id != s.last().id);
        assert(entries_map(s.update(i, e)) =~~= entries_map(s).insert(e.id, e@));
    }
}

/// Appending an entry with a fresh id inserts that id.
pub proof fn lemma_entries_map_push(s: Seq<EntityScore>, e: EntityScore)
    requires
        distinct_ids(s),
        forall|i: int| 0 <= i < s.len() ==> s[i].id != e.id,
    ensures
        entries_map(s.push(e)) =~~= entries_map(s).insert(e.id, e@),
        distinct_ids(s.push(e)),
{
    assert(s.push(e).drop_last() =~= s);
    assert(s.push(e).last() == e);
    assert forall|p: int, q: int| 0 <= p < q < s.push(e).len() implies s.push(e)[p].id != s.push(
        e,
    )[q].id by {
        if q < s.len() {
            assert(s[p].id != s[q].id);
        }
    }
}

/// With distinct ids the mapping has exactly one key per entry.
pub proof fn lemma_entries_map_len(s: Seq<EntityScore>)
    requires
        distinct_ids(s),
    ensures
        entries_map(s).dom().finite(),
        entries_map(s).dom().len() == s.len(),
    decreases s.len(),
{
    if s.len() > 0 {
        assert(distinct_ids(s.drop_last()));
        lemma_entries_map_len(s.drop_last());
        lemma_entries_map_contains(s.drop_last(), s.last().id);
        assert(forall|i: int|
            0 <= i < s.drop_last().len() ==> s.drop_last()[i].id != s.last().id);
        assert(!entries_map(s.drop_last()).dom().contains(s.last().id));
        vstd::set::axiom_set_insert_len(entries_map(s.drop_last()).dom(), s.last().id);
    }
}

/// The aggregation store: one score per observed entity, unique ids.
pub struct AggregationStore {
    entries: Vec<EntityScore>,
}

impl View for AggregationStore {
    type V = Map<u64, ScoreView>;

    closed spec fn view(&self) -> Map<u64, ScoreView> {
        entries_map(self.entries@)
    }
}

impl AggregationStore {
    /// The store's internal invariant: no entity id occurs twice.
    pub closed spec fn wf(&self) -> bool {
        distinct_ids(self.entries@)
    }

    /// An empty store: no entity has been observed.
    pub fn new() -> (r: AggregationStore)
        ensures
            r.wf(),
            r@ == Map::<u64, ScoreView>::empty(),
    {
        AggregationStore { entries: Vec::new() }
    }

    /// How many entities the store holds.
    pub fn len(&self) -> (n: usize)
        requires
            self.wf(),
        ensures
            n == self@.dom().len(),
    {
        proof {
            lemma_entries_map_len(self.entries@);
        }
        self.entries.len()
    }

    /// The index of the entry carrying `id`, if the entity is present.
    fn find_index(&self, id: u64) -> (r: Option<usize>)
        ensures
            match r {
                Some(i) => i < self.entries@.len() && self.entries@[i as int].id == id,
                None => forall|j: int| 0 <= j < self.entries@.len() ==> self.entries@[j].id != id,
            },
    {
        let mut i: usize = 0;
        while i < self.entries.len()
            invariant
                i <= self.entries@.len(),
                forall|j: int| 0 <= j < i ==> self.entries@[j].id != id,
            decreases self.entries@.len() - i,
        {
            if self.entries[i].id == id {
                return Some(i);
            }
            i = i + 1;
        }
        None
    }

    /// Look an entity up by id.
    pub fn get(&self, id: u64) -> (r: Option<&EntityScore>)
        requires
            self.wf(),
        ensures
            match r {
                Some(e) => self@.dom().contains(id) && e.id == id && e@ == self@[id],
                None => !self@.dom().contains(id),
            },
    {
        proof {
            lemma_entries_map_contains(self.entries@, id);
        }
        match self.find_index(id) {
            Some(i) => {
                proof {
                    lemma_entries_map_index(self.entries@, i as int);
                }
                Some(&self.entries[i])
            }
            None => None,
        }
    }

    /// Upsert one decoded record, by the kind-specific rule of
    /// `apply_record`: create the entity under the observed name if the
    /// record counts and the entity is absent, bump the counters if it
    /// counts, and do nothing at all otherwise.
    pub fn apply(&mut self, r: DecodedRecord)
        requires
            old(self).wf(),
        ensures
            final(self).wf(),
            final(self)@ == apply_record(old(self)@, r@),
    {
        match r {
            DecodedRecord::Opened { id, name, action } => {
                if is_opened_action(&action) {
                    self.bump(id, name, true, 0);
                }
            }
            DecodedRecord::Pushed { id, name, units } => {
                if units > 0 {
                    self.bump(id, name, false, units);
                }
            }
        }
    }

    /// Bump the counters of `id`, creating the entity under `name` if it is
    /// absent. An opened-candidate bumps the opened counter; a push-candidate
    /// bumps the push counter and adds `units`.
    fn bump(&mut self, id: u64, name: Vec<u8>, opened: bool, units: u64)
        requires
            old(self).wf(),
        ensures
            final(self).wf(),
            final(self)@ == (
            {
                let s = score_at(old(self)@, id, name@);
                if opened {
                    old(self)@.insert(
                        id,
                        ScoreView {
                            name: s.name,
                            prs_opened: sat_add(s.prs_opened, 1),
                            pushes: s.pushes,
                            commits: s.commits,
                        },
                    )
                } else {
                    old(self)@.insert(
                        id,
                        ScoreView {
                            name: s.name,
                            prs_opened: s.prs_opened,
                            pushes: sat_add(s.pushes, 1),
                            commits: sat_add(s.commits, units),
                        },
                    )
                }
            }),
    {
        proof {
            lemma_entries_map_contains(self.entries@, id);
        }
        match self.find_index(id) {
            Some(i) => {
                proof {
                    lemma_entries_map_index(self.entries@, i as int);
                }
                let e = &mut self.entries[i];
                if opened {
                    e.prs_opened = e.prs_opened.saturating_add(1);
                } else {
                    e.pushes = e.pushes.saturating_add(1);
                    e.commits = e.commits.saturating_add(units);
                }
                proof {
                    lemma_entries_map_update(
                        old(self).entries@,
                        i as int,
                        self.entries@[i as int],
                    );
                }
            }
            None => {
                let e = if opened {
                    EntityScore { id, name, prs_opened: 1, pushes: 0, commits: 0 }
                } else {
                    EntityScore { id, name, prs_opened: 0, pushes: 1, commits: units }
                };
                proof {
                    lemma_entries_map_push(self.entries@, e);
                    assert(sat_add(0, 1) == 1);
                    assert(sat_add(0, units) == units);
                }
                self.entries.push(e);
            }
        }
    }

    /// Fold one score into the store: sum the counters if the entity is
    /// present, copy the score if it is not. The stored name is kept.
    fn add_entry(&mut self, e: &EntityScore)
        requires
            old(self).wf(),
        ensures
            final(self).wf(),
            final(self)@ == merge_entry(old(self)@, e.id, e@),
    {
        proof {
            lemma_entries_map_contains(self.entries@, e.id);
        }
        match self.find_index(e.id) {
            Some(i) => {
                proof {
                    lemma_entries_map_index(self.entries@, i as int);
                }
                let cur = &mut self.entries[i];
                cur.prs_opened = cur.prs_opened.saturating_add(e.prs_opened);
                cur.pushes = cur.pushes.saturating_add(e.pushes);
                cur.commits = cur.commits.saturating_add(e.commits);
                proof {
                    lemma_entries_map_update(
                        old(self).entries@,
                        i as int,
                        self.entries@[i as int],
                    );
                }
            }
            None => {
                let copy = e.duplicate();
                proof {
                    lemma_entries_map_push(self.entries@, copy);
                }
                self.entries.push(copy);
            }
        }
    }

    /// Fold every entity of `src` into this store.
    fn add_all(&mut self, src: &AggregationStore)
        requires
            old(self).wf(),
            src.wf(),
        ensures
            final(self).wf(),
            final(self)@ == merge_maps(old(self)@, src@),
    {
        let mut i: usize = 0;
        while i < src.entries.len()
            invariant
                self.wf(),
                src.wf(),
                i <= src.entries@.len(),
                self@ == merge_fold(old(self)@, src.entries@.take(i as int)),
            decreases src.entries@.len() - i,
        {
            self.add_entry(&src.entries[i]);
            proof {
                let t = src.entries@.take(i + 1 as int);
                assert(t.drop_last() =~= src.entries@.take(i as int));
                assert(t.last() == src.entries@[i as int]);
            }
            i = i + 1;
        }
        proof {
            assert(src.entries@.take(src.entries@.len() as int) =~= src.entries@);
            lemma_merge_fold(old(self)@, src.entries@);
        }
    }

    /// A copy of every score the store holds, one per entity: as many
    /// entries as the store has entities, pairwise distinct ids, each entry
    /// equal to its stored score.
    pub fn to_entries(&self) -> (r: Vec<EntityScore>)
        requires
            self.wf(),
        ensures
            r@.len() == self@.dom().len(),
            forall|k: int|
                0 <= k < r@.len() ==> self@.dom().contains(#[trigger] r@[k].id) && r@[k]@
                    == self@[r@[k].id],
            forall|p: int, q: int| 0 <= p < q < r@.len() ==> r@[p].id != r@[q].id,
    {
        proof {
            lemma_entries_map_len(self.entries@);
        }
        let mut r: Vec<EntityScore> = Vec::new();
        let mut i: usize = 0;
        while i < self.entries.len()
            invariant
                self.wf(),
                i <= self.entries@.len(),
                r@.len() == i,
                forall|k: int|
                    0 <= k < i ==> self@.dom().contains(#[trigger] r@[k].id) && r@[k]@
                        == self@[r@[k].id],
                forall|k: int| 0 <= k < i ==> #[trigger] r@[k].id == self.entries@[k].id,
            decreases self.entries@.len() - i,
        {
            proof {
                lemma_entries_map_index(self.entries@, i as int);
            }
            r.push(self.entries[i].duplicate());
            i = i + 1;
        }
        proof {
            assert forall|p: int, q: int| 0 <= p < q < r@.len() implies r@[p].id != r@[q].id by {
                assert(self.entries@[p].id != self.entries@[q].id);
            }
        }
        r
    }

    /// The ranked report over the store: every entity whose combined
    /// activity reaches the threshold, ordered by activity, highest first,
    /// capped at `cap`. Each reported entity appears once; an entity that
    /// qualifies and is missing was cut by the cap, and then only in favour
    /// of entities of at least its activity.
    pub fn top_entities(&self, threshold: u64, cap: usize) -> (r: Vec<EntityScore>)
        requires
            self.wf(),
        ensures
            r@.len() <= cap,
            forall|k: int|
                0 <= k < r@.len() ==> {
                    &&& self@.dom().contains(#[trigger] r@[k].id)
                    &&& r@[k]@ == self@[r@[k].id]
                    &&& spec_activity(r@[k]@) >= threshold
                },
            forall|p: int, q: int|
                0 <= p < q < r@.len() ==> spec_activity(#[trigger] r@[p]@) >= spec_activity(
                    #[trigger] r@[q]@,
                ),
            forall|p: int, q: int| 0 <= p < q < r@.len() ==> r@[p].id != r@[q].id,
            forall|id: u64|
                #[trigger] self@.dom().contains(id) && spec_activity(self@[id]) >= threshold
                    && !has_id(r@, id) ==> r@.len() == cap && (cap > 0 ==> spec_activity(self@[id])
                    <= spec_activity(r@[cap - 1]@)),
    {
        let mut out: Vec<EntityScore> = Vec::new();
        let mut i: usize = 0;
        while i < self.entries.len()
            invariant
                self.wf(),
                i <= self.entries@.len(),
                forall|k: int|
                    0 <= k < out@.len() ==> {
                        &&& self@.dom().contains(#[trigger] out@[k].id)
                        &&& out@[k]@ == self@[out@[k].id]
                        &&& spec_activity(out@[k]@) >= threshold
                    },
                forall|p: int, q: int|
                    0 <= p < q < out@.len() ==> spec_activity(#[trigger] out@[p]@)
                        >= spec_activity(#[trigger] out@[q]@),
                forall|p: int, q: int| 0 <= p < q < out@.len() ==> out@[p].id != out@[q].id,
                forall|k: int|
                    0 <= k < out@.len() ==> exists|j: int|
                        0 <= j < i && #[trigger] out@[k].id == self.entries@[j].id,
                forall|j: int|
                    0 <= j < i && spec_activity(#[trigger] self.entries@[j]@) >= threshold
                        ==> has_id(out@, self.entries@[j].id),
            decreases self.entries@.len() - i,
        {
            let a = self.entries[i].activity();
            if a >= threshold {
                proof {
                    lemma_entries_map_index(self.entries@, i as int);
                }
                let c = self.entries[i].duplicate();
                let mut pos: usize = 0;
                while pos < out.len() && out[pos].activity() >= a
                    invariant
                        pos <= out@.len(),
                        forall|k: int|
                            0 <= k < pos ==> spec_activity(#[trigger] out@[k]@) >= a,
                    decreases out@.len() - pos,
                {
                    pos = pos + 1;
                }
                proof {
                    out@.insert_ensures(pos as int, c);
                }
                let ghost before = out@;
                out.insert(pos, c);
                proof {
                    assert forall|p: int, q: int| 0 <= p < q < out@.len() implies spec_activity(
                        #[trigger] out@[p]@,
                    ) >= spec_activity(#[trigger] out@[q]@) by {
                        if q < pos {
                            assert(out@[p] == before[p] && out@[q] == before[q]);
                        } else if p < pos && q == pos {
                            assert(out@[p] == before[p]);
                        } else if p < pos && q > pos {
                            assert(out@[p] == before[p] && out@[q] == before[q - 1]);
                            if p < q - 1 {
                                assert(spec_activity(before[p]@) >= spec_activity(before[q - 1]@));
                            }
                        } else if p == pos && q > pos {
                            assert(out@[q] == before[q - 1]);
                            assert(pos < before.len());
                            assert(spec_activity(before[pos as int]@) < a);
                            if pos < q - 1 {
                                assert(spec_activity(before[pos as int]@) >= spec_activity(
                                    before[q - 1]@,
                                ));
                            }
                        } else {
                            assert(out@[p] == before[p - 1] && out@[q] == before[q - 1]);
                        }
                    }
                    assert forall|k: int| 0 <= k < out@.len() implies {
                        &&& self@.dom().contains(#[trigger] out@[k].id)
                        &&& out@[k]@ == self@[out@[k].id]
                        &&& spec_activity(out@[k]@) >= threshold
                    } by {
                        if k < pos {
                            assert(out@[k] == before[k]);
                        } else if k == pos {
                            assert(out@[k] == c);
                        } else {
                            assert(out@[k] == before[k - 1]);
                        }
                    }
                    assert forall|k: int| 0 <= k < out@.len() implies exists|j: int|
                        0 <= j < i + 1 && #[trigger] out@[k].id == self.entries@[j].id by {
                        if k < pos {
                            assert(out@[k] == before[k]);
                            let j = choose|j: int|
                                0 <= j < i && before[k].id == self.entries@[j].id;
                            assert(out@[k].id == self.entries@[j].id);
                        } else if k == pos {
                            assert(out@[k] == c);
                            assert(out@[k].id == self.entries@[i as int].id);
                        } else {
                            assert(out@[k] == before[k - 1]);
                            let j = choose|j: int|
                                0 <= j < i && before[k - 1].id == self.entries@[j].id;
                            assert(out@[k].id == self.entries@[j].id);
                        }
                    }
                    assert forall|p: int, q: int| 0 <= p < q < out@.len() implies out@[p].id
                        != out@[q].id by {
                        if p != pos && q != pos {
                            let bp: int = if p < pos { p } else { p - 1 };
                            let bq: int = if q < pos { q } else { q - 1 };
                            assert(out@[p] == before[bp] && out@[q] == before[bq]);
                            assert(before[bp].id != before[bq].id);
                        } else {
                            let e: int = if p == pos { q } else { p };
                            let be: int = if e < pos { e } else { e - 1 };
                            assert(out@[e] == before[be]);
                            let j = choose|j: int|
                                0 <= j < i && before[be].id == self.entries@[j].id;
                            assert(self.entries@[j].id != self.entries@[i as int].id);
                            assert(out@[pos as int].id == self.entries@[i as int].id);
                        }
                    }
                    assert forall|j: int|
                        0 <= j < i + 1 && spec_activity(#[trigger] self.entries@[j]@)
                            >= threshold implies has_id(out@, self.entries@[j].id) by {
                        if j == i {
                            assert(out@[pos as int] == c);
                            assert(out@[pos as int].id == self.entries@[j].id);
                        } else {
                            assert(has_id(before, self.entries@[j].id));
                            let k = choose|k: int|
                                0 <= k < before.len() && before[k].id == self.entries@[j].id;
                            if k < pos {
                                assert(out@[k].id == self.entries@[j].id);
                            } else {
                                assert(out@[k + 1].id == self.entries@[j].id);
                            }
                        }
                    }
                }
            }
            i = i + 1;
        }
        proof {
            assert forall|id: u64|
                #[trigger] self@.dom().contains(id) && spec_activity(self@[id])
                    >= threshold implies has_id(out@, id) by {
                lemma_entries_map_contains(self.entries@, id);
                let j = choose|j: int|
                    0 <= j < self.entries@.len() && self.entries@[j].id == id;
                lemma_entries_map_index(self.entries@, j);
                assert(spec_activity(self.entries@[j]@) >= threshold);
                assert(has_id(out@, self.entries@[j].id));
            }
        }
        if out.len() > cap {
            let ghost whole = out@;
            out.truncate(cap);
            proof {
                assert(forall|k: int| 0 <= k < out@.len() ==> out@[k] == whole[k]);
                assert forall|k: int| 0 <= k < out@.len() implies {
                    &&& self@.dom().contains(#[trigger] out@[k].id)
                    &&& out@[k]@ == self@[out@[k].id]
                    &&& spec_activity(out@[k]@) >= threshold
                } by {
                    assert(out@[k] == whole[k]);
                }
                assert forall|p: int, q: int| 0 <= p < q < out@.len() implies spec_activity(
                    #[trigger] out@[p]@,
                ) >= spec_activity(#[trigger] out@[q]@) by {
                    assert(out@[p] == whole[p] && out@[q] == whole[q]);
                }
                assert forall|p: int, q: int| 0 <= p < q < out@.len() implies out@[p].id
                    != out@[q].id by {
                    assert(out@[p] == whole[p] && out@[q] == whole[q]);
                }
                assert forall|id: u64|
                    #[trigger] self@.dom().contains(id) && spec_activity(self@[id]) >= threshold
                        && !has_id(out@, id) implies out@.len() == cap && (cap > 0
                        ==> spec_activity(self@[id]) <= spec_activity(out@[cap - 1]@)) by {
                    assert(has_id(whole, id));
                    let k = choose|k: int| 0 <= k < whole.len() && whole[k].id == id;
                    if k < cap {
                        assert(out@[k] == whole[k]);
                        assert(out@[k].id == id);
                        assert(has_id(out@, id));
                    }
                    assert(whole[k]@ == self@[whole[k].id]);
                    if cap > 0 {
                        assert(spec_activity(whole[cap - 1]@) >= spec_activity(whole[k]@));
                        assert(out@[cap - 1] == whole[cap - 1]);
                    }
                }
            }
        }
        out
    }

    /// The merge of two stores: the union of their entity sets, with the
    /// counters of shared entities summed component-wise and the name taken
    /// from the side that already had the entry.
    pub fn merge(&self, other: &AggregationStore) -> (r: AggregationStore)
        requires
            self.wf(),
            other.wf(),
        ensures
            r.wf(),
            r@ == merge_maps(self@, other@),
    {
        let mut r = AggregationStore::new();
        r.add_all(self);
        proof {
            lemma_merge_empty(self@);
        }
        r.add_all(other);
        r
    }
}

/// Merging into an empty store copies the store.
pub proof fn lemma_merge_empty(m: Map<u64, ScoreView>)
    ensures
        merge_maps(Map::<u64, ScoreView>::empty(), m) =~~= m,
{
}

/// Folding distinct entries into a store merges the mapping they stand for.
pub proof fn lemma_merge_fold(a: Map<u64, ScoreView>, s: Seq<EntityScore>)
    requires
        distinct_ids(s),
    ensures
        merge_fold(a, s) =~~= merge_maps(a, entries_map(s)),
    decreases s.len(),
{
    if s.len() == 0 {
        assert(merge_maps(a, entries_map(s)) =~~= a);
    } else {
        assert(distinct_ids(s.drop_last()));
        lemma_merge_fold(a, s.drop_last());
        lemma_entries_map_contains(s.drop_last(), s.last().id);
        assert(forall|i: int| 0 <= i < s.drop_last().len() ==> s.drop_last()[i].id != s.last().id);
        assert(!entries_map(s.drop_last()).dom().contains(s.last().id));
        assert(merge_entry(
            merge_maps(a, entries_map(s.drop_last())),
            s.last().id,
            s.last()@,
        ) =~~= merge_maps(a, entries_map(s.drop_last()).insert(s.last().id, s.last()@)));
    }
}

} // verus!
