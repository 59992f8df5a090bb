//! The history reporter: the most recent finished performances of one
//! exercise, every set included, capped at fifty entries.

use vstd::prelude::*;

use crate::db::store_wf;
use crate::db::Database;
use crate::db::StoreView;
use crate::models::date_lt_spec;
use crate::models::ExerciseHistoryEntry;
use crate::sets::lemma_filter_index_order;
use crate::sets::sets_of;
use crate::sets::sets_sorted;

verus! {

/// The membership test of the history of `exercise_id` in store `s`: a
/// session exercise of that exercise whose session is finished.
pub open spec fn hist_pred(s: StoreView, exercise_id: int) -> spec_fn(
    crate::models::SessionExercise,
) -> bool {
    |se: crate::models::SessionExercise|
        {
            &&& se.exercise_id == exercise_id
            &&& 1 <= se.session_id <= s.sessions.len()
            &&& s.sessions[se.session_id - 1].is_finished
        }
}

/// The session exercises the history of `exercise_id` draws from, in store
/// order.
pub open spec fn hist_candidates(s: StoreView, exercise_id: int) -> Seq<
    crate::models::SessionExercise,
> {
    s.session_exercises.filter(hist_pred(s, exercise_id))
}

/// Entry `a` is strictly more recent than entry `b`: a later session date,
/// or the same date and a later performance row.
pub open spec fn hist_after(a: ExerciseHistoryEntry, b: ExerciseHistoryEntry) -> bool {
    ||| date_lt_spec(b.session.date, a.session.date)
    ||| (b.session.date == a.session.date && b.session_exercise.id < a.session_exercise.id)
}

/// Entry `a` is at least as recent as entry `b`.
pub open spec fn hist_ge(a: ExerciseHistoryEntry, b: ExerciseHistoryEntry) -> bool {
    !hist_after(b, a)
}

/// `e` is a correct history entry of `exercise_id` in store `s`: a stored
/// candidate performance, bundled with its session, that session's day, and
/// every one of its sets in ascending set number order.
pub open spec fn hist_entry_ok(s: StoreView, exercise_id: int, e: ExerciseHistoryEntry) -> bool {
    &&& exists|j: int|
        0 <= j < s.session_exercises.len() && (#[trigger] s.session_exercises[j])
            == e.session_exercise
    &&& hist_pred(s, exercise_id)(e.session_exercise)
    &&& e.session == s.sessions[e.session_exercise.session_id - 1]
    &&& 1 <= e.session.day_id <= s.days.len()
    &&& e.day == s.days[e.session.day_id - 1]
    &&& e.sets@.to_multiset() == sets_of(s, e.session_exercise.id as int, true).to_multiset()
    &&& sets_sorted(e.sets@)
}

impl Database {
    /// Lists the finished performances of `exercise_id`, the most recent
    /// session first (ties broken towards the later row), capped at fifty
    /// entries; every set of each performance is included, drop sets too. A
    /// pure read.
    pub fn get_exercise_history(&self, exercise_id: i64) -> (r: Vec<ExerciseHistoryEntry>)
        requires
            self.wf(),
        ensures
            r@.len() == vstd::math::min(50, hist_candidates(self@, exercise_id as int).len() as int),
            forall|k: int|
                0 <= k < r@.len() ==> hist_entry_ok(self@, exercise_id as int, #[trigger] r@[k]),
            forall|a: int, b: int|
                0 <= a < b < r@.len() ==> hist_after(#[trigger] r@[a], #[trigger] r@[b]),
            forall|t: int|
                0 <= t < hist_candidates(self@, exercise_id as int).len() ==> {
                    let se = #[trigger] hist_candidates(self@, exercise_id as int)[t];
                    ||| exists|k: int|
                        0 <= k < r@.len() && (#[trigger] r@[k]).session_exercise == se
                    ||| (r@.len() == 50 && {
                        let last = r@[49];
                        ||| date_lt_spec(self@.sessions[se.session_id - 1].date, last.session.date)
                        ||| (self@.sessions[se.session_id - 1].date == last.session.date
                            && se.id < last.session_exercise.id)
                    })
                },
    {
        broadcast use vstd::seq_lib::group_to_multiset_ensures;
        broadcast use vstd::multiset::group_multiset_axioms;

        let ghost pred = hist_pred(self@, exercise_id as int);
        let ghost cands = hist_candidates(self@, exercise_id as int);

        // Collect one entry per candidate, in store (ascending row) order.
        let n = self.session_exercises.len();
        let mut src: Vec<ExerciseHistoryEntry> = Vec::new();
        let mut i: usize = 0;
        while i < n
            invariant
                n == self@.session_exercises.len(),
                0 <= i <= n,
                self.wf(),
                pred == hist_pred(self@, exercise_id as int),
                src@.len() == self@.session_exercises.take(i as int).filter(pred).len(),
                forall|t: int|
                    0 <= t < src@.len() ==> (#[trigger] src@[t]).session_exercise
                        == self@.session_exercises.take(i as int).filter(pred)[t],
                forall|t: int|
                    0 <= t < src@.len() ==> hist_entry_ok(
                        self@,
                        exercise_id as int,
                        #[trigger] src@[t],
                    ),
            decreases n - i,
        {
            let row = &self.session_exercises[i];
            proof {
                assert(self@.session_exercises.take(i + 1) =~= self@.session_exercises.take(
                    i as int,
                ).push(self@.session_exercises[i as int]));
                self@.session_exercises.take(i as int).lemma_filter_push(
                    self@.session_exercises[i as int],
                    pred,
                );
                assert(1 <= self@.session_exercises[i as int].session_id <= self@.sessions.len());
            }
            let mut is_cand = false;
            if row.exercise_id == exercise_id {
                if self.session_at(row.session_id).is_finished {
                    is_cand = true;
                }
            }
            proof {
                assert(is_cand == pred(self@.session_exercises[i as int]));
            }
            if is_cand {
                let session = self.session_at(self.session_exercises[i].session_id).clone();
                let day = self.day_at(session.day_id).clone();
                let sets = self.collect_sets(self.session_exercises[i].id, true);
                src.push(
                    ExerciseHistoryEntry {
                        session,
                        day,
                        session_exercise: self.session_exercises[i].clone(),
                        sets,
                    },
                );
            }
            i = i + 1;
        }
        proof {
            assert(self@.session_exercises.take(n as int) =~= self@.session_exercises);
        }
        let ghost src0 = src@;

        // Order the entries, most recent first.
        let mut out: Vec<ExerciseHistoryEntry> = Vec::new();
        while src.len() > 0
            invariant
                out@.to_multiset().add(src@.to_multiset()) == src0.to_multiset(),
                forall|a: int, b: int| 0 <= a < b < out@.len() ==> hist_ge(#[trigger] out@[a], #[trigger] out@[b]),
                forall|a: int, b: int|
                    0 <= a < out@.len() && 0 <= b < src@.len() ==> hist_ge(
                        #[trigger] out@[a],
                        #[trigger] src@[b],
                    ),
            decreases src.len(),
        {
            let mut m: usize = 0;
            let mut k: usize = 1;
            while k < src.len()
                invariant
                    src.len() > 0,
                    0 <= m < k <= src.len(),
                    forall|t: int| 0 <= t < k ==> hist_ge(src@[m as int], #[trigger] src@[t]),
                decreases src.len() - k,
            {
                let cur = &src[k];
                let best = &src[m];
                let more_recent = crate::models::date_lt(&best.session.date, &cur.session.date) || (
                !crate::models::date_lt(&cur.session.date, &best.session.date)
                    && best.session_exercise.id < cur.session_exercise.id);
                proof {
                    if !date_lt_spec(best.session.date, cur.session.date) && !date_lt_spec(
                        cur.session.date,
                        best.session.date,
                    ) {
                        assert(best.session.date == cur.session.date);
                    }
                }
                if more_recent {
                    m = k;
                }
                k = k + 1;
            }
            let ghost spre = src@;
            let ghost opre = out@;
            let x = src.remove(m);
            out.push(x);
            proof {
                vstd::seq_lib::to_multiset_remove(spre, m as int);
                vstd::seq_lib::to_multiset_build(opre, x);
                vstd::seq_lib::to_multiset_contains(spre, x);
                assert(spre[m as int] == x);
                assert(spre.contains(x));
                assert(out@.to_multiset().add(src@.to_multiset()) =~= src0.to_multiset());
                assert forall|a: int, b: int|
                    0 <= a < out@.len() && 0 <= b < src@.len() implies hist_ge(
                    #[trigger] out@[a],
                    #[trigger] src@[b],
                ) by {
                    if b < m {
                        assert(src@[b] == spre[b]);
                    } else {
                        assert(src@[b] == spre[b + 1]);
                    }
                }
            }
        }
        proof {
            assert(src@.to_multiset() =~= Seq::<ExerciseHistoryEntry>::empty().to_multiset());
            assert(out@.to_multiset() =~= src0.to_multiset());
            lemma_hist_wrapup(self@, exercise_id as int, src0, out@);
        }
        let ghost full = out@;

        // Keep the most recent fifty.
        if out.len() > 50 {
            out.truncate(50);
            proof {
                assert(out@ =~= full.take(50));
            }
        }
        proof {
            if full.len() <= 50 {
                assert(out@ =~= full);
            }
            assert forall|t: int| 0 <= t < cands.len() implies {
                let se = #[trigger] cands[t];
                ||| exists|k: int| 0 <= k < out@.len() && (#[trigger] out@[k]).session_exercise == se
                ||| (out@.len() == 50 && {
                    let last = out@[49];
                    ||| date_lt_spec(self@.sessions[se.session_id - 1].date, last.session.date)
                    ||| (self@.sessions[se.session_id - 1].date == last.session.date && se.id
                        < last.session_exercise.id)
                })
            } by {
                let se = cands[t];
                assert(src0[t].session_exercise == se);
                assert(src0.contains(src0[t]));
                vstd::seq_lib::to_multiset_contains(src0, src0[t]);
                vstd::seq_lib::to_multiset_contains(full, src0[t]);
                assert(full.contains(src0[t]));
                let p = full.lemma_contains_to_index(src0[t]);
                if p < out@.len() {
                    assert(out@[p].session_exercise == se);
                } else {
                    assert(full.len() > 50);
                    assert(out@.len() == 50);
                    assert(hist_ge(full[49], full[p]));
                    assert(out@[49] == full[49]);
                    assert(hist_entry_ok(self@, exercise_id as int, full[p]));
                    assert(full[p].session == self@.sessions[se.session_id - 1]);
                    lemma_hist_distinct(self@, exercise_id as int, src0, full);
                    assert(hist_after(full[49], full[p]));
                }
            }
        }
        out
    }
}

/// After the sort, every entry is still a correct history entry, and the
/// order is strict: distinct candidates never share a (date, row) key.
proof fn lemma_hist_wrapup(
    s: StoreView,
    exercise_id: int,
    src0: Seq<ExerciseHistoryEntry>,
    full: Seq<ExerciseHistoryEntry>,
)
    requires
        store_wf(s),
        full.to_multiset() == src0.to_multiset(),
        src0.len() == hist_candidates(s, exercise_id).len(),
        forall|t: int|
            0 <= t < src0.len() ==> (#[trigger] src0[t]).session_exercise == hist_candidates(
                s,
                exercise_id,
            )[t],
        forall|t: int| 0 <= t < src0.len() ==> hist_entry_ok(s, exercise_id, #[trigger] src0[t]),
        forall|a: int, b: int| 0 <= a < b < full.len() ==> hist_ge(#[trigger] full[a], #[trigger] full[b]),
    ensures
        forall|k: int| 0 <= k < full.len() ==> hist_entry_ok(s, exercise_id, #[trigger] full[k]),
        forall|a: int, b: int| 0 <= a < b < full.len() ==> hist_after(#[trigger] full[a], #[trigger] full[b]),
        full.len() == hist_candidates(s, exercise_id).len(),
{
    broadcast use vstd::seq_lib::group_to_multiset_ensures;
    broadcast use vstd::multiset::group_multiset_axioms;

    vstd::seq_lib::to_multiset_len(full);
    vstd::seq_lib::to_multiset_len(src0);
    assert(full.len() == src0.len());
    assert forall|k: int| 0 <= k < full.len() implies hist_entry_ok(s, exercise_id, #[trigger] full[k]) by {
        assert(full.contains(full[k]));
        vstd::seq_lib::to_multiset_contains(full, full[k]);
        vstd::seq_lib::to_multiset_contains(src0, full[k]);
        assert(src0.contains(full[k]));
        let t = src0.lemma_contains_to_index(full[k]);
        assert(hist_entry_ok(s, exercise_id, src0[t]));
    }
    lemma_hist_distinct(s, exercise_id, src0, full);
}

/// Entries drawn from distinct rows have distinct (date, row) keys, so a
/// non-strictly ordered arrangement of them is strictly ordered.
proof fn lemma_hist_distinct(
    s: StoreView,
    exercise_id: int,
    src0: Seq<ExerciseHistoryEntry>,
    full: Seq<ExerciseHistoryEntry>,
)
    requires
        store_wf(s),
        full.to_multiset() == src0.to_multiset(),
        src0.len() == hist_candidates(s, exercise_id).len(),
        forall|t: int|
            0 <= t < src0.len() ==> (#[trigger] src0[t]).session_exercise == hist_candidates(
                s,
                exercise_id,
            )[t],
        forall|t: int| 0 <= t < src0.len() ==> hist_entry_ok(s, exercise_id, #[trigger] src0[t]),
        forall|a: int, b: int| 0 <= a < b < full.len() ==> hist_ge(#[trigger] full[a], #[trigger] full[b]),
    ensures
        forall|a: int, b: int| 0 <= a < b < full.len() ==> hist_after(#[trigger] full[a], #[trigger] full[b]),
{
    broadcast use vstd::seq_lib::group_to_multiset_ensures;
    broadcast use vstd::multiset::group_multiset_axioms;

    assert forall|t1: int, t2: int| 0 <= t1 < t2 < src0.len() implies (#[trigger] src0[t1]).session_exercise.id
        < (#[trigger] src0[t2]).session_exercise.id by {
        lemma_filter_id_order(s, exercise_id, t1, t2);
    }
    assert(src0.no_duplicates()) by {
        assert forall|t1: int, t2: int| 0 <= t1 < t2 < src0.len() implies src0[t1] != src0[t2] by {
            assert(src0[t1].session_exercise.id < src0[t2].session_exercise.id);
        }
    }
    src0.lemma_multiset_has_no_duplicates();
    assert forall|x: ExerciseHistoryEntry| full.to_multiset().count(x) <= 1 by {
        assert(src0.to_multiset().count(x) <= 1);
    }
    full.lemma_multiset_has_no_duplicates_conv();
    assert forall|a: int, b: int| 0 <= a < b < full.len() implies hist_after(
        #[trigger] full[a],
        #[trigger] full[b],
    ) by {
        assert(hist_ge(full[a], full[b]));
        assert(full[a] != full[b]);
        assert(full.contains(full[a]));
        assert(full.contains(full[b]));
        vstd::seq_lib::to_multiset_contains(full, full[a]);
        vstd::seq_lib::to_multiset_contains(full, full[b]);
        vstd::seq_lib::to_multiset_contains(src0, full[a]);
        vstd::seq_lib::to_multiset_contains(src0, full[b]);
        let ta = src0.lemma_contains_to_index(full[a]);
        let tb = src0.lemma_contains_to_index(full[b]);
        assert(ta != tb);
        if ta < tb {
            assert(src0[ta].session_exercise.id < src0[tb].session_exercise.id);
        } else {
            assert(src0[tb].session_exercise.id < src0[ta].session_exercise.id);
        }
        assert(full[a].session_exercise.id != full[b].session_exercise.id);
        if !hist_after(full[a], full[b]) {
            assert(full[a].session.date == full[b].session.date);
        }
    }
}

/// Candidates keep the ascending row order of the store, so a later filter
/// position carries a larger row identifier.
proof fn lemma_filter_id_order(s: StoreView, exercise_id: int, t1: int, t2: int)
    requires
        store_wf(s),
        0 <= t1 < t2 < hist_candidates(s, exercise_id).len(),
    ensures
        hist_candidates(s, exercise_id)[t1].id < hist_candidates(s, exercise_id)[t2].id,
{
    lemma_filter_index_order(s.session_exercises, hist_pred(s, exercise_id), t1, t2);
    let cands = hist_candidates(s, exercise_id);
    let (i1, i2): (int, int) = choose|i1: int, i2: int|
        {
            &&& 0 <= i1 < i2 < s.session_exercises.len()
            &&& #[trigger] s.session_exercises[i1] == cands[t1]
            &&& #[trigger] s.session_exercises[i2] == cands[t2]
        };
    assert(s.session_exercises[i1].id == i1 + 1);
    assert(s.session_exercises[i2].id == i2 + 1);
}

} // verus!
