//! The library's laws: proof functions stating how the operations compose,
//! over the same spec functions that the operations' contracts use.

use vstd::prelude::*;

use crate::db::open_for_day;
use crate::db::start_outcome;
use crate::db::store_wf;
use crate::db::valid_day_id;
use crate::db::valid_session_id;
use crate::db::StoreView;
use crate::db::ID_LIMIT;
use crate::error::Error;
use crate::materialize::ensure_se;
use crate::materialize::has_se;
use crate::materialize::materialize_slots;
use crate::materialize::se_for;
use crate::models::date_lt_spec;
use crate::models::Date;
use crate::models::SaveExerciseRequest;
use crate::models::SaveSetRequest;
use crate::models::Session;
use crate::models::SetEntry;
use crate::models::Slot;
use crate::progression::candidate_date;
use crate::progression::candidate_outranks;
use crate::progression::prev_candidate;
use crate::progression::prev_chosen;
use crate::save::patched_se;
use crate::save::reqs_of;
use crate::save::set_slot_at;
use crate::save::upsert_one;
use crate::save::upsert_seq;
use crate::sets::sets_of;

verus! {

/// Starting the same day twice with no finish in between returns the same
/// session identifier both times, and the second call changes nothing.
pub proof fn lemma_resume_idempotent(
    s0: StoreView,
    s1: StoreView,
    s2: StoreView,
    day_id: int,
    d1: Date,
    d2: Date,
    r1: Result<i64, Error>,
    r2: Result<i64, Error>,
)
    requires
        store_wf(s0),
        store_wf(s1),
        valid_day_id(s0, day_id),
        s0.sessions.len() < ID_LIMIT,
        start_outcome(s0, s1, day_id, d1, r1),
        start_outcome(s1, s2, day_id, d2, r2),
    ensures
        r1 is Ok,
        r2 == r1,
        s2 == s1,
{
    if exists|j: int| open_for_day(s0, day_id, j) {
        let j1 = choose|j: int|
            #[trigger] open_for_day(s0, day_id, j) && r1 == Result::<i64, Error>::Ok(
                s0.sessions[j].id,
            );
        assert(s1 == s0);
        assert(open_for_day(s1, day_id, j1));
        let j2 = choose|j: int|
            #[trigger] open_for_day(s1, day_id, j) && r2 == Result::<i64, Error>::Ok(
                s1.sessions[j].id,
            );
        assert(j1 == j2);
    } else {
        let newj = s0.sessions.len() as int;
        assert(r1 == Result::<i64, Error>::Ok((newj + 1) as i64));
        assert(open_for_day(s1, day_id, newj));
        let j2 = choose|j: int|
            #[trigger] open_for_day(s1, day_id, j) && r2 == Result::<i64, Error>::Ok(
                s1.sessions[j].id,
            );
        if j2 != newj {
            assert(open_for_day(s0, day_id, j2));
        }
        assert(s1.sessions[newj].id == newj + 1);
    }
}

/// After finishing a day's unfinished session, starting that day again
/// creates a brand-new session rather than resuming the finished one.
pub proof fn lemma_finish_then_start_creates_new(
    s0: StoreView,
    s1: StoreView,
    s2: StoreView,
    day_id: int,
    session_id: int,
    d: Date,
    r: Result<i64, Error>,
)
    requires
        store_wf(s0),
        valid_session_id(s0, session_id),
        forall|j: int| #[trigger] open_for_day(s0, day_id, j) ==> j == session_id - 1,
        s1 == (StoreView {
            sessions: s0.sessions.update(
                session_id - 1,
                Session { is_finished: true, ..s0.sessions[session_id - 1] },
            ),
            ..s0
        }),
        valid_day_id(s0, day_id),
        s0.sessions.len() < ID_LIMIT,
        start_outcome(s1, s2, day_id, d, r),
    ensures
        r == Result::<i64, Error>::Ok((s0.sessions.len() + 1) as i64),
        s2.sessions.len() == s0.sessions.len() + 1,
        !s2.sessions[s2.sessions.len() - 1].is_finished,
        s2.sessions[s2.sessions.len() - 1].day_id == day_id,
{
    assert forall|j: int| !open_for_day(s1, day_id, j) by {
        if open_for_day(s1, day_id, j) {
            if j == session_id - 1 {
                assert(s1.sessions[j].is_finished);
            } else {
                assert(s1.sessions[j] == s0.sessions[j]);
                assert(open_for_day(s0, day_id, j));
            }
        }
    }
    assert(s2.sessions.len() == s1.sessions.len() + 1);
}

/// Materializing never removes or changes an existing performance record:
/// it only appends.
pub proof fn lemma_materialize_extends(s: StoreView, session_id: int, slots: Seq<Slot>)
    ensures
        materialize_slots(s, session_id, slots).sessions == s.sessions,
        materialize_slots(s, session_id, slots).days == s.days,
        materialize_slots(s, session_id, slots).slots == s.slots,
        materialize_slots(s, session_id, slots).exercises == s.exercises,
        materialize_slots(s, session_id, slots).set_entries == s.set_entries,
        s.session_exercises.len() <= materialize_slots(s, session_id, slots).session_exercises.len(),
        forall|j: int|
            0 <= j < s.session_exercises.len() ==> #[trigger] materialize_slots(
                s,
                session_id,
                slots,
            ).session_exercises[j] == s.session_exercises[j],
    decreases slots.len(),
{
    if slots.len() > 0 {
        lemma_materialize_extends(s, session_id, slots.drop_last());
    }
}

/// After one materialization pass every slot of the list has a performance
/// record.
pub proof fn lemma_materialize_has_all(s: StoreView, session_id: int, slots: Seq<Slot>)
    requires
        0 <= session_id <= ID_LIMIT,
    ensures
        forall|t: int|
            0 <= t < slots.len() ==> has_se(
                materialize_slots(s, session_id, slots),
                session_id,
                (#[trigger] slots[t]).id as int,
            ),
    decreases slots.len(),
{
    if slots.len() > 0 {
        let prefix = slots.drop_last();
        let m1 = materialize_slots(s, session_id, prefix);
        let m = materialize_slots(s, session_id, slots);
        lemma_materialize_has_all(s, session_id, prefix);
        assert(m == ensure_se(m1, session_id, slots.last()));
        assert forall|t: int| 0 <= t < slots.len() implies has_se(
            m,
            session_id,
            (#[trigger] slots[t]).id as int,
        ) by {
            if t < slots.len() - 1 {
                assert(slots[t] == prefix[t]);
                assert(has_se(m1, session_id, slots[t].id as int));
                let j = choose|j: int| se_for(m1, session_id, slots[t].id as int, j);
                assert(se_for(m, session_id, slots[t].id as int, j));
            } else {
                if has_se(m1, session_id, slots.last().id as int) {
                    assert(m == m1);
                } else {
                    let newj = m1.session_exercises.len() as int;
                    assert(se_for(m, session_id, slots.last().id as int, newj));
                }
            }
        }
    }
}

/// Materializing slots whose records all exist already changes nothing.
pub proof fn lemma_materialize_noop(s: StoreView, session_id: int, slots: Seq<Slot>)
    requires
        forall|t: int|
            0 <= t < slots.len() ==> has_se(s, session_id, (#[trigger] slots[t]).id as int),
    ensures
        materialize_slots(s, session_id, slots) == s,
    decreases slots.len(),
{
    if slots.len() > 0 {
        let prefix = slots.drop_last();
        lemma_materialize_noop(s, session_id, prefix);
        assert(has_se(s, session_id, slots.last().id as int));
    }
}

/// Materialization is exactly-once: a second pass over the same slots
/// leaves the store unchanged, so however often the session view is read,
/// each slot keeps a single performance record.
pub proof fn lemma_materialize_exactly_once(s: StoreView, session_id: int, slots: Seq<Slot>)
    requires
        0 <= session_id <= ID_LIMIT,
    ensures
        materialize_slots(
            materialize_slots(s, session_id, slots),
            session_id,
            slots,
        ) == materialize_slots(s, session_id, slots),
        forall|t: int|
            0 <= t < slots.len() ==> has_se(
                materialize_slots(s, session_id, slots),
                session_id,
                (#[trigger] slots[t]).id as int,
            ),
{
    lemma_materialize_has_all(s, session_id, slots);
    lemma_materialize_noop(materialize_slots(s, session_id, slots), session_id, slots);
}

/// In a well-formed store a session has at most one performance record per
/// slot.
pub proof fn lemma_se_unique(s: StoreView, session_id: int, slot_id: int)
    requires
        store_wf(s),
    ensures
        forall|j: int, k: int|
            se_for(s, session_id, slot_id, j) && se_for(s, session_id, slot_id, k) ==> j == k,
{
    assert forall|j: int, k: int|
        se_for(s, session_id, slot_id, j) && se_for(s, session_id, slot_id, k) implies j == k by {
        if j < k {
            assert(!(s.session_exercises[j].session_id == s.session_exercises[k].session_id
                && s.session_exercises[j].slot_id == s.session_exercises[k].slot_id));
        } else if k < j {
            assert(!(s.session_exercises[k].session_id == s.session_exercises[j].session_id
                && s.session_exercises[k].slot_id == s.session_exercises[j].slot_id));
        }
    }
}

/// Of two finished performances of the same (slot, exercise) pair, the
/// older one is never chosen as the previous performance, and whatever is
/// chosen is at least as recent as the newer one.
pub proof fn lemma_progression_prefers_recent(
    s: StoreView,
    slot_id: int,
    exercise_id: int,
    ja: int,
    jb: int,
)
    requires
        prev_candidate(s, slot_id, exercise_id, ja),
        prev_candidate(s, slot_id, exercise_id, jb),
        date_lt_spec(candidate_date(s, ja), candidate_date(s, jb)),
    ensures
        !prev_chosen(s, slot_id, exercise_id, ja),
        forall|j: int|
            #[trigger] prev_chosen(s, slot_id, exercise_id, j) ==> !date_lt_spec(
                candidate_date(s, j),
                candidate_date(s, jb),
            ),
{
    assert(ja != jb);
    assert(!candidate_outranks(s, ja, jb));
    assert forall|j: int| #[trigger] prev_chosen(s, slot_id, exercise_id, j) implies !date_lt_spec(
        candidate_date(s, j),
        candidate_date(s, jb),
    ) by {
        if j != jb {
            assert(candidate_outranks(s, j, jb));
        }
    }
}

/// A drop set of a performance record stays out of the previous-performance
/// set list but stands in the history set list, whatever order those lists
/// were arranged in.
pub proof fn lemma_drop_set_exclusion(
    s: StoreView,
    se_id: int,
    e: SetEntry,
    prev_sets: Seq<SetEntry>,
    hist_sets: Seq<SetEntry>,
)
    requires
        s.set_entries.contains(e),
        e.session_exercise_id == se_id,
        e.is_drop,
        prev_sets.to_multiset() == sets_of(s, se_id, false).to_multiset(),
        hist_sets.to_multiset() == sets_of(s, se_id, true).to_multiset(),
    ensures
        !prev_sets.contains(e),
        hist_sets.contains(e),
{
    let i = s.set_entries.lemma_contains_to_index(e);
    s.set_entries.lemma_filter_contains(crate::sets::set_filter_pred(se_id, true), i);
    assert(sets_of(s, se_id, true).contains(e));
    vstd::seq_lib::to_multiset_contains(sets_of(s, se_id, true), e);
    vstd::seq_lib::to_multiset_contains(hist_sets, e);
    if prev_sets.contains(e) {
        vstd::seq_lib::to_multiset_contains(prev_sets, e);
        vstd::seq_lib::to_multiset_contains(sets_of(s, se_id, false), e);
        let k = sets_of(s, se_id, false).lemma_contains_to_index(e);
        s.set_entries.lemma_filter_pred(crate::sets::set_filter_pred(se_id, false), k);
        assert(!e.is_drop);
    }
}

/// A save that carries only a note leaves the effort tag, the drop-set
/// flag, the record's identity fields and every set entry unchanged.
pub proof fn lemma_partial_update_preserves(
    se: crate::models::SessionExercise,
    entries: Seq<SetEntry>,
    se_id: int,
    req: SaveExerciseRequest,
)
    requires
        req.effort_tag is None,
        req.dropset_done is None,
        req.sets is None,
    ensures
        patched_se(se, req).effort_tag == se.effort_tag,
        patched_se(se, req).dropset_done == se.dropset_done,
        patched_se(se, req).id == se.id,
        patched_se(se, req).session_id == se.session_id,
        patched_se(se, req).slot_id == se.slot_id,
        patched_se(se, req).exercise_id == se.exercise_id,
        req.notes is Some ==> patched_se(se, req).next_time_note == req.notes,
        upsert_seq(entries, se_id, reqs_of(req)) == entries,
{
    assert(reqs_of(req).len() == 0);
}

/// Saving the same set number twice yields one row carrying the later
/// weight, reps and done flag: an upsert, never a duplicate.
pub proof fn lemma_set_upsert_overwrites(
    entries: Seq<SetEntry>,
    se_id: int,
    r1: SaveSetRequest,
    r2: SaveSetRequest,
)
    requires
        forall|a: int, b: int|
            0 <= a < b < entries.len() ==> !((#[trigger] entries[a]).session_exercise_id == (
            #[trigger] entries[b]).session_exercise_id && entries[a].set_number
                == entries[b].set_number),
        r1.set_number == r2.set_number,
        0 <= se_id <= ID_LIMIT,
        entries.len() <= ID_LIMIT,
    ensures
        ({
            let e1 = upsert_one(entries, se_id, r1);
            let e2 = upsert_one(e1, se_id, r2);
            &&& e2.len() == e1.len()
            &&& exists|j: int|
                {
                    &&& #[trigger] set_slot_at(e2, se_id, r2.set_number as int, j)
                    &&& e2[j].weight_g == r2.weight_g
                    &&& e2[j].reps == r2.reps
                    &&& e2[j].is_done == r2.is_done
                }
            &&& forall|j: int, k: int|
                set_slot_at(e2, se_id, r2.set_number as int, j) && set_slot_at(
                    e2,
                    se_id,
                    r2.set_number as int,
                    k,
                ) ==> j == k
        }),
{
    let n = r1.set_number as int;
    let e1 = upsert_one(entries, se_id, r1);
    let j1: int = if exists|j: int| set_slot_at(entries, se_id, n, j) {
        choose|j: int| set_slot_at(entries, se_id, n, j)
    } else {
        entries.len() as int
    };
    assert(set_slot_at(e1, se_id, n, j1));
    assert forall|a: int, b: int|
        0 <= a < b < e1.len() implies !((#[trigger] e1[a]).session_exercise_id == (
    #[trigger] e1[b]).session_exercise_id && e1[a].set_number == e1[b].set_number) by {
        if exists|j: int| set_slot_at(entries, se_id, n, j) {
            assert(e1[a].session_exercise_id == entries[a].session_exercise_id);
            assert(e1[a].set_number == entries[a].set_number);
            assert(e1[b].session_exercise_id == entries[b].session_exercise_id);
            assert(e1[b].set_number == entries[b].set_number);
        } else {
            if b < entries.len() {
            } else {
                assert(!set_slot_at(entries, se_id, n, a));
            }
        }
    }
    assert(exists|j: int| set_slot_at(e1, se_id, n, j));
    let j2 = choose|j: int| set_slot_at(e1, se_id, n, j);
    assert(j2 == j1) by {
        if j2 != j1 {
            if j1 < j2 {
                assert(!(e1[j1].session_exercise_id == e1[j2].session_exercise_id
                    && e1[j1].set_number == e1[j2].set_number));
            } else {
                assert(!(e1[j2].session_exercise_id == e1[j1].session_exercise_id
                    && e1[j2].set_number == e1[j1].set_number));
            }
        }
    }
    let e2 = upsert_one(e1, se_id, r2);
    assert(e2 == e1.update(
        j1,
        SetEntry { weight_g: r2.weight_g, reps: r2.reps, is_done: r2.is_done, ..e1[j1] },
    ));
    assert(set_slot_at(e2, se_id, n, j1));
    assert forall|j: int, k: int|
        set_slot_at(e2, se_id, n, j) && set_slot_at(e2, se_id, n, k) implies j == k by {
        if j != k {
            let (a, b): (int, int) = if j < k {
                (j, k)
            } else {
                (k, j)
            };
            assert(e2[a].session_exercise_id == e1[a].session_exercise_id);
            assert(e2[a].set_number == e1[a].set_number);
            assert(e2[b].session_exercise_id == e1[b].session_exercise_id);
            assert(e2[b].set_number == e1[b].set_number);
            assert(!(e1[a].session_exercise_id == e1[b].session_exercise_id && e1[a].set_number
                == e1[b].set_number));
        }
    }
}

} // verus!
