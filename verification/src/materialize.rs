//! The slot materializer: assembling the full view of a session, creating
//! each missing per-slot performance record on first touch.

use vstd::prelude::*;

use crate::db::store_wf;
use crate::db::valid_session_id;
use crate::db::Database;
use crate::db::StoreView;
use crate::db::ID_LIMIT;
use crate::error::Error;
use crate::models::PreviousSessionExercise;
use crate::models::SessionExercise;
use crate::models::SessionExerciseWithSlot;
use crate::models::SessionWithExercises;
use crate::models::Slot;
use crate::progression::prev_candidate;
use crate::progression::prev_chosen;
use crate::progression::prev_view_ok;
use crate::sets::sets_of;
use crate::sets::sets_sorted;

verus! {

/// Row `j` of the session exercises binds session `session_id` to slot
/// `slot_id`.
pub open spec fn se_for(s: StoreView, session_id: int, slot_id: int, j: int) -> bool {
    &&& 0 <= j < s.session_exercises.len()
    &&& s.session_exercises[j].session_id == session_id
    &&& s.session_exercises[j].slot_id == slot_id
}

/// Session `session_id` already has a performance record for slot `slot_id`.
pub open spec fn has_se(s: StoreView, session_id: int, slot_id: int) -> bool {
    exists|j: int| se_for(s, session_id, slot_id, j)
}

/// The record that first touch creates: the slot's preferred exercise, no
/// tag, no note, drop set not done.
pub open spec fn fresh_se(s: StoreView, session_id: int, slot: Slot) -> SessionExercise {
    SessionExercise {
        id: (s.session_exercises.len() + 1) as i64,
        session_id: session_id as i64,
        slot_id: slot.id,
        exercise_id: slot.preferred_exercise_id,
        effort_tag: None,
        next_time_note: None,
        dropset_done: false,
    }
}

/// The store after first touch of one slot: unchanged when the record
/// exists, else with the fresh record appended.
pub open spec fn ensure_se(s: StoreView, session_id: int, slot: Slot) -> StoreView {
    if has_se(s, session_id, slot.id as int) {
        s
    } else {
        StoreView { session_exercises: s.session_exercises.push(fresh_se(s, session_id, slot)), ..s }
    }
}

/// The store after touching `slots` left to right.
pub open spec fn materialize_slots(s: StoreView, session_id: int, slots: Seq<Slot>) -> StoreView
    decreases slots.len(),
{
    if slots.len() == 0 {
        s
    } else {
        ensure_se(materialize_slots(s, session_id, slots.drop_last()), session_id, slots.last())
    }
}

/// The rows of `slots` that belong to day `day_id`, in order.
pub open spec fn slots_of_day(slots: Seq<Slot>, day_id: int) -> Seq<Slot> {
    slots.filter(|sl: Slot| sl.day_id == day_id)
}

/// The slots of one day, in store order (which the invariant keeps in
/// ascending ordinal order).
pub open spec fn day_slots(s: StoreView, day_id: int) -> Seq<Slot> {
    slots_of_day(s.slots, day_id)
}

/// One assembled slot of a session view is correct for store `s`: it shows
/// the slot itself, the session's performance record for it, that record's
/// exercise, the record's sets in ascending set number order, and the right
/// previous performance.
pub open spec fn slot_view_ok(
    s: StoreView,
    session_id: int,
    slot: Slot,
    v: SessionExerciseWithSlot,
) -> bool {
    &&& v.slot == slot
    &&& exists|j: int|
        #[trigger] se_for(s, session_id, slot.id as int, j) && v.session_exercise
            == s.session_exercises[j]
    &&& 1 <= v.session_exercise.exercise_id <= s.exercises.len()
    &&& v.exercise == s.exercises[v.session_exercise.exercise_id - 1]
    &&& v.sets@.to_multiset() == sets_of(s, v.session_exercise.id as int, true).to_multiset()
    &&& sets_sorted(v.sets@)
    &&& prev_view_ok(s, slot.id as int, v.session_exercise.exercise_id as int, v.previous_session_exercise)
}

/// In a well-formed store, the slots of one day all belong to that day, are
/// rows of the slot table, and stand in strictly ascending ordinal order
/// with pairwise distinct identifiers.
pub proof fn lemma_day_slots_rows(s: StoreView, day_id: int)
    requires
        store_wf(s),
    ensures
        forall|a: int|
            #![trigger day_slots(s, day_id)[a]]
            0 <= a < day_slots(s, day_id).len() ==> {
                let sl = day_slots(s, day_id)[a];
                &&& sl.day_id == day_id
                &&& 1 <= sl.id <= s.slots.len()
                &&& s.slots[sl.id - 1] == sl
            },
        forall|a: int, b: int|
            #![trigger day_slots(s, day_id)[a], day_slots(s, day_id)[b]]
            0 <= a < b < day_slots(s, day_id).len() ==> day_slots(s, day_id)[a].ordinal
                < day_slots(s, day_id)[b].ordinal,
        forall|a: int, b: int|
            #![trigger day_slots(s, day_id)[a], day_slots(s, day_id)[b]]
            0 <= a < b < day_slots(s, day_id).len() ==> day_slots(s, day_id)[a].id
                != day_slots(s, day_id)[b].id,
{
    let pred = |sl: Slot| sl.day_id == day_id;
    let f = day_slots(s, day_id);
    assert forall|a: int| #![trigger f[a]] 0 <= a < f.len() implies {
        let sl = f[a];
        &&& sl.day_id == day_id
        &&& 1 <= sl.id <= s.slots.len()
        &&& s.slots[sl.id - 1] == sl
    } by {
        s.slots.lemma_filter_pred(pred, a);
        assert(f.contains(f[a]));
        s.slots.lemma_filter_contains_rev(pred, f[a]);
        let i = s.slots.lemma_contains_to_index(f[a]);
        assert(s.slots[i].id == i + 1);
    }
    lemma_slots_filter_sorted(s.slots, day_id);
    assert forall|a: int, b: int|
        #![trigger f[a], f[b]]
        0 <= a < b < f.len() implies f[a].id != f[b].id by {
        if f[a].id == f[b].id {
            assert(s.slots[f[a].id - 1] == f[a]);
            assert(s.slots[f[b].id - 1] == f[b]);
            assert(f[a].ordinal < f[b].ordinal);
        }
    }
}

/// Filtering one day out of a per-day-ordered slot table keeps the ordinals
/// strictly ascending.
proof fn lemma_slots_filter_sorted(slots: Seq<Slot>, day_id: int)
    requires
        forall|i: int, j: int|
            0 <= i < j < slots.len() && (#[trigger] slots[i]).day_id == (#[trigger] slots[j]).day_id
                ==> slots[i].ordinal < slots[j].ordinal,
    ensures
        forall|a: int, b: int|
            #![trigger slots_of_day(slots, day_id)[a], slots_of_day(slots, day_id)[b]]
            0 <= a < b < slots_of_day(slots, day_id).len() ==> slots_of_day(slots, day_id)[a].ordinal
                < slots_of_day(slots, day_id)[b].ordinal,
    decreases slots.len(),
{
    let pred = |sl: Slot| sl.day_id == day_id;
    if slots.len() == 0 {
        assert(slots.filter(pred) =~= Seq::<Slot>::empty()) by {
            slots.lemma_filter_len(pred);
        }
    } else {
        let prefix = slots.drop_last();
        let last = slots.last();
        lemma_slots_filter_sorted(prefix, day_id);
        assert(slots =~= prefix.push(last));
        prefix.lemma_filter_push(last, pred);
        let fp = prefix.filter(pred);
        let f = slots.filter(pred);
        assert(fp == slots_of_day(prefix, day_id));
        assert(f == slots_of_day(slots, day_id));
        if pred(last) {
            assert(f == fp.push(last));
            assert forall|a: int| 0 <= a < fp.len() implies (#[trigger] fp[a]).ordinal
                < last.ordinal by {
                prefix.lemma_filter_pred(pred, a);
                assert(fp.contains(fp[a]));
                prefix.lemma_filter_contains_rev(pred, fp[a]);
                let i = prefix.lemma_contains_to_index(fp[a]);
                assert(slots[i] == fp[a]);
                assert(slots[i].day_id == slots[slots.len() - 1].day_id);
            }
        } else {
            assert(f == fp);
        }
    }
}

/// Appending performance records of other slots changes no
/// previous-performance answer.
proof fn lemma_prev_stable_extend(
    s1: StoreView,
    s2: StoreView,
    slot_id: int,
    exercise_id: int,
    p: Option<PreviousSessionExercise>,
)
    requires
        s2.sessions == s1.sessions,
        s2.set_entries == s1.set_entries,
        s1.session_exercises.len() <= s2.session_exercises.len(),
        forall|j: int|
            0 <= j < s1.session_exercises.len() ==> (#[trigger] s2.session_exercises[j])
                == s1.session_exercises[j],
        forall|j: int|
            s1.session_exercises.len() <= j < s2.session_exercises.len() ==> (
            #[trigger] s2.session_exercises[j]).slot_id != slot_id,
        prev_view_ok(s1, slot_id, exercise_id, p),
    ensures
        prev_view_ok(s2, slot_id, exercise_id, p),
{
    assert forall|j: int| #[trigger] prev_candidate(s2, slot_id, exercise_id, j) implies
        prev_candidate(s1, slot_id, exercise_id, j) by {
        assert(j < s1.session_exercises.len());
    }
    assert(sets_of(s2, 0, false) == sets_of(s1, 0, false));
    match p {
        Option::None => {
        },
        Option::Some(pp) => {
            let j = choose|j: int|
                {
                    &&& #[trigger] prev_chosen(s1, slot_id, exercise_id, j)
                    &&& pp.effort_tag == s1.session_exercises[j].effort_tag
                    &&& pp.next_time_note == s1.session_exercises[j].next_time_note
                    &&& pp.sets@.to_multiset() == sets_of(
                        s1,
                        s1.session_exercises[j].id as int,
                        false,
                    ).to_multiset()
                    &&& sets_sorted(pp.sets@)
                };
            assert(prev_candidate(s2, slot_id, exercise_id, j));
            assert forall|k: int|
                #[trigger] prev_candidate(s2, slot_id, exercise_id, k) && k != j implies
                crate::progression::candidate_outranks(s2, j, k) by {
                assert(prev_candidate(s1, slot_id, exercise_id, k));
                assert(crate::progression::candidate_outranks(s1, j, k));
            }
            assert(prev_chosen(s2, slot_id, exercise_id, j));
            assert(sets_of(s2, s2.session_exercises[j].id as int, false) == sets_of(
                s1,
                s1.session_exercises[j].id as int,
                false,
            ));
        },
    }
}

impl Database {
    /// First touch of one slot: returns the session's performance record for
    /// it, creating the record with the slot's preferred exercise when it
    /// does not exist yet.
    fn ensure_session_exercise(&mut self, session_id: i64, slot: &Slot) -> (se: SessionExercise)
        requires
            old(self).wf(),
            valid_session_id(old(self)@, session_id as int),
            1 <= slot.id <= old(self)@.slots.len(),
            old(self)@.slots[slot.id - 1] == *slot,
            old(self)@.session_exercises.len() < ID_LIMIT,
        ensures
            final(self).wf(),
            final(self)@ == ensure_se(old(self)@, session_id as int, *slot),
            exists|j: int|
                #[trigger] se_for(final(self)@, session_id as int, slot.id as int, j) && se
                    == final(self)@.session_exercises[j],
            final(self)@.session_exercises.len() <= old(self)@.session_exercises.len() + 1,
    {
        let ghost s0 = self@;
        let n = self.session_exercises.len();
        let mut i: usize = 0;
        while i < n
            invariant
                n == self@.session_exercises.len(),
                0 <= i <= n,
                self.wf(),
                self@ == s0,
                forall|k: int| 0 <= k < i ==> !se_for(s0, session_id as int, slot.id as int, k),
            decreases n - i,
        {
            let row = &self.session_exercises[i];
            if row.session_id == session_id && row.slot_id == slot.id {
                proof {
                    assert(se_for(s0, session_id as int, slot.id as int, i as int));
                    assert(has_se(s0, session_id as int, slot.id as int));
                }
                return self.session_exercises[i].clone();
            }
            proof {
                assert(!se_for(s0, session_id as int, slot.id as int, i as int));
            }
            i = i + 1;
        }
        proof {
            assert forall|k: int| !se_for(s0, session_id as int, slot.id as int, k) by {
                if 0 <= k < s0.session_exercises.len() {
                    assert(!se_for(s0, session_id as int, slot.id as int, k));
                }
            }
            assert(!has_se(s0, session_id as int, slot.id as int));
        }
        let id: i64 = (self.session_exercises.len() as i64) + 1;
        let row = SessionExercise {
            id,
            session_id,
            slot_id: slot.id,
            exercise_id: slot.preferred_exercise_id,
            effort_tag: None,
            next_time_note: None,
            dropset_done: false,
        };
        let copy = row.clone();
        self.session_exercises.push(row);
        proof {
            assert(self@.session_exercises == s0.session_exercises.push(
                fresh_se(s0, session_id as int, *slot),
            ));
            assert(self@ == ensure_se(s0, session_id as int, *slot));
            let newj = s0.session_exercises.len() as int;
            assert(se_for(self@, session_id as int, slot.id as int, newj));
            assert(copy == self@.session_exercises[newj]);
            assert forall|a: int, b: int| 0 <= a < b < self@.session_exercises.len() implies !((
            #[trigger] self@.session_exercises[a]).session_id
                == (#[trigger] self@.session_exercises[b]).session_id
                && self@.session_exercises[a].slot_id == self@.session_exercises[b].slot_id) by {
                if b < s0.session_exercises.len() {
                    assert(!(s0.session_exercises[a].session_id
                        == s0.session_exercises[b].session_id && s0.session_exercises[a].slot_id
                        == s0.session_exercises[b].slot_id));
                } else {
                    assert(!se_for(s0, session_id as int, slot.id as int, a));
                }
            }
            assert(final(self).wf());
        }
        copy
    }

    /// Assembles the full view of session `session_id`: the session, its
    /// day, and one entry per slot of that day in ascending ordinal order,
    /// creating each missing performance record on the way (so a view read
    /// materializes state, deliberately). Fails with `NotFound` when no
    /// session carries `session_id`, and with `StorageFailure` when the
    /// missing records could not all be given fresh rows; either failure
    /// leaves the store unchanged.
    pub fn get_session(&mut self, session_id: i64) -> (r: Result<SessionWithExercises, Error>)
        requires
            old(self).wf(),
        ensures
            final(self).wf(),
            !valid_session_id(old(self)@, session_id as int) ==> {
                &&& r is Err && r->Err_0 == Error::NotFound
                &&& final(self)@ == old(self)@
            },
            valid_session_id(old(self)@, session_id as int) && old(self)@.session_exercises.len()
                + day_slots(old(self)@, old(self)@.sessions[session_id - 1].day_id as int).len()
                > ID_LIMIT ==> {
                &&& r is Err && r->Err_0 == Error::StorageFailure
                &&& final(self)@ == old(self)@
            },
            valid_session_id(old(self)@, session_id as int) && old(self)@.session_exercises.len()
                + day_slots(old(self)@, old(self)@.sessions[session_id - 1].day_id as int).len()
                <= ID_LIMIT ==> {
                let slots = day_slots(old(self)@, old(self)@.sessions[session_id - 1].day_id as int);
                &&& final(self)@ == materialize_slots(old(self)@, session_id as int, slots)
                &&& r is Ok
                &&& {
                    let v = r->Ok_0;
                    &&& v.session == old(self)@.sessions[session_id - 1]
                    &&& v.day == old(self)@.days[old(self)@.sessions[session_id - 1].day_id - 1]
                    &&& v.exercises@.len() == slots.len()
                    &&& forall|k: int|
                        0 <= k < slots.len() ==> slot_view_ok(
                            final(self)@,
                            session_id as int,
                            slots[k],
                            #[trigger] v.exercises@[k],
                        )
                }
            },
    {
        let ghost s0 = self@;
        let n_sessions = self.sessions.len();
        if !(1 <= session_id && session_id as u64 <= n_sessions as u64) {
            return Err(Error::NotFound);
        }
        let session = self.session_at(session_id).clone();
        let day = self.day_at(session.day_id).clone();

        // The day's slots, in store order (ascending ordinal by the
        // invariant).
        let ghost pred = |sl: Slot| sl.day_id == session.day_id as int;
        let n_slots = self.slots.len();
        let mut dayslots: Vec<Slot> = Vec::new();
        let mut i: usize = 0;
        while i < n_slots
            invariant
                n_slots == self@.slots.len(),
                0 <= i <= n_slots,
                self@ == s0,
                self.wf(),
                session.day_id == s0.sessions[session_id - 1].day_id,
                valid_session_id(s0, session_id as int),
                pred == (|sl: Slot| sl.day_id == session.day_id as int),
                dayslots@ == self@.slots.take(i as int).filter(pred),
            decreases n_slots - i,
        {
            let sl = &self.slots[i];
            proof {
                assert(self@.slots.take(i + 1) =~= self@.slots.take(i as int).push(self@.slots[i as int]));
                self@.slots.take(i as int).lemma_filter_push(self@.slots[i as int], pred);
            }
            if sl.day_id == session.day_id {
                dayslots.push(self.slots[i].clone());
            }
            i = i + 1;
        }
        proof {
            assert(self@.slots.take(n_slots as int) =~= self@.slots);
            assert(pred == (|sl: Slot| sl.day_id == s0.sessions[session_id - 1].day_id as int));
            assert(self@.slots.filter(pred) =~= day_slots(s0, s0.sessions[session_id - 1].day_id as int))
                by {
                assert(s0.sessions[session_id - 1].day_id as int == session.day_id as int);
            }
        }
        let ghost dsl = day_slots(s0, s0.sessions[session_id - 1].day_id as int);

        // All missing records must fit; checked up front so a failure
        // changes nothing.
        let n_day = dayslots.len();
        let n_se = self.session_exercises.len();
        if n_day as u64 > ID_LIMIT || n_se as u64 > ID_LIMIT - n_day as u64 {
            return Err(Error::StorageFailure);
        }

        let mut items: Vec<SessionExerciseWithSlot> = Vec::new();
        let mut k: usize = 0;
        while k < n_day
            invariant
                n_day == dayslots@.len(),
                dayslots@ == dsl,
                dsl == day_slots(s0, s0.sessions[session_id - 1].day_id as int),
                0 <= k <= n_day,
                self.wf(),
                store_wf(s0),
                valid_session_id(s0, session_id as int),
                session.day_id == s0.sessions[session_id - 1].day_id,
                s0.session_exercises.len() + dsl.len() <= ID_LIMIT,
                self@ == materialize_slots(s0, session_id as int, dsl.take(k as int)),
                self@.sessions == s0.sessions,
                self@.days == s0.days,
                self@.slots == s0.slots,
                self@.exercises == s0.exercises,
                self@.set_entries == s0.set_entries,
                s0.session_exercises.len() <= self@.session_exercises.len(),
                self@.session_exercises.len() <= s0.session_exercises.len() + k,
                forall|j: int|
                    0 <= j < s0.session_exercises.len() ==> (#[trigger] self@.session_exercises[j])
                        == s0.session_exercises[j],
                forall|j: int|
                    s0.session_exercises.len() <= j < self@.session_exercises.len() ==> exists|t: int|
                        0 <= t < k && (#[trigger] self@.session_exercises[j]).slot_id == dsl[t].id,
                items@.len() == k,
                forall|t: int|
                    0 <= t < k ==> slot_view_ok(
                        self@,
                        session_id as int,
                        dsl[t],
                        #[trigger] items@[t],
                    ),
            decreases n_day - k,
        {
            proof {
                lemma_day_slots_rows(s0, s0.sessions[session_id - 1].day_id as int);
            }
            let sl = dayslots[k].clone();
            let ghost mid0 = self@;
            let se = self.ensure_session_exercise(session_id, &sl);
            proof {
                // The one appended record (if any) belongs to the current
                // slot, whose identifier no earlier slot shares.
                assert forall|j: int|
                    s0.session_exercises.len() <= j < self@.session_exercises.len() implies exists|t: int|
                        0 <= t < k + 1 && (#[trigger] self@.session_exercises[j]).slot_id
                            == dsl[t].id by {
                    if j < mid0.session_exercises.len() {
                        let t = choose|t: int|
                            0 <= t < k && (#[trigger] mid0.session_exercises[j]).slot_id == dsl[t].id;
                        assert(0 <= t < k + 1 && self@.session_exercises[j].slot_id == dsl[t].id);
                    } else {
                        assert(self@.session_exercises[j].slot_id == dsl[k as int].id);
                        assert(0 <= k < (k + 1) && self@.session_exercises[j].slot_id
                            == dsl[k as int].id);
                    }
                }
                // Earlier assembled items stay correct: the store only grew
                // by records of other slots.
                assert forall|t: int| 0 <= t < k implies slot_view_ok(
                    self@,
                    session_id as int,
                    dsl[t],
                    #[trigger] items@[t],
                ) by {
                    assert(slot_view_ok(mid0, session_id as int, dsl[t], items@[t]));
                    assert forall|j: int|
                        mid0.session_exercises.len() <= j < self@.session_exercises.len() implies (
                        #[trigger] self@.session_exercises[j]).slot_id != dsl[t].id by {
                        assert(self@.session_exercises[j].slot_id == dsl[k as int].id);
                        assert(dsl[t].id != dsl[k as int].id);
                    }
                    lemma_prev_stable_extend(
                        mid0,
                        self@,
                        dsl[t].id as int,
                        items@[t].session_exercise.exercise_id as int,
                        items@[t].previous_session_exercise,
                    );
                    let j = choose|j: int|
                        #[trigger] se_for(mid0, session_id as int, dsl[t].id as int, j)
                            && items@[t].session_exercise == mid0.session_exercises[j];
                    assert(se_for(self@, session_id as int, dsl[t].id as int, j));
                    assert(sets_of(self@, items@[t].session_exercise.id as int, true) == sets_of(
                        mid0,
                        items@[t].session_exercise.id as int,
                        true,
                    ));
                }
            }
            let exercise = self.exercise_at(se.exercise_id).clone();
            let sets = self.collect_sets(se.id, true);
            let prev = self.get_previous_session_exercise(sl.id, se.exercise_id);
            items.push(
                SessionExerciseWithSlot {
                    session_exercise: se,
                    slot: sl,
                    exercise,
                    previous_session_exercise: prev,
                    sets,
                },
            );
            proof {
                assert(dsl.take(k + 1).drop_last() =~= dsl.take(k as int));
                assert(dsl.take(k + 1).last() == dsl[k as int]);
                assert(self@ == materialize_slots(s0, session_id as int, dsl.take(k + 1)));
                assert(slot_view_ok(self@, session_id as int, dsl[k as int], items@[k as int]));
            }
            k = k + 1;
        }
        proof {
            assert(dsl.take(n_day as int) =~= dsl);
        }
        Ok(SessionWithExercises { session, day, exercises: items })
    }
}

} // verus!
