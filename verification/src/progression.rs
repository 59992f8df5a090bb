//! The progression resolver: the most recent finished performance of an
//! exact (slot, exercise) pair.

use vstd::prelude::*;

use crate::db::Database;
use crate::db::StoreView;
use crate::models::clone_opt_string;
use crate::models::date_lt_spec;
use crate::models::Date;
use crate::models::PreviousSessionExercise;
use crate::sets::sets_of;
use crate::sets::sets_sorted;

verus! {

/// Session exercise `j` is a candidate for the previous performance of
/// (`slot_id`, `exercise_id`): it binds exactly that pair and belongs to a
/// finished session.
pub open spec fn prev_candidate(s: StoreView, slot_id: int, exercise_id: int, j: int) -> bool {
    &&& 0 <= j < s.session_exercises.len()
    &&& s.session_exercises[j].slot_id == slot_id
    &&& s.session_exercises[j].exercise_id == exercise_id
    &&& 1 <= s.session_exercises[j].session_id <= s.sessions.len()
    &&& s.sessions[s.session_exercises[j].session_id - 1].is_finished
}

/// The date of the session that session exercise `j` belongs to.
pub open spec fn candidate_date(s: StoreView, j: int) -> Date {
    s.sessions[s.session_exercises[j].session_id - 1].date
}

/// Candidate `j` is more recent than candidate `k`: a later session date,
/// or the same date and a later row.
pub open spec fn candidate_outranks(s: StoreView, j: int, k: int) -> bool {
    ||| date_lt_spec(candidate_date(s, k), candidate_date(s, j))
    ||| (candidate_date(s, k) == candidate_date(s, j) && s.session_exercises[k].id
        < s.session_exercises[j].id)
}

/// Session exercise `j` is the single most recent candidate.
pub open spec fn prev_chosen(s: StoreView, slot_id: int, exercise_id: int, j: int) -> bool {
    &&& prev_candidate(s, slot_id, exercise_id, j)
    &&& forall|k: int|
        #[trigger] prev_candidate(s, slot_id, exercise_id, k) && k != j ==> candidate_outranks(
            s,
            j,
            k,
        )
}

/// `p` is the correct previous-performance answer for
/// (`slot_id`, `exercise_id`) in store `s`: absent exactly when there is no
/// candidate, and otherwise drawn from the single most recent one, with its
/// non-drop sets in ascending set number order.
pub open spec fn prev_view_ok(
    s: StoreView,
    slot_id: int,
    exercise_id: int,
    p: Option<PreviousSessionExercise>,
) -> bool {
    match p {
        Option::None => forall|j: int| !prev_candidate(s, slot_id, exercise_id, j),
        Option::Some(p) => exists|j: int|
            {
                &&& #[trigger] prev_chosen(s, slot_id, exercise_id, j)
                &&& p.effort_tag == s.session_exercises[j].effort_tag
                &&& p.next_time_note == s.session_exercises[j].next_time_note
                &&& p.sets@.to_multiset() == sets_of(
                    s,
                    s.session_exercises[j].id as int,
                    false,
                ).to_multiset()
                &&& sets_sorted(p.sets@)
            },
    }
}

impl Database {
    /// Finds the most recent finished performance of exactly
    /// (`slot_id`, `exercise_id`): its non-drop sets in ascending set number
    /// order, with the recorded effort tag and next-time note. Absent when no
    /// finished session holds that pair. A pure read.
    pub fn get_previous_session_exercise(&self, slot_id: i64, exercise_id: i64) -> (r: Option<
        PreviousSessionExercise,
    >)
        requires
            self.wf(),
        ensures
            prev_view_ok(self@, slot_id as int, exercise_id as int, r),
    {
        let n = self.session_exercises.len();
        let mut best: Option<usize> = None;
        let mut i: usize = 0;
        while i < n
            invariant
                n == self@.session_exercises.len(),
                0 <= i <= n,
                self.wf(),
                match best {
                    Option::None => forall|k: int|
                        0 <= k < i ==> !prev_candidate(self@, slot_id as int, exercise_id as int, k),
                    Option::Some(b) => {
                        &&& 0 <= b < i
                        &&& prev_candidate(self@, slot_id as int, exercise_id as int, b as int)
                        &&& forall|k: int|
                            #[trigger] prev_candidate(self@, slot_id as int, exercise_id as int, k)
                                && 0 <= k < i && k != b ==> candidate_outranks(self@, b as int, k)
                    },
                },
            decreases n - i,
        {
            let row = &self.session_exercises[i];
            proof {
                assert(self@.session_exercises[i as int].id == i + 1);
                assert(1 <= self@.session_exercises[i as int].session_id <= self@.sessions.len());
            }
            let mut is_cand = false;
            if row.slot_id == slot_id && row.exercise_id == exercise_id {
                if self.session_at(row.session_id).is_finished {
                    is_cand = true;
                }
            }
            proof {
                assert(is_cand == prev_candidate(self@, slot_id as int, exercise_id as int, i as int));
            }
            if is_cand {
                match best {
                    Option::None => {
                        best = Some(i);
                    },
                    Option::Some(b) => {
                        proof {
                            assert(1 <= self@.session_exercises[b as int].session_id
                                <= self@.sessions.len());
                        }
                        let bd = self.session_at(self.session_exercises[b].session_id).date;
                        let jd = self.session_at(self.session_exercises[i].session_id).date;
                        let replace = crate::models::date_lt(&bd, &jd) || (!crate::models::date_lt(
                            &jd,
                            &bd,
                        ) && self.session_exercises[b].id < self.session_exercises[i].id);
                        proof {
                            assert(bd == candidate_date(self@, b as int));
                            assert(jd == candidate_date(self@, i as int));
                            if !date_lt_spec(bd, jd) && !date_lt_spec(jd, bd) {
                                assert(bd == jd);
                            }
                        }
                        if replace {
                            proof {
                                assert(candidate_outranks(self@, i as int, b as int));
                                assert forall|k: int|
                                    #[trigger] prev_candidate(
                                        self@,
                                        slot_id as int,
                                        exercise_id as int,
                                        k,
                                    ) && 0 <= k < i + 1 && k != i implies candidate_outranks(
                                    self@,
                                    i as int,
                                    k,
                                ) by {
                                    if k != b as int {
                                        assert(candidate_outranks(self@, b as int, k));
                                    }
                                }
                            }
                            best = Some(i);
                        } else {
                            proof {
                                assert(candidate_outranks(self@, b as int, i as int));
                            }
                        }
                    },
                }
            }
            i = i + 1;
        }
        match best {
            Option::None => {
                proof {
                    assert forall|j: int| !prev_candidate(
                        self@,
                        slot_id as int,
                        exercise_id as int,
                        j,
                    ) by {
                        if 0 <= j < self@.session_exercises.len() {
                            assert(!prev_candidate(self@, slot_id as int, exercise_id as int, j));
                        }
                    }
                }
                None
            },
            Option::Some(b) => {
                proof {
                    assert(prev_chosen(self@, slot_id as int, exercise_id as int, b as int));
                }
                let row = &self.session_exercises[b];
                let sets = self.collect_sets(row.id, false);
                Some(
                    PreviousSessionExercise {
                        sets,
                        effort_tag: clone_opt_string(&row.effort_tag),
                        next_time_note: clone_opt_string(&row.next_time_note),
                    },
                )
            },
        }
    }
}

} // verus!
