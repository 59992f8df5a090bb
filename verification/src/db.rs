//! The store itself: six relations held in vectors, their well-formedness
//! invariant, and the session lifecycle operations.
//!
//! Rows are never deleted, and every row's identifier is its index plus one,
//! which is how an auto-assigning relational store numbers them.

use vstd::prelude::*;

use crate::error::Error;
use crate::models::Date;
use crate::models::Day;
use crate::models::Exercise;
use crate::models::Session;
use crate::models::SessionExercise;
use crate::models::SetEntry;
use crate::models::Slot;

verus! {

/// The largest identifier a row may carry (the signed 64-bit maximum).
pub const ID_LIMIT: u64 = 0x7fff_ffff_ffff_ffff;

/// The whole store.
pub struct Database {
    pub exercises: Vec<Exercise>,
    pub days: Vec<Day>,
    pub slots: Vec<Slot>,
    pub sessions: Vec<Session>,
    pub session_exercises: Vec<SessionExercise>,
    pub set_entries: Vec<SetEntry>,
}

/// The mathematical model of the store: one sequence per relation.
pub ghost struct StoreView {
    pub exercises: Seq<Exercise>,
    pub days: Seq<Day>,
    pub slots: Seq<Slot>,
    pub sessions: Seq<Session>,
    pub session_exercises: Seq<SessionExercise>,
    pub set_entries: Seq<SetEntry>,
}

impl View for Database {
    type V = StoreView;

    open spec fn view(&self) -> StoreView {
        StoreView {
            exercises: self.exercises@,
            days: self.days@,
            slots: self.slots@,
            sessions: self.sessions@,
            session_exercises: self.session_exercises@,
            set_entries: self.set_entries@,
        }
    }
}

pub open spec fn valid_exercise_id(s: StoreView, id: int) -> bool {
    1 <= id <= s.exercises.len()
}

pub open spec fn valid_day_id(s: StoreView, id: int) -> bool {
    1 <= id <= s.days.len()
}

pub open spec fn valid_slot_id(s: StoreView, id: int) -> bool {
    1 <= id <= s.slots.len()
}

pub open spec fn valid_session_id(s: StoreView, id: int) -> bool {
    1 <= id <= s.sessions.len()
}

pub open spec fn valid_session_exercise_id(s: StoreView, id: int) -> bool {
    1 <= id <= s.session_exercises.len()
}

/// The catalog half of the invariant: identifiers are indices plus one,
/// weight increments are positive, each slot references a real day and
/// exercise, days are held in ascending ordinal order, and within one day
/// the slots are held in ascending ordinal order (the authoritative workout
/// sequence).
pub open spec fn wf_catalog(s: StoreView) -> bool {
    &&& s.exercises.len() <= ID_LIMIT
    &&& forall|i: int| 0 <= i < s.exercises.len() ==> {
        &&& (#[trigger] s.exercises[i]).id == i + 1
        &&& s.exercises[i].min_increment_g > 0
    }
    &&& s.days.len() <= ID_LIMIT
    &&& forall|i: int| 0 <= i < s.days.len() ==> (#[trigger] s.days[i]).id == i + 1
    &&& forall|i: int, j: int|
        0 <= i < j < s.days.len() ==> (#[trigger] s.days[i]).ordinal < (#[trigger] s.days[j]).ordinal
    &&& s.slots.len() <= ID_LIMIT
    &&& forall|i: int| 0 <= i < s.slots.len() ==> {
        &&& (#[trigger] s.slots[i]).id == i + 1
        &&& valid_day_id(s, s.slots[i].day_id as int)
        &&& valid_exercise_id(s, s.slots[i].preferred_exercise_id as int)
    }
    &&& forall|i: int, j: int|
        0 <= i < j < s.slots.len() && (#[trigger] s.slots[i]).day_id == (#[trigger] s.slots[j]).day_id
            ==> s.slots[i].ordinal < s.slots[j].ordinal
}

/// The mutable half of the invariant: identifiers are indices plus one, all
/// references resolve, dates are calendar dates, each day has at most one
/// unfinished session, a session exercise is unique per (session, slot), and
/// a set entry is unique per (session exercise, set number).
pub open spec fn wf_state(s: StoreView) -> bool {
    &&& s.sessions.len() <= ID_LIMIT
    &&& forall|i: int| 0 <= i < s.sessions.len() ==> {
        &&& (#[trigger] s.sessions[i]).id == i + 1
        &&& valid_day_id(s, s.sessions[i].day_id as int)
        &&& s.sessions[i].date.wf()
    }
    &&& forall|i: int, j: int|
        0 <= i < s.sessions.len() && 0 <= j < s.sessions.len() && i != j
            && !(#[trigger] s.sessions[i]).is_finished && !(#[trigger] s.sessions[j]).is_finished
            ==> s.sessions[i].day_id != s.sessions[j].day_id
    &&& s.session_exercises.len() <= ID_LIMIT
    &&& forall|i: int| 0 <= i < s.session_exercises.len() ==> {
        &&& (#[trigger] s.session_exercises[i]).id == i + 1
        &&& valid_session_id(s, s.session_exercises[i].session_id as int)
        &&& valid_slot_id(s, s.session_exercises[i].slot_id as int)
        &&& valid_exercise_id(s, s.session_exercises[i].exercise_id as int)
    }
    &&& forall|i: int, j: int|
        0 <= i < j < s.session_exercises.len()
            ==> !((#[trigger] s.session_exercises[i]).session_id == (#[trigger] s.session_exercises[j]).session_id
                && s.session_exercises[i].slot_id == s.session_exercises[j].slot_id)
    &&& s.set_entries.len() <= ID_LIMIT
    &&& forall|i: int| 0 <= i < s.set_entries.len() ==> {
        &&& (#[trigger] s.set_entries[i]).id == i + 1
        &&& valid_session_exercise_id(s, s.set_entries[i].session_exercise_id as int)
    }
    &&& forall|i: int, j: int|
        0 <= i < j < s.set_entries.len()
            ==> !((#[trigger] s.set_entries[i]).session_exercise_id == (#[trigger] s.set_entries[j]).session_exercise_id
                && s.set_entries[i].set_number == s.set_entries[j].set_number)
}

pub open spec fn store_wf(s: StoreView) -> bool {
    wf_catalog(s) && wf_state(s)
}

/// Session `j` is unfinished and every earlier session is finished: the one
/// the store reports as active.
pub open spec fn session_is_first_unfinished(s: StoreView, j: int) -> bool {
    &&& 0 <= j < s.sessions.len()
    &&& !s.sessions[j].is_finished
    &&& forall|k: int| 0 <= k < j ==> (#[trigger] s.sessions[k]).is_finished
}

/// Session `j` is the unfinished session of day `day_id`, the one that
/// starting that day resumes.
pub open spec fn open_for_day(s: StoreView, day_id: int, j: int) -> bool {
    &&& 0 <= j < s.sessions.len()
    &&& s.sessions[j].day_id == day_id
    &&& !s.sessions[j].is_finished
}

/// The start-or-resume transition: from store `pre`, asking for `day_id` on
/// date `today`, the store becomes `post` and the call returns `r`. The
/// unfinished session of that day is resumed unchanged; otherwise a new
/// unfinished session dated `today` is appended, unless the day does not
/// exist (`NotFound`) or the session table is full (`StorageFailure`).
pub open spec fn start_outcome(
    pre: StoreView,
    post: StoreView,
    day_id: int,
    today: Date,
    r: Result<i64, Error>,
) -> bool {
    &&& ((exists|j: int| open_for_day(pre, day_id, j)) ==> {
        &&& post == pre
        &&& exists|j: int|
            #[trigger] open_for_day(pre, day_id, j) && r == Result::<i64, Error>::Ok(
                pre.sessions[j].id,
            )
    })
    &&& (!(exists|j: int| open_for_day(pre, day_id, j)) && !valid_day_id(pre, day_id) ==> {
        &&& post == pre
        &&& r == Result::<i64, Error>::Err(Error::NotFound)
    })
    &&& (!(exists|j: int| open_for_day(pre, day_id, j)) && valid_day_id(pre, day_id)
        && pre.sessions.len() == ID_LIMIT ==> {
        &&& post == pre
        &&& r == Result::<i64, Error>::Err(Error::StorageFailure)
    })
    &&& (!(exists|j: int| open_for_day(pre, day_id, j)) && valid_day_id(pre, day_id)
        && pre.sessions.len() < ID_LIMIT ==> {
        &&& r == Result::<i64, Error>::Ok((pre.sessions.len() + 1) as i64)
        &&& post == (StoreView {
            sessions: pre.sessions.push(
                Session {
                    id: (pre.sessions.len() + 1) as i64,
                    day_id: day_id as i64,
                    date: today,
                    is_finished: false,
                },
            ),
            ..pre
        })
    })
}

impl Database {
    /// The store's invariant.
    pub open spec fn wf(&self) -> bool {
        store_wf(self@)
    }

    /// Row of the session carrying `session_id`.
    pub fn session_at(&self, session_id: i64) -> (r: &Session)
        requires
            self.wf(),
            valid_session_id(self@, session_id as int),
        ensures
            *r == self@.sessions[session_id - 1],
    {
        let _len = self.sessions.len();
        let idx: usize = (session_id - 1) as usize;
        &self.sessions[idx]
    }

    /// Row of the day carrying `day_id`.
    pub fn day_at(&self, day_id: i64) -> (r: &Day)
        requires
            self.wf(),
            valid_day_id(self@, day_id as int),
        ensures
            *r == self@.days[day_id - 1],
    {
        let _len = self.days.len();
        let idx: usize = (day_id - 1) as usize;
        &self.days[idx]
    }

    /// Row of the exercise carrying `exercise_id`.
    pub fn exercise_at(&self, exercise_id: i64) -> (r: &Exercise)
        requires
            self.wf(),
            valid_exercise_id(self@, exercise_id as int),
        ensures
            *r == self@.exercises[exercise_id - 1],
    {
        let _len = self.exercises.len();
        let idx: usize = (exercise_id - 1) as usize;
        &self.exercises[idx]
    }

    /// Returns the identifier of the unfinished session with the smallest
    /// identifier, if any session is unfinished.
    pub fn get_active_session(&self) -> (r: Option<i64>)
        requires
            self.wf(),
        ensures
            match r {
                Option::None => forall|j: int|
                    0 <= j < self@.sessions.len() ==> (#[trigger] self@.sessions[j]).is_finished,
                Option::Some(id) => exists|j: int|
                    #[trigger] session_is_first_unfinished(self@, j) && self@.sessions[j].id == id,
            },
    {
        let n = self.sessions.len();
        let mut i: usize = 0;
        while i < n
            invariant
                n == self@.sessions.len(),
                0 <= i <= n,
                self.wf(),
                forall|k: int| 0 <= k < i ==> (#[trigger] self@.sessions[k]).is_finished,
            decreases n - i,
        {
            if !self.sessions[i].is_finished {
                proof {
                    assert(session_is_first_unfinished(self@, i as int));
                }
                return Some(self.sessions[i].id);
            }
            i = i + 1;
        }
        None
    }

    /// Marks the session finished. Finishing an already finished session, or
    /// an identifier that no session carries, changes nothing; the operation
    /// is idempotent.
    pub fn finish_session(&mut self, session_id: i64)
        requires
            old(self).wf(),
        ensures
            final(self).wf(),
            valid_session_id(old(self)@, session_id as int) ==> final(self)@ == (StoreView {
                sessions: old(self)@.sessions.update(
                    session_id - 1,
                    Session { is_finished: true, ..old(self)@.sessions[session_id - 1] },
                ),
                ..old(self)@
            }),
            !valid_session_id(old(self)@, session_id as int) ==> final(self)@ == old(self)@,
    {
        if 1 <= session_id && session_id as u64 <= self.sessions.len() as u64 {
            let idx: usize = (session_id - 1) as usize;
            let mut row = self.sessions[idx].clone();
            row.is_finished = true;
            self.sessions.set(idx, row);
            proof {
                let s0 = old(self)@;
                let s1 = self@;
                assert forall|i: int, j: int|
                    0 <= i < s1.sessions.len() && 0 <= j < s1.sessions.len() && i != j
                        && !(#[trigger] s1.sessions[i]).is_finished
                        && !(#[trigger] s1.sessions[j]).is_finished implies s1.sessions[i].day_id
                    != s1.sessions[j].day_id by {
                    assert(!s0.sessions[i].is_finished);
                    assert(!s0.sessions[j].is_finished);
                }
                assert(final(self).wf());
            }
        }
    }

    /// Resumes the unfinished session of `day_id` if one exists; otherwise
    /// creates a new unfinished session for that day, dated `today`. An
    /// unfinished session of another day is left untouched. Fails with
    /// `NotFound` when no day carries `day_id`.
    pub fn start_or_resume_session(&mut self, day_id: i64, today: Date) -> (r: Result<i64, Error>)
        requires
            old(self).wf(),
            today.wf(),
        ensures
            final(self).wf(),
            start_outcome(old(self)@, final(self)@, day_id as int, today, r),
    {
        let n = self.sessions.len();
        let mut i: usize = 0;
        while i < n
            invariant
                n == self@.sessions.len(),
                0 <= i <= n,
                self.wf(),
                self@ == old(self)@,
                forall|k: int| 0 <= k < i ==> !open_for_day(self@, day_id as int, k),
            decreases n - i,
        {
            let row = &self.sessions[i];
            if row.day_id == day_id && !row.is_finished {
                proof {
                    assert(open_for_day(self@, day_id as int, i as int));
                }
                return Ok(self.sessions[i].id);
            }
            proof {
                assert(!open_for_day(self@, day_id as int, i as int));
            }
            i = i + 1;
        }
        proof {
            assert forall|j: int| !open_for_day(self@, day_id as int, j) by {
                if 0 <= j < self@.sessions.len() {
                    assert(!open_for_day(self@, day_id as int, j));
                }
            }
        }
        if !(1 <= day_id && day_id as u64 <= self.days.len() as u64) {
            return Err(Error::NotFound);
        }
        if self.sessions.len() as u64 >= ID_LIMIT {
            return Err(Error::StorageFailure);
        }
        let id: i64 = (self.sessions.len() as i64) + 1;
        self.sessions.push(Session { id, day_id, date: today, is_finished: false });
        proof {
            let s0 = old(self)@;
            let s1 = self@;
            assert forall|a: int, b: int|
                0 <= a < s1.sessions.len() && 0 <= b < s1.sessions.len() && a != b
                    && !(#[trigger] s1.sessions[a]).is_finished
                    && !(#[trigger] s1.sessions[b]).is_finished implies s1.sessions[a].day_id
                != s1.sessions[b].day_id by {
                if a < s0.sessions.len() && b < s0.sessions.len() {
                    assert(!s0.sessions[a].is_finished);
                    assert(!s0.sessions[b].is_finished);
                } else if a == s0.sessions.len() {
                    assert(!open_for_day(s0, day_id as int, b));
                } else {
                    assert(!open_for_day(s0, day_id as int, a));
                }
            }
            assert(final(self).wf());
        }
        Ok(id)
    }

    /// Returns the training days in rotation order (ascending ordinal).
    pub fn list_days(&self) -> (r: Vec<Day>)
        requires
            self.wf(),
        ensures
            r@ == self@.days,
    {
        let n = self.days.len();
        let mut r: Vec<Day> = Vec::new();
        let mut i: usize = 0;
        while i < n
            invariant
                n == self@.days.len(),
                0 <= i <= n,
                r@ == self@.days.take(i as int),
            decreases n - i,
        {
            r.push(self.days[i].clone());
            proof {
                assert(r@ =~= self@.days.take(i + 1));
            }
            i = i + 1;
        }
        proof {
            assert(r@ =~= self@.days);
        }
        r
    }
}

} // verus!
