//! Record types of the store: the immutable catalog (exercises, days, slots)
//! and the mutable workout state (sessions, session exercises, set entries).
//!
//! Weights are held in grams and rest durations in seconds, so that every
//! quantity is an exact integer.

use vstd::prelude::*;

verus! {

/// A calendar date, held as plain year / month / day numbers.
#[derive(Clone, Copy, PartialEq, Eq, Structural, Debug)]
pub struct Date {
    pub year: i64,
    pub month: i64,
    pub day: i64,
}

impl Date {
    /// Month and day lie in calendar range.
    pub open spec fn wf(self) -> bool {
        &&& 1 <= self.month <= 12
        &&& 1 <= self.day <= 31
    }
}

/// `a` lies strictly before `b` in time (year, then month, then day).
pub open spec fn date_lt_spec(a: Date, b: Date) -> bool {
    ||| a.year < b.year
    ||| (a.year == b.year && a.month < b.month)
    ||| (a.year == b.year && a.month == b.month && a.day < b.day)
}

/// Compares two dates chronologically.
pub fn date_lt(a: &Date, b: &Date) -> (r: bool)
    ensures
        r == date_lt_spec(*a, *b),
{
    if a.year != b.year {
        a.year < b.year
    } else if a.month != b.month {
        a.month < b.month
    } else {
        a.day < b.day
    }
}

/// An exercise of the catalog. `min_increment_g` is the smallest weight step
/// of the equipment, in grams.
#[derive(Debug, PartialEq)]
pub struct Exercise {
    pub id: i64,
    pub name: String,
    pub min_increment_g: i64,
    pub active: bool,
    pub notes: Option<String>,
}

impl Clone for Exercise {
    fn clone(&self) -> (r: Self)
        ensures
            r == *self,
    {
        Exercise {
            id: self.id,
            name: self.name.clone(),
            min_increment_g: self.min_increment_g,
            active: self.active,
            notes: clone_opt_string(&self.notes),
        }
    }
}

/// A training day of the weekly rotation; `ordinal` fixes the rotation order.
#[derive(Debug, PartialEq)]
pub struct Day {
    pub id: i64,
    pub label: String,
    pub ordinal: i64,
}

impl Clone for Day {
    fn clone(&self) -> (r: Self)
        ensures
            r == *self,
    {
        Day { id: self.id, label: self.label.clone(), ordinal: self.ordinal }
    }
}

/// One exercise position within a day's template, with its prescribed
/// warm-up/working sets, rep target, optional RPE range, rest in seconds,
/// and whether a trailing drop set is prescribed.
#[derive(Debug, PartialEq)]
pub struct Slot {
    pub id: i64,
    pub day_id: i64,
    pub ordinal: i64,
    pub title: String,
    pub preferred_exercise_id: i64,
    pub warmup_sets: String,
    pub working_sets_count: i64,
    pub rep_target: String,
    pub rpe_range: Option<String>,
    pub rest_seconds: i64,
    pub has_dropset: bool,
}

impl Clone for Slot {
    fn clone(&self) -> (r: Self)
        ensures
            r == *self,
    {
        Slot {
            id: self.id,
            day_id: self.day_id,
            ordinal: self.ordinal,
            title: self.title.clone(),
            preferred_exercise_id: self.preferred_exercise_id,
            warmup_sets: self.warmup_sets.clone(),
            working_sets_count: self.working_sets_count,
            rep_target: self.rep_target.clone(),
            rpe_range: clone_opt_string(&self.rpe_range),
            rest_seconds: self.rest_seconds,
            has_dropset: self.has_dropset,
        }
    }
}

/// One dated attempt at a day's workout.
#[derive(Debug, PartialEq)]
pub struct Session {
    pub id: i64,
    pub day_id: i64,
    pub date: Date,
    pub is_finished: bool,
}

impl Clone for Session {
    fn clone(&self) -> (r: Self)
        ensures
            r == *self,
    {
        Session {
            id: self.id,
            day_id: self.day_id,
            date: self.date,
            is_finished: self.is_finished,
        }
    }
}

/// The realized performance record binding one session to one slot and to the
/// exercise actually performed there.
#[derive(Debug, PartialEq)]
pub struct SessionExercise {
    pub id: i64,
    pub session_id: i64,
    pub slot_id: i64,
    pub exercise_id: i64,
    pub effort_tag: Option<String>,
    pub next_time_note: Option<String>,
    pub dropset_done: bool,
}

impl Clone for SessionExercise {
    fn clone(&self) -> (r: Self)
        ensures
            r == *self,
    {
        SessionExercise {
            id: self.id,
            session_id: self.session_id,
            slot_id: self.slot_id,
            exercise_id: self.exercise_id,
            effort_tag: clone_opt_string(&self.effort_tag),
            next_time_note: clone_opt_string(&self.next_time_note),
            dropset_done: self.dropset_done,
        }
    }
}

/// One recorded set within a session exercise; the weight is in grams.
#[derive(Clone, Copy, PartialEq, Eq, Structural, Debug)]
pub struct SetEntry {
    pub id: i64,
    pub session_exercise_id: i64,
    pub set_number: i64,
    pub weight_g: i64,
    pub reps: i64,
    pub is_done: bool,
    pub is_drop: bool,
}

/// A partial update for a session exercise: absent fields are left unchanged.
#[derive(Debug)]
pub struct SaveExerciseRequest {
    pub notes: Option<String>,
    pub effort_tag: Option<String>,
    pub dropset_done: Option<bool>,
    pub sets: Option<Vec<SaveSetRequest>>,
}

/// One set to upsert, keyed by its set number; the weight is in grams.
#[derive(Clone, Copy, PartialEq, Eq, Structural, Debug)]
pub struct SaveSetRequest {
    pub set_number: i64,
    pub weight_g: i64,
    pub reps: i64,
    pub is_done: bool,
}

/// The assembled view of one session: the session, its day, and one entry
/// per slot of that day in workout order.
#[derive(Debug)]
pub struct SessionWithExercises {
    pub session: Session,
    pub day: Day,
    pub exercises: Vec<SessionExerciseWithSlot>,
}

/// One slot of a session view: the performance record, the slot it fills,
/// the exercise performed, the prior finished performance of the same
/// (slot, exercise) pair, and the sets recorded so far.
#[derive(Debug)]
pub struct SessionExerciseWithSlot {
    pub session_exercise: SessionExercise,
    pub slot: Slot,
    pub exercise: Exercise,
    pub previous_session_exercise: Option<PreviousSessionExercise>,
    pub sets: Vec<SetEntry>,
}

/// The prior finished performance of a (slot, exercise) pair: its non-drop
/// sets and carried-over notes.
#[derive(Debug)]
pub struct PreviousSessionExercise {
    pub sets: Vec<SetEntry>,
    pub effort_tag: Option<String>,
    pub next_time_note: Option<String>,
}

/// One finished performance of an exercise, with every set recorded for it.
#[derive(Debug)]
pub struct ExerciseHistoryEntry {
    pub session: Session,
    pub day: Day,
    pub session_exercise: SessionExercise,
    pub sets: Vec<SetEntry>,
}

/// Clones an optional string, keeping its value.
pub fn clone_opt_string(s: &Option<String>) -> (r: Option<String>)
    ensures
        r == *s,
{
    match s {
        Some(v) => Some(v.clone()),
        None => None,
    }
}

} // verus!
