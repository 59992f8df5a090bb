//! The one-time catalog seed: the fixed exercises, the four training days,
//! and their slots. `Database::new` starts from an empty store, so the seed
//! runs exactly once per store.

use vstd::prelude::*;

use crate::db::Database;
use crate::db::ID_LIMIT;
use crate::models::Day;
use crate::models::Exercise;
use crate::models::Slot;

verus! {

/// The seeded exercise rows: numbered in push order, each with a positive
/// weight increment.
pub open spec fn exercises_numbered(s: Seq<Exercise>) -> bool {
    forall|i: int| 0 <= i < s.len() ==> {
        &&& (#[trigger] s[i]).id == i + 1
        &&& s[i].min_increment_g > 0
    }
}

/// The seeded day rows: numbered in push order, with ordinals equal to
/// their identifiers.
pub open spec fn days_numbered(s: Seq<Day>) -> bool {
    forall|i: int| 0 <= i < s.len() ==> {
        &&& (#[trigger] s[i]).id == i + 1
        &&& s[i].ordinal == i + 1
    }
}

/// The seeded slot rows: numbered in push order, referencing the four days
/// and eighteen exercises of the seed, five slots per day with ordinals one
/// to five.
pub open spec fn slots_seed_ok(s: Seq<Slot>) -> bool {
    forall|i: int| 0 <= i < s.len() ==> {
        &&& (#[trigger] s[i]).id == i + 1
        &&& 1 <= s[i].day_id <= 4
        &&& s[i].day_id == i / 5 + 1
        &&& s[i].ordinal == i % 5 + 1
        &&& 1 <= s[i].preferred_exercise_id <= 18
    }
}

/// Appends one exercise row, numbering it after the existing rows.
fn push_exercise(v: &mut Vec<Exercise>, name: &str, min_increment_g: i64, notes: &str)
    requires
        old(v)@.len() < ID_LIMIT,
        exercises_numbered(old(v)@),
        min_increment_g > 0,
    ensures
        final(v)@.len() == old(v)@.len() + 1,
        final(v)@ == old(v)@.push(final(v)@.last()),
        exercises_numbered(final(v)@),
        final(v)@.last().name@ == name@,
        final(v)@.last().min_increment_g == min_increment_g,
        final(v)@.last().active,
{
    let id: i64 = (v.len() as i64) + 1;
    let row = Exercise {
        id,
        name: name.to_owned(),
        min_increment_g,
        active: true,
        notes: Some(notes.to_owned()),
    };
    v.push(row);
    proof {
        assert(v@ =~= old(v)@.push(v@.last()));
    }
}

/// Appends one day row, numbering it after the existing rows; the new
/// ordinal must come after every seeded ordinal.
fn push_day(v: &mut Vec<Day>, label: &str, ordinal: i64)
    requires
        old(v)@.len() < ID_LIMIT,
        days_numbered(old(v)@),
        ordinal == old(v)@.len() + 1,
    ensures
        final(v)@.len() == old(v)@.len() + 1,
        final(v)@ == old(v)@.push(final(v)@.last()),
        days_numbered(final(v)@),
        final(v)@.last().label@ == label@,
        final(v)@.last().ordinal == ordinal,
{
    let id: i64 = (v.len() as i64) + 1;
    v.push(Day { id, label: label.to_owned(), ordinal });
    proof {
        assert(v@ =~= old(v)@.push(v@.last()));
    }
}

/// Appends one slot row, numbering it after the existing rows; the new slot
/// must come after every seeded slot in catalog order.
fn push_slot(
    v: &mut Vec<Slot>,
    day_id: i64,
    ordinal: i64,
    title: &str,
    preferred_exercise_id: i64,
    warmup_sets: &str,
    working_sets_count: i64,
    rep_target: &str,
    rpe_range: &str,
    rest_seconds: i64,
    has_dropset: bool,
)
    requires
        old(v)@.len() < ID_LIMIT,
        slots_seed_ok(old(v)@),
        1 <= day_id <= 4,
        day_id == old(v)@.len() / 5 + 1,
        ordinal == old(v)@.len() % 5 + 1,
        1 <= preferred_exercise_id <= 18,
    ensures
        final(v)@.len() == old(v)@.len() + 1,
        final(v)@ == old(v)@.push(final(v)@.last()),
        slots_seed_ok(final(v)@),
        final(v)@.last().day_id == day_id,
        final(v)@.last().ordinal == ordinal,
        final(v)@.last().preferred_exercise_id == preferred_exercise_id,
{
    let id: i64 = (v.len() as i64) + 1;
    let row = Slot {
        id,
        day_id,
        ordinal,
        title: title.to_owned(),
        preferred_exercise_id,
        warmup_sets: warmup_sets.to_owned(),
        working_sets_count,
        rep_target: rep_target.to_owned(),
        rpe_range: Some(rpe_range.to_owned()),
        rest_seconds,
        has_dropset,
    };
    v.push(row);
    proof {
        assert(v@ =~= old(v)@.push(v@.last()));
    }
}

impl Database {
    /// Builds a fresh store holding the seeded catalog and no workout state.
    pub fn new() -> (r: Database)
        ensures
            r.wf(),
            r@.exercises.len() == 18,
            r@.days.len() == 4,
            forall|i: int| 0 <= i < r@.days.len() ==> (#[trigger] r@.days[i]).ordinal == i + 1,
            r@.slots.len() == 20,
            forall|i: int|
                0 <= i < r@.slots.len() ==> {
                    &&& (#[trigger] r@.slots[i]).day_id == i / 5 + 1
                    &&& r@.slots[i].ordinal == i % 5 + 1
                },
            r@.sessions.len() == 0,
            r@.session_exercises.len() == 0,
            r@.set_entries.len() == 0,
    {
        let mut exercises: Vec<Exercise> = Vec::new();
        push_exercise(&mut exercises, "Flat DB Press", 2500, "Tuck chin a little");
        push_exercise(
            &mut exercises,
            "Seated DB Shoulder Press",
            2500,
            "75-85° bench angle. Bring dumbbells all the way down",
        );
        push_exercise(
            &mut exercises,
            "2-Grip Lat Pulldown",
            2500,
            "Use lat bar then easy grip bar. Pull to chest",
        );
        push_exercise(&mut exercises, "Seated Cable Row", 2500, "Squeeze shoulder blades");
        push_exercise(
            &mut exercises,
            "Hack Squat",
            2500,
            "Foot rest mid position, top all way flat, safety 6. Control weight on way down",
        );
        push_exercise(
            &mut exercises,
            "Overhead Cable Triceps Extension",
            2500,
            "Both arms at once, resist the negative",
        );
        push_exercise(&mut exercises, "EZ Bar Curl", 1250, "Arc bar 'out' not 'up', squeeze biceps");
        push_exercise(&mut exercises, "Lying Hamstring Curl", 2500, "Legs at 3, circle at 2");
        push_exercise(
            &mut exercises,
            "Pendlay Row",
            2500,
            "Squeeze shoulder blades, pull to lower chest",
        );
        push_exercise(
            &mut exercises,
            "Machine Shoulder Press",
            2500,
            "Smooth controlled tension, no stopping",
        );
        push_exercise(
            &mut exercises,
            "Weighted Pullup",
            1250,
            "Pull elbows down and in, minimize swinging",
        );
        push_exercise(&mut exercises, "Cable Chest Press", 2500, "Squeeze chest");
        push_exercise(&mut exercises, "DB Lateral Raise", 1250, "Raise 'out' not 'up'");
        push_exercise(
            &mut exercises,
            "Romanian Deadlift",
            2500,
            "Neutral lower back, hips back, no rounding",
        );
        push_exercise(
            &mut exercises,
            "Leg Press",
            5000,
            "Foot above middle so heel doesn't raise in bottom. Safety 3, back mid hole",
        );
        push_exercise(
            &mut exercises,
            "DB Incline Curl",
            1250,
            "38° bench angle. Keep shoulders back as you curl",
        );
        push_exercise(&mut exercises, "Triceps Pressdown", 2500, "Squeeze triceps to move weight");
        push_exercise(&mut exercises, "Leg Extension", 2500, "Squeeze quads");

        let mut days: Vec<Day> = Vec::new();
        push_day(&mut days, "Upper 1", 1);
        push_day(&mut days, "Lower 1", 2);
        push_day(&mut days, "Upper 2", 3);
        push_day(&mut days, "Lower 2", 4);

        let mut slots: Vec<Slot> = Vec::new();
        push_slot(&mut slots, 1, 1, "Flat DB Press (Heavy)", 1, "2-3", 1, "4-6", "8-9", 180, false);
        push_slot(&mut slots, 1, 2, "Flat DB Press (Back off)", 1, "0", 1, "8-10", "9-10", 180, false);
        push_slot(&mut slots, 1, 3, "Seated DB Shoulder Press", 2, "1", 2, "10-12", "9-10", 120, false);
        push_slot(&mut slots, 1, 4, "2-Grip Lat Pulldown", 3, "2", 2, "10-12", "9-10", 120, false);
        push_slot(&mut slots, 1, 5, "Seated Cable Row", 4, "1", 2, "10-12", "9-10", 120, true);
        push_slot(&mut slots, 2, 1, "Hack Squat (Heavy)", 5, "2-3", 1, "4-6", "8-9", 180, false);
        push_slot(&mut slots, 2, 2, "Hack Squat (Back off)", 5, "0", 1, "8-10", "8-9", 180, false);
        push_slot(
            &mut slots,
            2,
            3,
            "Overhead Cable Triceps Extension",
            6,
            "1",
            2,
            "12-15",
            "10",
            90,
            false,
        );
        push_slot(&mut slots, 2, 4, "EZ Bar Curl", 7, "1", 2, "12-15", "10", 90, false);
        push_slot(&mut slots, 2, 5, "Lying Hamstring Curl", 8, "1", 1, "10-12", "10", 90, true);
        push_slot(&mut slots, 3, 1, "Pendlay Row", 9, "2", 2, "8-10", "9-10", 120, false);
        push_slot(&mut slots, 3, 2, "Machine Shoulder Press", 10, "2", 2, "10-12", "9-10", 120, false);
        push_slot(&mut slots, 3, 3, "Weighted Pullup", 11, "1", 2, "8-10", "9-10", 120, false);
        push_slot(&mut slots, 3, 4, "Cable Chest Press", 12, "2", 2, "10-12", "9-10", 120, true);
        push_slot(&mut slots, 3, 5, "DB Lateral Raise", 13, "1", 1, "12-15", "10", 90, true);
        push_slot(&mut slots, 4, 1, "Romanian Deadlift", 14, "2", 2, "10-12", "8-9", 120, false);
        push_slot(&mut slots, 4, 2, "Leg Press", 15, "2", 3, "10-12", "8-9", 120, false);
        push_slot(&mut slots, 4, 3, "DB Incline Curl", 16, "1", 2, "12-15", "10", 90, false);
        push_slot(&mut slots, 4, 4, "Triceps Pressdown", 17, "1", 2, "12-15", "10", 90, false);
        push_slot(&mut slots, 4, 5, "Leg Extension", 18, "1", 1, "10-12", "9-10", 90, true);

        let db = Database {
            exercises,
            days,
            slots,
            sessions: Vec::new(),
            session_exercises: Vec::new(),
            set_entries: Vec::new(),
        };
        proof {
            assert forall|i: int, j: int|
                0 <= i < j < db@.slots.len() && (#[trigger] db@.slots[i]).day_id
                    == (#[trigger] db@.slots[j]).day_id implies db@.slots[i].ordinal
                < db@.slots[j].ordinal by {
                assert(i / 5 == j / 5);
                assert(i % 5 < j % 5);
            }
        }
        db
    }
}

} // verus!
