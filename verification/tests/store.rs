use koifit::Database;
use koifit::Date;
use koifit::Error;
use koifit::SaveExerciseRequest;
use koifit::SaveSetRequest;
use koifit::SetEntry;

fn date(year: i64, month: i64, day: i64) -> Date {
    Date { year, month, day }
}

fn save_one_set(db: &mut Database, se_id: i64, set_number: i64, weight_g: i64, reps: i64) {
    let req = SaveExerciseRequest {
        notes: None,
        effort_tag: None,
        dropset_done: None,
        sets: Some(vec![SaveSetRequest { set_number, weight_g, reps, is_done: true }]),
    };
    db.save_exercise(se_id, &req).unwrap();
}

#[test]
fn seed_catalog_shape() {
    let db = Database::new();
    assert_eq!(db.exercises.len(), 18);
    assert_eq!(db.days.len(), 4);
    assert_eq!(db.slots.len(), 20);
    assert!(db.sessions.is_empty());
    let days = db.list_days();
    assert_eq!(days.len(), 4);
    assert_eq!(days[0].label, "Upper 1");
    assert_eq!(days[1].label, "Lower 1");
    assert_eq!(days[2].label, "Upper 2");
    assert_eq!(days[3].label, "Lower 2");
    for (i, d) in days.iter().enumerate() {
        assert_eq!(d.ordinal, i as i64 + 1);
        assert_eq!(d.id, i as i64 + 1);
    }
    assert_eq!(db.exercises[0].name, "Flat DB Press");
    assert_eq!(db.exercises[0].min_increment_g, 2500);
    assert_eq!(db.exercises[14].name, "Leg Press");
    assert_eq!(db.exercises[14].min_increment_g, 5000);
}

#[test]
fn no_active_session_initially() {
    let db = Database::new();
    assert_eq!(db.get_active_session(), None);
}

#[test]
fn start_or_resume_is_idempotent() {
    let mut db = Database::new();
    let id1 = db.start_or_resume_session(1, date(2024, 3, 4)).unwrap();
    let before = db.sessions.len();
    let id2 = db.start_or_resume_session(1, date(2024, 3, 5)).unwrap();
    assert_eq!(id1, id2);
    assert_eq!(db.sessions.len(), before);
    assert_eq!(db.get_active_session(), Some(id1));
}

#[test]
fn start_unknown_day_is_not_found() {
    let mut db = Database::new();
    assert_eq!(db.start_or_resume_session(99, date(2024, 3, 4)), Err(Error::NotFound));
    assert!(db.sessions.is_empty());
}

#[test]
fn switching_days_leaves_other_session_unfinished() {
    let mut db = Database::new();
    let a = db.start_or_resume_session(1, date(2024, 3, 4)).unwrap();
    let b = db.start_or_resume_session(2, date(2024, 3, 4)).unwrap();
    assert_ne!(a, b);
    assert!(!db.sessions[(a - 1) as usize].is_finished);
    assert!(!db.sessions[(b - 1) as usize].is_finished);
    // The earliest unfinished session is reported as active.
    assert_eq!(db.get_active_session(), Some(a));
}

#[test]
fn finish_is_idempotent_and_tolerates_unknown_ids() {
    let mut db = Database::new();
    let id = db.start_or_resume_session(1, date(2024, 3, 4)).unwrap();
    db.finish_session(id);
    assert!(db.sessions[(id - 1) as usize].is_finished);
    db.finish_session(id);
    assert!(db.sessions[(id - 1) as usize].is_finished);
    db.finish_session(999);
    assert_eq!(db.sessions.len(), 1);
}

#[test]
fn finished_day_restarts_as_new_session() {
    let mut db = Database::new();
    let first = db.start_or_resume_session(1, date(2024, 3, 4)).unwrap();
    db.finish_session(first);
    let second = db.start_or_resume_session(1, date(2024, 3, 6)).unwrap();
    assert_ne!(first, second);
    assert!(db.sessions[(first - 1) as usize].is_finished);
    assert!(!db.sessions[(second - 1) as usize].is_finished);
}

#[test]
fn get_session_materializes_exactly_once() {
    let mut db = Database::new();
    let id = db.start_or_resume_session(1, date(2024, 3, 4)).unwrap();
    assert_eq!(db.session_exercises.len(), 0);
    let v1 = db.get_session(id).unwrap();
    assert_eq!(v1.exercises.len(), 5);
    assert_eq!(db.session_exercises.len(), 5);
    let v2 = db.get_session(id).unwrap();
    assert_eq!(v2.exercises.len(), 5);
    assert_eq!(db.session_exercises.len(), 5);
    let v3 = db.get_session(id).unwrap();
    assert_eq!(db.session_exercises.len(), 5);
    for k in 0..5 {
        assert_eq!(
            v1.exercises[k].session_exercise.id,
            v2.exercises[k].session_exercise.id
        );
        assert_eq!(
            v2.exercises[k].session_exercise.id,
            v3.exercises[k].session_exercise.id
        );
    }
}

#[test]
fn get_session_unknown_id_is_not_found() {
    let mut db = Database::new();
    assert!(matches!(db.get_session(42), Err(Error::NotFound)));
}

#[test]
fn session_view_slots_ascend_and_bind_preferred_exercises() {
    let mut db = Database::new();
    let id = db.start_or_resume_session(1, date(2024, 3, 4)).unwrap();
    let v = db.get_session(id).unwrap();
    assert_eq!(v.session.id, id);
    assert_eq!(v.day.label, "Upper 1");
    for k in 1..v.exercises.len() {
        assert!(v.exercises[k - 1].slot.ordinal < v.exercises[k].slot.ordinal);
    }
    for item in &v.exercises {
        assert_eq!(item.slot.preferred_exercise_id, item.exercise.id);
        assert_eq!(item.session_exercise.exercise_id, item.exercise.id);
        assert_eq!(item.session_exercise.session_id, id);
        assert!(item.sets.is_empty());
        assert!(item.previous_session_exercise.is_none());
        assert_eq!(item.session_exercise.effort_tag, None);
        assert_eq!(item.session_exercise.next_time_note, None);
        assert!(!item.session_exercise.dropset_done);
    }
    // Both heavy and back-off slots of this day prefer the same exercise.
    assert_eq!(v.exercises[0].exercise.name, "Flat DB Press");
    assert_eq!(v.exercises[1].exercise.name, "Flat DB Press");
}

#[test]
fn save_unknown_session_exercise_is_not_found() {
    let mut db = Database::new();
    let req = SaveExerciseRequest {
        notes: Some("x".to_string()),
        effort_tag: None,
        dropset_done: None,
        sets: None,
    };
    assert_eq!(db.save_exercise(7, &req), Err(Error::NotFound));
}

#[test]
fn save_with_only_note_preserves_other_fields() {
    let mut db = Database::new();
    let id = db.start_or_resume_session(1, date(2024, 3, 4)).unwrap();
    let v = db.get_session(id).unwrap();
    let se_id = v.exercises[0].session_exercise.id;
    // Give the record a tag, a flag and one set first.
    let req = SaveExerciseRequest {
        notes: None,
        effort_tag: Some("hard".to_string()),
        dropset_done: Some(true),
        sets: Some(vec![SaveSetRequest { set_number: 1, weight_g: 40000, reps: 5, is_done: true }]),
    };
    db.save_exercise(se_id, &req).unwrap();
    // Now save only a note.
    let note_only = SaveExerciseRequest {
        notes: Some("add weight next time".to_string()),
        effort_tag: None,
        dropset_done: None,
        sets: None,
    };
    db.save_exercise(se_id, &note_only).unwrap();
    let row = &db.session_exercises[(se_id - 1) as usize];
    assert_eq!(row.next_time_note, Some("add weight next time".to_string()));
    assert_eq!(row.effort_tag, Some("hard".to_string()));
    assert!(row.dropset_done);
    let v2 = db.get_session(id).unwrap();
    assert_eq!(v2.exercises[0].sets.len(), 1);
    assert_eq!(v2.exercises[0].sets[0].weight_g, 40000);
    assert_eq!(v2.exercises[0].sets[0].reps, 5);
}

#[test]
fn saving_same_set_number_twice_updates_in_place() {
    let mut db = Database::new();
    let id = db.start_or_resume_session(1, date(2024, 3, 4)).unwrap();
    let v = db.get_session(id).unwrap();
    let se_id = v.exercises[0].session_exercise.id;
    save_one_set(&mut db, se_id, 1, 50000, 6);
    save_one_set(&mut db, se_id, 1, 52500, 5);
    let rows: Vec<&SetEntry> = db
        .set_entries
        .iter()
        .filter(|e| e.session_exercise_id == se_id && e.set_number == 1)
        .collect();
    assert_eq!(rows.len(), 1);
    assert_eq!(rows[0].weight_g, 52500);
    assert_eq!(rows[0].reps, 5);
    assert!(!rows[0].is_drop);
}

#[test]
fn sets_come_back_ordered_by_set_number() {
    let mut db = Database::new();
    let id = db.start_or_resume_session(1, date(2024, 3, 4)).unwrap();
    let v = db.get_session(id).unwrap();
    let se_id = v.exercises[0].session_exercise.id;
    save_one_set(&mut db, se_id, 3, 30000, 8);
    save_one_set(&mut db, se_id, 1, 40000, 5);
    save_one_set(&mut db, se_id, 2, 35000, 6);
    let v2 = db.get_session(id).unwrap();
    let sets = &v2.exercises[0].sets;
    assert_eq!(sets.len(), 3);
    assert_eq!(sets[0].set_number, 1);
    assert_eq!(sets[1].set_number, 2);
    assert_eq!(sets[2].set_number, 3);
    assert_eq!(sets[0].weight_g, 40000);
}

/// Runs one full finished workout of day 1, recording `weight_g` on the
/// first slot, and returns (session id, first slot's session exercise id).
fn finished_day1_session(db: &mut Database, on: Date, weight_g: i64) -> (i64, i64) {
    let id = db.start_or_resume_session(1, on).unwrap();
    let v = db.get_session(id).unwrap();
    let se_id = v.exercises[0].session_exercise.id;
    save_one_set(db, se_id, 1, weight_g, 5);
    db.finish_session(id);
    (id, se_id)
}

#[test]
fn progression_returns_most_recent_finished_session() {
    let mut db = Database::new();
    let (_, _) = finished_day1_session(&mut db, date(2024, 1, 1), 50000);
    let (_, se_b) = finished_day1_session(&mut db, date(2024, 1, 8), 55000);
    // Slot 1 of day 1 prefers exercise 1.
    let prev = db.get_previous_session_exercise(1, 1).unwrap();
    assert_eq!(prev.sets.len(), 1);
    assert_eq!(prev.sets[0].weight_g, 55000);
    assert_eq!(prev.sets[0].session_exercise_id, se_b);
}

#[test]
fn progression_without_finished_history_is_absent() {
    let mut db = Database::new();
    let id = db.start_or_resume_session(1, date(2024, 1, 1)).unwrap();
    let _ = db.get_session(id).unwrap();
    // The session is still unfinished, so it does not count.
    assert!(db.get_previous_session_exercise(1, 1).is_none());
}

#[test]
fn progression_appears_in_the_next_session_view() {
    let mut db = Database::new();
    let (_, _) = finished_day1_session(&mut db, date(2024, 1, 1), 50000);
    let id = db.start_or_resume_session(1, date(2024, 1, 8)).unwrap();
    let v = db.get_session(id).unwrap();
    let prev = v.exercises[0].previous_session_exercise.as_ref().unwrap();
    assert_eq!(prev.sets.len(), 1);
    assert_eq!(prev.sets[0].weight_g, 50000);
}

#[test]
fn drop_sets_stay_out_of_progression_but_in_history() {
    let mut db = Database::new();
    let (_, se_id) = finished_day1_session(&mut db, date(2024, 1, 1), 50000);
    // Drop-set rows come from a path the recorder does not offer; place one
    // directly, numbered like the store numbers rows.
    let drop_row = SetEntry {
        id: db.set_entries.len() as i64 + 1,
        session_exercise_id: se_id,
        set_number: 2,
        weight_g: 35000,
        reps: 12,
        is_done: true,
        is_drop: true,
    };
    db.set_entries.push(drop_row);
    let prev = db.get_previous_session_exercise(1, 1).unwrap();
    assert_eq!(prev.sets.len(), 1);
    assert!(prev.sets.iter().all(|e| !e.is_drop));
    // Slots 1 and 2 of day 1 both prefer exercise 1, so one finished
    // session yields two history entries for it.
    let history = db.get_exercise_history(1);
    assert_eq!(history.len(), 2);
    let entry = history.iter().find(|e| e.session_exercise.id == se_id).unwrap();
    assert_eq!(entry.sets.len(), 2);
    assert!(entry.sets.iter().any(|e| e.is_drop));
    assert_eq!(entry.sets[0].set_number, 1);
    assert_eq!(entry.sets[1].set_number, 2);
}

#[test]
fn history_is_most_recent_first_and_capped_at_fifty() {
    let mut db = Database::new();
    // 28 finished day-1 sessions; each materializes two performance records
    // of exercise 1 (slots 1 and 2), so 56 candidates in all.
    for k in 0..28 {
        let on = date(2024, 1 + k / 27, 1 + (k % 27));
        let _ = finished_day1_session(&mut db, on, 40000 + 500 * k);
    }
    let history = db.get_exercise_history(1);
    assert_eq!(history.len(), 50);
    for w in history.windows(2) {
        let (a, b) = (&w[0], &w[1]);
        let da = (a.session.date.year, a.session.date.month, a.session.date.day);
        let dbt = (b.session.date.year, b.session.date.month, b.session.date.day);
        assert!(da > dbt || (da == dbt && a.session_exercise.id > b.session_exercise.id));
    }
    // The most recent session appears first.
    assert_eq!(history[0].session.date.month, 2);
    assert_eq!(history[0].day.label, "Upper 1");
}

#[test]
fn history_of_unused_exercise_is_empty() {
    let mut db = Database::new();
    let (_, _) = finished_day1_session(&mut db, date(2024, 1, 1), 50000);
    assert!(db.get_exercise_history(18).is_empty());
}

#[test]
fn todays_session_carries_a_calendar_date() {
    let mut db = Database::new();
    let id = db.start_or_resume_session_today(3).unwrap();
    let v = db.get_session(id).unwrap();
    assert_eq!(v.day.label, "Upper 2");
    let d = v.session.date;
    assert!((1..=12).contains(&d.month));
    assert!((1..=31).contains(&d.day));
    assert!(d.year >= 2000);
    // Starting the same day again resumes the same session.
    assert_eq!(db.start_or_resume_session_today(3).unwrap(), id);
}
