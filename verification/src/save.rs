//! The set recorder: partial updates of a session exercise and upserts of
//! its set entries.

use vstd::prelude::*;

use crate::db::Database;
use crate::db::StoreView;
use crate::db::ID_LIMIT;
use crate::error::Error;
use crate::models::SaveExerciseRequest;
use crate::models::SaveSetRequest;
use crate::models::SessionExercise;
use crate::models::SetEntry;

verus! {

/// Row `j` of `entries` is the set entry of `se_id` with number
/// `set_number`.
pub open spec fn set_slot_at(entries: Seq<SetEntry>, se_id: int, set_number: int, j: int) -> bool {
    &&& 0 <= j < entries.len()
    &&& entries[j].session_exercise_id == se_id
    &&& entries[j].set_number == set_number
}

/// The session exercise after one partial update: present fields overwrite,
/// absent fields are left unchanged.
pub open spec fn patched_se(se: SessionExercise, req: SaveExerciseRequest) -> SessionExercise {
    SessionExercise {
        next_time_note: if req.notes is Some {
            req.notes
        } else {
            se.next_time_note
        },
        effort_tag: if req.effort_tag is Some {
            req.effort_tag
        } else {
            se.effort_tag
        },
        dropset_done: match req.dropset_done {
            Some(b) => b,
            None => se.dropset_done,
        },
        ..se
    }
}

/// One set upsert: if `se_id` already has a row with that set number, its
/// weight, reps and done flag are overwritten; otherwise a fresh non-drop
/// row is appended and numbered after the existing rows.
pub open spec fn upsert_one(entries: Seq<SetEntry>, se_id: int, req: SaveSetRequest) -> Seq<
    SetEntry,
> {
    if exists|j: int| set_slot_at(entries, se_id, req.set_number as int, j) {
        let j = choose|j: int| set_slot_at(entries, se_id, req.set_number as int, j);
        entries.update(
            j,
            SetEntry { weight_g: req.weight_g, reps: req.reps, is_done: req.is_done, ..entries[j] },
        )
    } else {
        entries.push(
            SetEntry {
                id: (entries.len() + 1) as i64,
                session_exercise_id: se_id as i64,
                set_number: req.set_number,
                weight_g: req.weight_g,
                reps: req.reps,
                is_done: req.is_done,
                is_drop: false,
            },
        )
    }
}

/// The set upserts of one request, applied left to right, so a later update
/// of the same set number wins.
pub open spec fn upsert_seq(entries: Seq<SetEntry>, se_id: int, reqs: Seq<SaveSetRequest>) -> Seq<
    SetEntry,
>
    decreases reqs.len(),
{
    if reqs.len() == 0 {
        entries
    } else {
        upsert_one(upsert_seq(entries, se_id, reqs.drop_last()), se_id, reqs.last())
    }
}

/// The set updates a request carries, in order; none when the field is
/// absent.
pub open spec fn reqs_of(req: SaveExerciseRequest) -> Seq<SaveSetRequest> {
    match req.sets {
        Some(v) => v@,
        None => Seq::<SaveSetRequest>::empty(),
    }
}

impl Database {
    /// Upserts one set of session exercise `session_exercise_id`.
    fn upsert_set(&mut self, session_exercise_id: i64, req: SaveSetRequest)
        requires
            old(self).wf(),
            1 <= session_exercise_id <= old(self)@.session_exercises.len(),
            old(self)@.set_entries.len() < ID_LIMIT,
        ensures
            final(self).wf(),
            final(self)@ == (StoreView {
                set_entries: upsert_one(
                    old(self)@.set_entries,
                    session_exercise_id as int,
                    req,
                ),
                ..old(self)@
            }),
            final(self)@.set_entries.len() <= old(self)@.set_entries.len() + 1,
    {
        let ghost cur = self@.set_entries;
        let nn = self.set_entries.len();
        let mut found: Option<usize> = None;
        let mut j: usize = 0;
        while j < nn
            invariant
                nn == self@.set_entries.len(),
                0 <= j <= nn,
                cur == self@.set_entries,
                match found {
                    Option::None => forall|t: int|
                        0 <= t < j ==> !set_slot_at(
                            cur,
                            session_exercise_id as int,
                            req.set_number as int,
                            t,
                        ),
                    Option::Some(f) => f < j && set_slot_at(
                        cur,
                        session_exercise_id as int,
                        req.set_number as int,
                        f as int,
                    ),
                },
            decreases nn - j,
        {
            if found.is_none() && self.set_entries[j].session_exercise_id == session_exercise_id
                && self.set_entries[j].set_number == req.set_number {
                found = Some(j);
            }
            j = j + 1;
        }
        match found {
            Option::Some(f) => {
                let mut entry = self.set_entries[f];
                entry.weight_g = req.weight_g;
                entry.reps = req.reps;
                entry.is_done = req.is_done;
                self.set_entries.set(f, entry);
                proof {
                    let jj = choose|t: int|
                        set_slot_at(cur, session_exercise_id as int, req.set_number as int, t);
                    assert(set_slot_at(
                        cur,
                        session_exercise_id as int,
                        req.set_number as int,
                        f as int,
                    ));
                    assert(jj == f as int);
                    assert(self@.set_entries == upsert_one(cur, session_exercise_id as int, req));
                    assert forall|a: int| 0 <= a < self@.set_entries.len() implies {
                        &&& (#[trigger] self@.set_entries[a]).id == a + 1
                        &&& 1 <= self@.set_entries[a].session_exercise_id
                            <= self@.session_exercises.len()
                    } by {
                        assert(cur[a].id == a + 1);
                    }
                    assert(final(self).wf());
                }
            },
            Option::None => {
                proof {
                    assert forall|t: int| !set_slot_at(
                        cur,
                        session_exercise_id as int,
                        req.set_number as int,
                        t,
                    ) by {
                        if 0 <= t < cur.len() {
                            assert(!set_slot_at(
                                cur,
                                session_exercise_id as int,
                                req.set_number as int,
                                t,
                            ));
                        }
                    }
                }
                let id: i64 = (self.set_entries.len() as i64) + 1;
                self.set_entries.push(
                    SetEntry {
                        id,
                        session_exercise_id,
                        set_number: req.set_number,
                        weight_g: req.weight_g,
                        reps: req.reps,
                        is_done: req.is_done,
                        is_drop: false,
                    },
                );
                proof {
                    assert(self@.set_entries == upsert_one(cur, session_exercise_id as int, req));
                    assert forall|a: int, b: int| 0 <= a < b < self@.set_entries.len() implies !((
                    #[trigger] self@.set_entries[a]).session_exercise_id
                        == (#[trigger] self@.set_entries[b]).session_exercise_id
                        && self@.set_entries[a].set_number == self@.set_entries[b].set_number) by {
                        if b < cur.len() {
                            assert(!(cur[a].session_exercise_id == cur[b].session_exercise_id
                                && cur[a].set_number == cur[b].set_number));
                        } else {
                            assert(!set_slot_at(
                                cur,
                                session_exercise_id as int,
                                req.set_number as int,
                                a,
                            ));
                        }
                    }
                    assert(final(self).wf());
                }
            },
        }
    }

    /// Applies a partial update to session exercise `session_exercise_id`:
    /// present metadata fields overwrite, and each listed set is upserted by
    /// its set number. Fails with `NotFound` when no session exercise
    /// carries that identifier, and with `StorageFailure` when the listed
    /// sets could not all be given fresh rows; either failure leaves the
    /// store unchanged.
    pub fn save_exercise(&mut self, session_exercise_id: i64, request: &SaveExerciseRequest) -> (r:
        Result<(), Error>)
        requires
            old(self).wf(),
        ensures
            final(self).wf(),
            !(1 <= session_exercise_id <= old(self)@.session_exercises.len()) ==> {
                &&& r == Result::<(), Error>::Err(Error::NotFound)
                &&& final(self)@ == old(self)@
            },
            (1 <= session_exercise_id <= old(self)@.session_exercises.len())
                && old(self)@.set_entries.len() + reqs_of(*request).len() > ID_LIMIT ==> {
                &&& r == Result::<(), Error>::Err(Error::StorageFailure)
                &&& final(self)@ == old(self)@
            },
            (1 <= session_exercise_id <= old(self)@.session_exercises.len())
                && old(self)@.set_entries.len() + reqs_of(*request).len() <= ID_LIMIT ==> {
                &&& r == Result::<(), Error>::Ok(())
                &&& final(self)@ == (StoreView {
                    session_exercises: old(self)@.session_exercises.update(
                        session_exercise_id - 1,
                        patched_se(
                            old(self)@.session_exercises[session_exercise_id - 1],
                            *request,
                        ),
                    ),
                    set_entries: upsert_seq(
                        old(self)@.set_entries,
                        session_exercise_id as int,
                        reqs_of(*request),
                    ),
                    ..old(self)@
                })
            },
    {
        let n_se = self.session_exercises.len();
        if !(1 <= session_exercise_id && session_exercise_id as u64 <= n_se as u64) {
            return Err(Error::NotFound);
        }
        let n_reqs: u64 = match &request.sets {
            Some(v) => v.len() as u64,
            None => 0,
        };
        let n_sets = self.set_entries.len();
        if n_reqs > ID_LIMIT || n_sets as u64 > ID_LIMIT - n_reqs {
            return Err(Error::StorageFailure);
        }
        let idx: usize = (session_exercise_id - 1) as usize;

        // Patch the metadata fields that the request carries.
        let mut row = self.session_exercises[idx].clone();
        if let Some(notes) = &request.notes {
            row.next_time_note = Some(notes.clone());
        }
        if let Some(tag) = &request.effort_tag {
            row.effort_tag = Some(tag.clone());
        }
        if let Some(d) = &request.dropset_done {
            row.dropset_done = *d;
        }
        self.session_exercises.set(idx, row);
        proof {
            assert(self@.session_exercises[idx as int] == patched_se(
                old(self)@.session_exercises[idx as int],
                *request,
            ));
            assert(self.wf());
        }

        // Upsert each listed set by its number.
        if let Some(sets) = &request.sets {
            let ghost reqs = sets@;
            let ghost entries0 = old(self)@.set_entries;
            let m = sets.len();
            let mut k: usize = 0;
            while k < m
                invariant
                    sets@ == reqs,
                    m == sets.len(),
                    reqs == reqs_of(*request),
                    0 <= k <= m,
                    self.wf(),
                    entries0 == old(self)@.set_entries,
                    entries0.len() + reqs.len() <= ID_LIMIT,
                    1 <= session_exercise_id <= old(self)@.session_exercises.len(),
                    self@ == (StoreView {
                        session_exercises: old(self)@.session_exercises.update(
                            session_exercise_id - 1,
                            patched_se(
                                old(self)@.session_exercises[session_exercise_id - 1],
                                *request,
                            ),
                        ),
                        set_entries: upsert_seq(
                            entries0,
                            session_exercise_id as int,
                            reqs.take(k as int),
                        ),
                        ..old(self)@
                    }),
                    self@.set_entries.len() <= entries0.len() + k,
                decreases m - k,
            {
                let req = sets[k];
                let ghost pre = self@.set_entries;
                proof {
                    assert(1 <= session_exercise_id <= self@.session_exercises.len());
                    assert(self@.set_entries.len() < ID_LIMIT);
                }
                self.upsert_set(session_exercise_id, req);
                proof {
                    assert(reqs.take(k + 1).drop_last() =~= reqs.take(k as int));
                    assert(reqs.take(k + 1).last() == reqs[k as int]);
                    assert(self@.set_entries == upsert_seq(
                        entries0,
                        session_exercise_id as int,
                        reqs.take(k + 1),
                    ));
                }
                k = k + 1;
            }
            proof {
                assert(reqs.take(m as int) =~= reqs);
            }
        }
        Ok(())
    }
}

} // verus!
