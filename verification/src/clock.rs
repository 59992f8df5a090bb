//! Starting a session dated at the machine's current local calendar date.

use vstd::prelude::*;

use chrono::Datelike;

use crate::db::start_outcome;
use crate::db::Database;
use crate::error::Error;
use crate::models::Date;

verus! {

/// Relies on `chrono::Local::now` and `NaiveDate`'s `Datelike` accessors:
/// the current local calendar date, whose month lies in 1 to 12 and whose
/// day of month lies in 1 to 31.
#[verifier::external_body]
fn current_local_date() -> (d: Date)
    ensures
        d.wf(),
{
    let now = chrono::Local::now().date_naive();
    Date { year: now.year() as i64, month: now.month() as i64, day: now.day() as i64 }
}

impl Database {
    /// Starts or resumes day `day_id`, dating any new session at the
    /// current local calendar date; which date that is depends on the
    /// clock, so the contract promises a start-or-resume outcome for some
    /// calendar date.
    pub fn start_or_resume_session_today(&mut self, day_id: i64) -> (r: Result<i64, Error>)
        requires
            old(self).wf(),
        ensures
            final(self).wf(),
            exists|today: Date|
                #[trigger] today.wf() && start_outcome(
                    old(self)@,
                    final(self)@,
                    day_id as int,
                    today,
                    r,
                ),
    {
        let today = current_local_date();
        let r = self.start_or_resume_session(day_id, today);
        proof {
            assert(today.wf() && start_outcome(old(self)@, self@, day_id as int, today, r));
        }
        r
    }
}

} // verus!
