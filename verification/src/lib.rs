//! Strength-training workout tracker: a fixed catalog of training days and
//! exercise slots, dated workout sessions, lazily materialized per-slot
//! performance records, set recording, and progression/history lookups over
//! finished sessions.

pub mod catalog;
pub mod clock;
pub mod db;
pub mod error;
pub mod history;
pub mod laws;
pub mod materialize;
pub mod models;
pub mod progression;
pub mod save;
pub mod sets;

pub use db::Database;
pub use error::Error;
pub use models::Date;
pub use models::Day;
pub use models::Exercise;
pub use models::SaveExerciseRequest;
pub use models::SaveSetRequest;
pub use models::Session;
pub use models::SessionExercise;
pub use models::SetEntry;
pub use models::Slot;
