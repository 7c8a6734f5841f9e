//! A mood log: a rating from zero to ten, an optional note and a time,
//! checked and prepared here for one row of an embedded database.

pub mod dbpath;
pub mod report;
pub mod store;
pub mod timestamp;
pub mod value;

pub use dbpath::{
    DbPathError, DEFAULT_DB_NAME, dbpath_or_default, default_dbpath, path_extension, resolve_dbpath,
    validate_dbpath,
};
pub use value::{MoodValue, ValueError, value_in_range};
pub use timestamp::{DatetimeError, resolve_timestamp};
pub use store::{Action, CREATE_TABLE_SQL, INSERT_SQL, Mood, Outcome, Statement, first_action, next_action};
pub use report::{Commentary, commentary, report};
