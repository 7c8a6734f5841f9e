use vstd::prelude::*;
use crate::value::{MoodValue, in_range};

verus! {

/// Creates the `mood` table where it does not exist yet.
pub const CREATE_TABLE_SQL: &'static str = "CREATE TABLE if NOT EXISTS mood (
            id         INTEGER PRIMARY KEY,
            timestamp  INTEGER NOT NULL,
            value      REAL NOT NULL,
            message    TEXT
        )";

/// Appends one row; its parameters are the timestamp, the value and the message.
pub const INSERT_SQL: &'static str = "INSERT INTO mood (timestamp, value, message) VALUES (?1, ?2, ?3)";

/// One mood entry, as it is stored.
#[derive(Clone, Debug, PartialEq, Eq)]
pub struct Mood {
    /// Unix time in seconds.
    pub timestamp: i64,
    pub value: MoodValue,
    pub message: Option<String>,
}

impl Mood {
    /// The rating lies in `[0, 10]`.
    pub open spec fn valid(&self) -> bool {
        in_range(self.value.bits)
    }

    /// An entry; only a rating in range is ever stored.
    pub fn new(timestamp: i64, value: MoodValue, message: Option<String>) -> (r: Mood)
        requires
            in_range(value.bits),
        ensures
            r == (Mood { timestamp, value, message }),
            r.valid(),
    {
        Mood { timestamp, value, message }
    }
}

/// A statement that the storage step runs.
#[derive(Clone, Copy, Debug, PartialEq, Eq)]
pub enum Statement {
    CreateTable,
    InsertMood,
}

pub open spec fn sql_of(s: Statement) -> Seq<char> {
    match s {
        Statement::CreateTable => CREATE_TABLE_SQL@,
        Statement::InsertMood => INSERT_SQL@,
    }
}

impl Statement {
    /// The SQL text of the statement.
    pub fn sql(&self) -> (r: &'static str)
        ensures
            r@ == sql_of(*self),
    {
        match self {
            Statement::CreateTable => CREATE_TABLE_SQL,
            Statement::InsertMood => INSERT_SQL,
        }
    }
}

/// How storing an entry ended.
#[derive(Clone, Debug, PartialEq, Eq)]
pub enum Outcome {
    /// The number of rows that the insert reported.
    Inserted(usize),
    /// The database's error text.
    Failed(String),
}

/// What to do next while storing an entry.
#[derive(Clone, Debug, PartialEq, Eq)]
pub enum Action {
    Execute(Statement),
    Finish(Outcome),
}

/// Storing begins by making sure that the table exists.
pub fn first_action() -> (r: Action)
    ensures
        r == Action::Execute(Statement::CreateTable),
{
    Action::Execute(Statement::CreateTable)
}

/// The step after `done` ran with `result` (rows changed, or the error text):
/// a failure ends the run; creating the table is followed by the insert; the
/// insert ends the run with its row count.
pub fn next_action(done: Statement, result: Result<usize, String>) -> (r: Action)
    ensures
        match result {
            Err(e) => r == Action::Finish(Outcome::Failed(e)),
            Ok(n) => match done {
                Statement::CreateTable => r == Action::Execute(Statement::InsertMood),
                Statement::InsertMood => r == Action::Finish(Outcome::Inserted(n)),
            },
        },
{
    match result {
        Err(e) => Action::Finish(Outcome::Failed(e)),
        Ok(n) => match done {
            Statement::CreateTable => Action::Execute(Statement::InsertMood),
            Statement::InsertMood => Action::Finish(Outcome::Inserted(n)),
        },
    }
}

} // verus!
