use moodlog::{
    commentary, first_action, next_action, report, resolve_timestamp, Action, Commentary, Mood, MoodValue,
    Outcome, Statement,
};
use rusqlite::Connection;

fn rating(v: f32) -> MoodValue {
    MoodValue { bits: v.to_bits() }
}

fn store(conn: &Connection, mood: &Mood) -> Outcome {
    let mut action = first_action();
    loop {
        match action {
            Action::Finish(outcome) => return outcome,
            Action::Execute(st) => {
                let result = match st {
                    Statement::CreateTable => conn.execute(st.sql(), ()),
                    Statement::InsertMood => conn.execute(
                        st.sql(),
                        (&mood.timestamp, &f32::from_bits(mood.value.bits), &mood.message),
                    ),
                };
                action = next_action(st, result.map_err(|e| e.to_string()));
            }
        }
    }
}

#[test]
fn commentary_by_midpoint() {
    assert_eq!(commentary(rating(3.0)), Commentary::CheerUp);
    assert_eq!(commentary(rating(7.0)), Commentary::ChillOut);
    assert_eq!(commentary(rating(5.0)), Commentary::Neutral);
    assert_eq!(commentary(rating(-0.0)), Commentary::CheerUp);
    assert_eq!(commentary(rating(0.0)), Commentary::CheerUp);
    assert_eq!(commentary(rating(10.0)), Commentary::ChillOut);
    assert_eq!(commentary(rating(4.9999995)), Commentary::CheerUp);
    assert_eq!(commentary(rating(5.0000005)), Commentary::ChillOut);
}

#[test]
fn commentary_agrees_with_float_comparison() {
    let mut b: u32 = 0;
    while b <= 0x4120_0000 {
        let v = f32::from_bits(b);
        let expected = if v < 5.0 {
            Commentary::CheerUp
        } else if v > 5.0 {
            Commentary::ChillOut
        } else {
            Commentary::Neutral
        };
        assert_eq!(commentary(MoodValue { bits: b }), expected, "bits {:#x}", b);
        b += 4_099;
    }
}

#[test]
fn report_lines() {
    assert_eq!(report(&Outcome::Inserted(1), rating(3.0)), "Inserted 1 rows. Cheer up Negative Nancy");
    assert_eq!(report(&Outcome::Inserted(1), rating(7.0)), "Inserted 1 rows. Chill out Positive Pete");
    assert_eq!(
        report(&Outcome::Inserted(1), rating(5.0)),
        "Inserted 1 rows. To feel nothing so as to feel anything. Such a shame"
    );
    assert_eq!(report(&Outcome::Inserted(0), rating(9.0)), "Inserted 0 rows. Chill out Positive Pete");
    assert_eq!(report(&Outcome::Inserted(120), rating(1.0)), "Inserted 120 rows. Cheer up Negative Nancy");
    assert_eq!(
        report(&Outcome::Failed("disk I/O error".to_string()), rating(5.0)),
        "Rusqlite insertion error: disk I/O error"
    );
}

#[test]
fn steps_of_a_store() {
    assert_eq!(first_action(), Action::Execute(Statement::CreateTable));
    assert_eq!(next_action(Statement::CreateTable, Ok(0)), Action::Execute(Statement::InsertMood));
    assert_eq!(next_action(Statement::InsertMood, Ok(1)), Action::Finish(Outcome::Inserted(1)));
    assert_eq!(
        next_action(Statement::CreateTable, Err("locked".to_string())),
        Action::Finish(Outcome::Failed("locked".to_string()))
    );
    assert_eq!(
        next_action(Statement::InsertMood, Err("full".to_string())),
        Action::Finish(Outcome::Failed("full".to_string()))
    );
}

#[test]
fn explicit_datetime_is_read() {
    assert_eq!(resolve_timestamp(&Some("1996-12-19T16:39:57-08:00".to_string())).unwrap(), 851_042_397);
    assert_eq!(resolve_timestamp(&Some("1970-01-01T00:00:00Z".to_string())).unwrap(), 0);
    assert!(resolve_timestamp(&Some("yesterday".to_string())).is_err());
    assert!(resolve_timestamp(&Some("1996-12-19 16:39".to_string())).is_err());
}

#[test]
fn missing_datetime_is_now() {
    let before = chrono::Utc::now().timestamp();
    let t = resolve_timestamp(&None).unwrap();
    let after = chrono::Utc::now().timestamp();
    assert!(before - 2 <= t && t <= after + 2);
}

#[test]
fn two_runs_create_one_table_and_two_rows() {
    let conn = Connection::open_in_memory().unwrap();
    let first = Mood::new(1_000, rating(3.0), None);
    let second = Mood::new(2_000, rating(8.5), Some("better".to_string()));
    assert_eq!(store(&conn, &first), Outcome::Inserted(1));
    assert_eq!(store(&conn, &second), Outcome::Inserted(1));
    let tables: i64 = conn
        .query_row("SELECT count(*) FROM sqlite_master WHERE type = 'table' AND name = 'mood'", (), |r| r.get(0))
        .unwrap();
    assert_eq!(tables, 1);
    let rows: i64 = conn.query_row("SELECT count(*) FROM mood", (), |r| r.get(0)).unwrap();
    assert_eq!(rows, 2);
}

#[test]
fn stored_entry_reads_back() {
    let conn = Connection::open_in_memory().unwrap();
    let mood = Mood::new(1_700_000_000, rating(6.3), Some("a quiet day".to_string()));
    assert_eq!(store(&conn, &mood), Outcome::Inserted(1));
    let (t, v, m): (i64, f64, Option<String>) = conn
        .query_row("SELECT timestamp, value, message FROM mood", (), |r| Ok((r.get(0)?, r.get(1)?, r.get(2)?)))
        .unwrap();
    assert_eq!(t, 1_700_000_000);
    assert_eq!(v as f32, 6.3f32);
    assert_eq!(m, Some("a quiet day".to_string()));
    let none = Mood::new(5, rating(0.0), None);
    store(&conn, &none);
    let m2: Option<String> = conn.query_row("SELECT message FROM mood WHERE id = 2", (), |r| r.get(0)).unwrap();
    assert_eq!(m2, None);
}

#[test]
fn store_failure_is_reported() {
    let conn = Connection::open_in_memory().unwrap();
    conn.execute("CREATE VIEW mood AS SELECT 1", ()).unwrap();
    let outcome = store(&conn, &Mood::new(1, rating(2.0), None));
    assert!(matches!(outcome, Outcome::Failed(_)));
    assert!(report(&outcome, rating(2.0)).starts_with("Rusqlite insertion error: "));
}
