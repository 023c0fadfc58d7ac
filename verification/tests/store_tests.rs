use rusqlite::Connection;

use agenda::{
    db_eraser, db_reader, db_setup, db_verify, db_verify_eraser, db_writer, ensure_events_table,
};

fn fresh_store() -> Connection {
    let mut conn = Connection::open_in_memory().unwrap();
    ensure_events_table(&mut conn).unwrap();
    conn
}

fn add(conn: &mut Connection, date: &str, hour: &str, task: &str) {
    db_writer(
        conn,
        date.to_string(),
        hour.to_string(),
        task.to_string(),
    )
    .unwrap();
}

#[test]
fn none_for_empty_date() {
    let conn = fresh_store();
    assert_eq!(db_reader(&conn, "05/03").unwrap(), "NONE");
    assert!(!db_verify(&conn, "05/03").unwrap());
}

#[test]
fn schedule_contains_each_inserted_record() {
    let mut conn = fresh_store();
    add(&mut conn, "11/11", "10:00", "Write report");
    add(&mut conn, "11/11", "_", "Water plants");
    add(&mut conn, "11/11", "08:15", "Breakfast");
    let text = db_reader(&conn, "11/11").unwrap();
    assert!(text.contains("[1] - Write report"));
    assert!(text.contains("[2] - Water plants"));
    assert!(text.contains("[3] - Breakfast"));
    assert_eq!(text.lines().count(), 3);
}

#[test]
fn insert_then_delete_round_trip() {
    let mut conn = fresh_store();
    add(&mut conn, "07/07", "12:00", "Lunch");
    let before = db_reader(&conn, "07/07").unwrap();
    add(&mut conn, "07/07", "18:00", "Dinner");
    assert!(db_verify_eraser(&conn, &"07/07".to_string(), 2).unwrap());
    db_eraser(&mut conn, "07/07".to_string(), 2).unwrap();
    let after = db_reader(&conn, "07/07").unwrap();
    assert_eq!(before, after);
    assert!(!db_verify_eraser(&conn, &"07/07".to_string(), 2).unwrap());
}

#[test]
fn setup_twice_keeps_records() {
    let mut conn = Connection::open_in_memory().unwrap();
    ensure_events_table(&mut conn).unwrap();
    add(&mut conn, "01/02", "09:30", "Meeting");
    ensure_events_table(&mut conn).unwrap();
    let text = db_reader(&conn, "01/02").unwrap();
    assert_eq!(text, "09:30 - [1] - Meeting");
}

#[test]
fn setup_is_idempotent_on_a_path() {
    assert!(db_setup(":memory:").is_ok());
    assert!(db_setup(":memory:").is_ok());
}

#[test]
fn timed_entries_sort_before_daylong() {
    let mut conn = fresh_store();
    add(&mut conn, "20/06", "14:30", "Afternoon slot");
    add(&mut conn, "20/06", "_", "All day errand");
    add(&mut conn, "20/06", "09:00", "Morning slot");
    let text = db_reader(&conn, "20/06").unwrap();
    let lines: Vec<&str> = text.lines().collect();
    assert_eq!(lines.len(), 3);
    assert!(lines[0].starts_with("09:00"));
    assert!(lines[1].starts_with("14:30"));
    assert!(lines[2].starts_with("Daylong"));
}

#[test]
fn short_hour_renders_zero_padded() {
    let mut conn = fresh_store();
    add(&mut conn, "09/09", "9:00", "Early start");
    let text = db_reader(&conn, "09/09").unwrap();
    assert_eq!(text, "09:00 - [1] - Early start");
}

#[test]
fn concrete_schedule_scenario() {
    let mut conn = fresh_store();
    add(&mut conn, "05/03", "09:00", "Standup");
    add(&mut conn, "05/03", "_", "Read book");
    add(&mut conn, "05/03", "14:30", "Review");
    let text = db_reader(&conn, "05/03").unwrap();
    assert_eq!(
        text,
        "09:00 - [1] - Standup\n14:30 - [3] - Review\nDaylong - [2] - Read book"
    );
}

#[test]
fn delete_removes_exactly_one_row() {
    let mut conn = fresh_store();
    add(&mut conn, "05/03", "09:00", "Standup");
    add(&mut conn, "05/03", "_", "Read book");
    add(&mut conn, "05/03", "14:30", "Review");
    db_eraser(&mut conn, "05/03".to_string(), 2).unwrap();
    let text = db_reader(&conn, "05/03").unwrap();
    assert_eq!(text, "09:00 - [1] - Standup\n14:30 - [3] - Review");
}

#[test]
fn delete_of_missing_pair_is_noop() {
    let mut conn = fresh_store();
    add(&mut conn, "31/12", "23:00", "Countdown");
    assert!(!db_verify_eraser(&conn, &"31/12".to_string(), 7).unwrap());
    assert!(!db_verify_eraser(&conn, &"30/12".to_string(), 1).unwrap());
    db_eraser(&mut conn, "31/12".to_string(), 7).unwrap();
    let text = db_reader(&conn, "31/12").unwrap();
    assert_eq!(text, "23:00 - [1] - Countdown");
}

#[test]
fn unparsable_hour_sorts_after_valid_times() {
    // "07:61" is lexically smaller than "23:59" but is no time of day, so it
    // must sort with the unparsable keys, after every real time.
    let mut conn = fresh_store();
    add(&mut conn, "02/02", "07:61", "Broken clock");
    add(&mut conn, "02/02", "23:59", "Late night");
    let text = db_reader(&conn, "02/02").unwrap();
    assert_eq!(text, "23:59 - [2] - Late night\n07:61 - [1] - Broken clock");
}

#[test]
fn records_on_other_dates_stay_invisible() {
    let mut conn = fresh_store();
    add(&mut conn, "10/10", "10:00", "Here");
    add(&mut conn, "11/10", "11:00", "Elsewhere");
    let text = db_reader(&conn, "10/10").unwrap();
    assert_eq!(text, "10:00 - [1] - Here");
    assert!(db_verify(&conn, "11/10").unwrap());
}
