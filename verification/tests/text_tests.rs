use chrono::Datelike;
use rusqlite::Connection;

use agenda::numfmt::{i64_string, two_digits, u64_string};
use agenda::{display_agenda, ensure_events_table, hour_padding, parser_input, db_writer};

#[test]
fn tokenizer_splits_on_whitespace() {
    assert_eq!(
        parser_input("05/03 09:00 Standup"),
        vec!["05/03".to_string(), "09:00".to_string(), "Standup".to_string()]
    );
}

#[test]
fn tokenizer_collapses_repeated_separators() {
    assert_eq!(
        parser_input("  a \t b\n\nc  "),
        vec!["a".to_string(), "b".to_string(), "c".to_string()]
    );
}

#[test]
fn tokenizer_of_empty_input_is_empty() {
    assert_eq!(parser_input(""), Vec::<String>::new());
    assert_eq!(parser_input(" \t\n"), Vec::<String>::new());
}

#[test]
fn tokenizer_splits_on_unicode_whitespace() {
    assert_eq!(parser_input("\u{a0}"), Vec::<String>::new());
    assert_eq!(
        parser_input("a\u{a0}b"),
        vec!["a".to_string(), "b".to_string()]
    );
    assert_eq!(
        parser_input("x\u{2003}y\u{3000}"),
        vec!["x".to_string(), "y".to_string()]
    );
    assert_eq!(parser_input("one\u{2028}two"), "one\u{2028}two".split_whitespace().collect::<Vec<_>>());
}

#[test]
fn hour_padding_pads_short_hours() {
    assert_eq!(hour_padding("9:00".to_string()), "09:00");
    assert_eq!(hour_padding("14:30".to_string()), "14:30");
}

#[test]
fn decimal_rendering_is_exact() {
    assert_eq!(u64_string(0), "0");
    assert_eq!(u64_string(1907), "1907");
    assert_eq!(i64_string(-42), "-42");
    assert_eq!(i64_string(7), "7");
    assert_eq!(two_digits(5), "05");
    assert_eq!(two_digits(31), "31");
}

#[test]
fn display_agenda_builds_both_panels() {
    let mut conn = Connection::open_in_memory().unwrap();
    ensure_events_table(&mut conn).unwrap();
    let now = chrono::Utc::now();
    let today = format!("{:02}/{:02}", now.day(), now.month());
    db_writer(
        &mut conn,
        today.clone(),
        "08:00".to_string(),
        "Morning task".to_string(),
    )
    .unwrap();
    let (first, second) = display_agenda(&conn).unwrap();
    assert!(first.starts_with(&today));
    assert!(first.contains("Agenda for today: "));
    assert!(first.contains("_____________"));
    assert!(first.contains("08:00 - [1] - Morning task"));
    assert!(second.contains("Agenda for tomorrow: "));
    assert!(second.ends_with("NONE"));
}
