//! The agenda assembler: the two always-visible panels, one for today and
//! one for tomorrow, each a dated header over the rendered schedule.

use vstd::prelude::*;
use rusqlite::Connection;
use crate::numfmt::{dec_str, pad2, two_digits};
use crate::schedule::{agenda_model, Entry};
use crate::store::{db_reader, db_rows, AppError};

verus! {

/// Whether the pair can name a calendar day.
pub open spec fn valid_day_month(day: int, month: int) -> bool {
    1 <= day <= 31 && 1 <= month <= 12
}

/// The `DD/MM` text of a day and month, each zero-padded to two digits.
pub open spec fn date_text(day: int, month: int) -> Seq<char> {
    pad2(dec_str(day)) + seq!['/'] + pad2(dec_str(month))
}

/// Relies on chrono's `Utc::now`, `Datelike::day` and `Datelike::month`, and
/// on `checked_add_signed` shifting the current instant by one day: chrono
/// documents the day as lying in 1..=31 and the month in 1..=12. At the very
/// end of chrono's representable range the shift yields nothing and the
/// second pair falls back to today's, rather than panicking.
#[verifier::external_body]
fn today_and_tomorrow() -> (r: ((u32, u32), (u32, u32)))
    ensures
        valid_day_month(r.0.0 as int, r.0.1 as int),
        valid_day_month(r.1.0 as int, r.1.1 as int),
{
    let now = chrono::Utc::now();
    let next = match now.checked_add_signed(chrono::TimeDelta::seconds(86400)) {
        Some(t) => t,
        None => now,
    };
    (
        (chrono::Datelike::day(&now), chrono::Datelike::month(&now)),
        (chrono::Datelike::day(&next), chrono::Datelike::month(&next)),
    )
}

/// Format a day and month as `DD/MM`.
pub fn format_date(day: u32, month: u32) -> (r: String)
    requires
        valid_day_month(day as int, month as int),
    ensures
        r@ == date_text(day as int, month as int),
{
    let mut s = two_digits(day as u64);
    s.push('/');
    let m = two_digits(month as u64);
    s.append(m.as_str());
    proof {
        assert(s@ =~= date_text(day as int, month as int));
    }
    s
}

/// The header tail after the date, naming which panel this is.
pub open spec fn header_tail(today: bool) -> Seq<char> {
    if today {
        "   Agenda for today: "@
    } else {
        "   Agenda for tomorrow: "@
    }
}

/// The fixed-width rule under each header.
pub open spec fn separator_line() -> Seq<char> {
    "_____________________________________________________________"@
}

/// One panel: dated header, separator, then the date's agenda.
pub open spec fn panel_model(rows: Seq<Entry>, day: int, month: int, today: bool) -> Seq<char> {
    date_text(day, month) + header_tail(today) + seq!['\n'] + separator_line() + seq!['\n']
        + agenda_model(rows, date_text(day, month))
}

/// Assemble the panel for the given calendar day.
pub fn assemble_panel(conn: &Connection, day: u32, month: u32, today: bool) -> (r: Result<
    String,
    AppError,
>)
    requires
        valid_day_month(day as int, month as int),
    ensures
        r matches Ok(s) ==> s@ == panel_model(db_rows(*conn), day as int, month as int, today),
{
    let date = format_date(day, month);
    let tasks = match db_reader(conn, date.as_str()) {
        Ok(t) => t,
        Err(e) => {
            return Err(e);
        },
    };
    let mut s = String::from_str(date.as_str());
    if today {
        s.append("   Agenda for today: ");
    } else {
        s.append("   Agenda for tomorrow: ");
    }
    s.push('\n');
    s.append("_____________________________________________________________");
    s.push('\n');
    s.append(tasks.as_str());
    proof {
        assert(s@ =~= panel_model(db_rows(*conn), day as int, month as int, today));
    }
    Ok(s)
}

/// Produce the two panels, for the host clock's today and tomorrow.
pub fn display_agenda(conn: &Connection) -> (r: Result<(String, String), AppError>)
    ensures
        r matches Ok(p) ==> (exists|d: int, m: int|
            valid_day_month(d, m) && p.0@ == panel_model(db_rows(*conn), d, m, true)) && (
        exists|d: int, m: int|
            valid_day_month(d, m) && p.1@ == panel_model(db_rows(*conn), d, m, false)),
{
    let ((d0, m0), (d1, m1)) = today_and_tomorrow();
    let first = match assemble_panel(conn, d0, m0, true) {
        Ok(t) => t,
        Err(e) => {
            return Err(e);
        },
    };
    let second = match assemble_panel(conn, d1, m1, false) {
        Ok(t) => t,
        Err(e) => {
            return Err(e);
        },
    };
    proof {
        assert(valid_day_month(d0 as int, m0 as int) && first@ == panel_model(
            db_rows(*conn),
            d0 as int,
            m0 as int,
            true,
        ));
        assert(valid_day_month(d1 as int, m1 as int) && second@ == panel_model(
            db_rows(*conn),
            d1 as int,
            m1 as int,
            false,
        ));
    }
    Ok((first, second))
}

} // verus!
