//! The agenda query engine: classifying records as timed or all-day, ordering
//! them, and rendering the day's schedule as one joined string.

use vstd::prelude::*;
use chrono::Timelike;
use crate::numfmt::{dec_str_signed, i64_string};

verus! {

/// What chrono's time parser makes of a key string: the second of the day it
/// names, or nothing when the text is not a time of day.
pub uninterp spec fn time_key(s: Seq<char>) -> Option<u32>;

/// Relies on chrono's `FromStr` for `NaiveTime` and on
/// `Timelike::num_seconds_from_midnight`: parsing is a function of the text
/// alone, and the seconds count orders times of day chronologically. The key
/// has whole-second resolution, so keys naming times that differ only below
/// the second tie here and keep their arrival order; `HH:MM` keys are
/// unaffected.
#[verifier::external_body]
fn parse_time_key(s: &str) -> (r: Option<u32>)
    ensures
        r == time_key(s@),
{
    match s.parse::<chrono::NaiveTime>() {
        Ok(t) => Some(t.num_seconds_from_midnight()),
        Err(_) => None,
    }
}

/// One stored task record, as the store hands it out.
pub struct Record {
    /// The auto-assigned identifier.
    pub id: i64,
    /// The day the record belongs to, as `DD/MM` text.
    pub date: String,
    /// A time of day as `HH:MM` text, or the all-day sentinel `_`.
    pub hour: String,
    /// The free-text task description.
    pub task: String,
}

/// The mathematical shape of a record: identifier, date, hour, task.
pub type Entry = (int, Seq<char>, Seq<char>, Seq<char>);

impl View for Record {
    type V = Entry;

    open spec fn view(&self) -> Entry {
        (self.id as int, self.date@, self.hour@, self.task@)
    }
}

/// The views of a sequence of records.
pub open spec fn recs_view(s: Seq<Record>) -> Seq<Entry> {
    s.map_values(|r: Record| r@)
}

/// The reserved hour value meaning "no specific time assigned".
pub open spec fn all_day_sentinel() -> Seq<char> {
    seq!['_']
}

/// The marker shown in place of a time for an all-day task.
pub open spec fn daylong_marker() -> Seq<char> {
    seq!['D', 'a', 'y', 'l', 'o', 'n', 'g']
}

/// An hour under five characters gains one leading zero.
pub open spec fn pad_hour(h: Seq<char>) -> Seq<char> {
    if h.len() < 5 {
        seq!['0'] + h
    } else {
        h
    }
}

/// Zero-pad a short hour text, so `9:00` displays as `09:00`.
pub fn hour_padding(time: String) -> (r: String)
    ensures
        r@ == pad_hour(time@),
{
    pad_hour_str(time.as_str())
}

/// As `hour_padding`, building a fresh string from a borrowed one.
pub fn pad_hour_str(time: &str) -> (r: String)
    ensures
        r@ == pad_hour(time@),
{
    if time.unicode_len() < 5 {
        let mut s = String::new();
        s.push('0');
        s.append(time);
        proof {
            assert(s@ =~= seq!['0'] + time@);
        }
        s
    } else {
        String::from_str(time)
    }
}

/// The sort key displayed for a record: the padded hour, or the all-day marker.
pub open spec fn display_key(h: Seq<char>) -> Seq<char> {
    if h == all_day_sentinel() {
        daylong_marker()
    } else {
        pad_hour(h)
    }
}

/// Build the display key of an hour value.
pub fn display_key_str(h: &str) -> (r: String)
    ensures
        r@ == display_key(h@),
{
    if h.unicode_len() == 1 && h.get_char(0) == '_' {
        proof {
            assert(h@ =~= all_day_sentinel());
        }
        let s = String::from_str("Daylong");
        proof {
            reveal_strlit("Daylong");
            assert(s@ =~= daylong_marker());
        }
        s
    } else {
        proof {
            assert(h@ != all_day_sentinel());
        }
        pad_hour_str(h)
    }
}

/// The full display line of a record: key, bracketed identifier, task text.
pub open spec fn line_of(e: Entry) -> Seq<char> {
    display_key(e.2) + seq![' ', '-', ' ', '['] + dec_str_signed(e.0) + seq![']', ' ', '-', ' ']
        + e.3
}

/// The sortable pair of a record: its display key and its display line.
pub type RowV = (Seq<char>, Seq<char>);

/// The display pair of a record.
pub open spec fn row_of(e: Entry) -> RowV {
    (display_key(e.2), line_of(e))
}

/// One row ready for sorting and display.
pub struct DisplayRow {
    /// The sort key: a padded hour or the all-day marker.
    pub key: String,
    /// The full rendered line.
    pub line: String,
}

impl View for DisplayRow {
    type V = RowV;

    open spec fn view(&self) -> RowV {
        (self.key@, self.line@)
    }
}

/// The views of a sequence of display rows.
pub open spec fn rows_view(s: Seq<DisplayRow>) -> Seq<RowV> {
    s.map_values(|d: DisplayRow| d@)
}

/// Build the display row of a record.
pub fn make_row(rec: &Record) -> (r: DisplayRow)
    ensures
        r@ == row_of(rec@),
{
    let key = display_key_str(rec.hour.as_str());
    let mut line = String::from_str(key.as_str());
    line.append(" - [");
    let ids = i64_string(rec.id);
    line.append(ids.as_str());
    line.append("] - ");
    line.append(rec.task.as_str());
    proof {
        reveal_strlit(" - [");
        reveal_strlit("] - ");
        assert(" - ["@ =~= seq![' ', '-', ' ', '[']);
        assert("] - "@ =~= seq![']', ' ', '-', ' ']);
        assert(line@ =~= line_of(rec@));
    }
    DisplayRow { key, line }
}

/// Strict lexicographic order on character sequences, by scalar value.
pub open spec fn lex_lt(a: Seq<char>, b: Seq<char>) -> bool
    decreases a.len(),
{
    if b.len() == 0 {
        false
    } else if a.len() == 0 {
        true
    } else if a[0] == b[0] {
        lex_lt(a.drop_first(), b.drop_first())
    } else {
        (a[0] as u32) < (b[0] as u32)
    }
}

/// Compare two strings lexicographically.
fn lex_lt_str(a: &str, b: &str) -> (r: bool)
    ensures
        r == lex_lt(a@, b@),
{
    let an = a.unicode_len();
    let bn = b.unicode_len();
    let mut i: usize = 0;
    proof {
        assert(a@.skip(0) =~= a@);
        assert(b@.skip(0) =~= b@);
    }
    loop
        invariant
            i <= an,
            i <= bn,
            an == a@.len(),
            bn == b@.len(),
            lex_lt(a@, b@) == lex_lt(a@.skip(i as int), b@.skip(i as int)),
        decreases an - i,
    {
        if i >= bn {
            proof {
                assert(b@.skip(i as int).len() == 0);
            }
            return false;
        }
        if i >= an {
            proof {
                assert(a@.skip(i as int).len() == 0);
                assert(b@.skip(i as int).len() > 0);
            }
            return true;
        }
        let ca = a.get_char(i);
        let cb = b.get_char(i);
        proof {
            assert(a@.skip(i as int)[0] == ca);
            assert(b@.skip(i as int)[0] == cb);
            assert(a@.skip(i as int).drop_first() =~= a@.skip(i as int + 1));
            assert(b@.skip(i as int).drop_first() =~= b@.skip(i as int + 1));
        }
        if ca != cb {
            return (ca as u32) < (cb as u32);
        }
        i = i + 1;
    }
}

/// The display order: parsed times chronologically, every parsed time before
/// every unparsable key, and unparsable keys lexicographically. All-day
/// entries therefore come after all timed ones.
pub open spec fn row_lt(a: RowV, b: RowV) -> bool {
    match (time_key(a.0), time_key(b.0)) {
        (Some(x), Some(y)) => x < y,
        (Some(x), None) => true,
        (None, Some(y)) => false,
        (None, None) => lex_lt(a.0, b.0),
    }
}

/// Decide the display order of two rows.
fn row_lt_exec(a: &DisplayRow, b: &DisplayRow) -> (r: bool)
    ensures
        r == row_lt(a@, b@),
{
    let ka = parse_time_key(a.key.as_str());
    let kb = parse_time_key(b.key.as_str());
    match (ka, kb) {
        (Some(x), Some(y)) => x < y,
        (Some(_), None) => true,
        (None, Some(_)) => false,
        (None, None) => lex_lt_str(a.key.as_str(), b.key.as_str()),
    }
}

/// `e` placed into the already sorted `s`, after any row it does not precede;
/// rows the order cannot tell apart keep their arrival order.
pub open spec fn insert_row(e: RowV, s: Seq<RowV>) -> Seq<RowV>
    decreases s.len(),
{
    if s.len() == 0 {
        seq![e]
    } else if row_lt(e, s[0]) {
        seq![e] + s
    } else {
        seq![s[0]] + insert_row(e, s.drop_first())
    }
}

/// The rows of `s` in display order: the stable insertion sort under `row_lt`.
pub open spec fn sort_rows(s: Seq<RowV>) -> Seq<RowV>
    decreases s.len(),
{
    if s.len() == 0 {
        Seq::empty()
    } else {
        insert_row(s.last(), sort_rows(s.drop_last()))
    }
}

/// Place one row into an already sorted vector.
fn insert_sorted(e: DisplayRow, s: Vec<DisplayRow>) -> (r: Vec<DisplayRow>)
    ensures
        rows_view(r@) == insert_row(e@, rows_view(s@)),
    decreases s@.len(),
{
    let mut s = s;
    if s.len() == 0 {
        let mut v: Vec<DisplayRow> = Vec::new();
        v.push(e);
        proof {
            assert(rows_view(v@) =~= seq![e@]);
            assert(rows_view(s@).len() == 0);
        }
        v
    } else if row_lt_exec(&e, &s[0]) {
        let ghost ev = e@;
        let ghost sv = rows_view(s@);
        s.insert(0, e);
        proof {
            assert(rows_view(s@) =~= seq![ev] + sv);
        }
        s
    } else {
        let ghost sv = rows_view(s@);
        let head = s.remove(0);
        proof {
            assert(rows_view(s@) =~= sv.drop_first());
        }
        let mut rest = insert_sorted(e, s);
        let ghost hv = head@;
        rest.insert(0, head);
        proof {
            assert(rows_view(rest@) =~= seq![hv] + insert_row(e@, sv.drop_first()));
        }
        rest
    }
}

/// Sort rows into display order, stably.
fn sort_display_rows(rows: Vec<DisplayRow>) -> (r: Vec<DisplayRow>)
    ensures
        rows_view(r@) == sort_rows(rows_view(rows@)),
    decreases rows@.len(),
{
    let mut rows = rows;
    if rows.len() == 0 {
        proof {
            assert(rows_view(rows@) =~= Seq::<RowV>::empty());
        }
        rows
    } else {
        let ghost rv = rows_view(rows@);
        let e = rows.pop().unwrap();
        proof {
            assert(rows_view(rows@) =~= rv.drop_last());
            assert(e@ == rv.last());
        }
        let sorted = sort_display_rows(rows);
        insert_sorted(e, sorted)
    }
}

/// The lines of `s` joined with newline separators.
pub open spec fn join_lines(s: Seq<Seq<char>>) -> Seq<char>
    decreases s.len(),
{
    if s.len() == 0 {
        Seq::empty()
    } else if s.len() == 1 {
        s[0]
    } else {
        s[0] + seq!['\n'] + join_lines(s.drop_first())
    }
}

/// Appending one line extends the joined text by a newline and that line.
pub proof fn lemma_join_push(s: Seq<Seq<char>>, x: Seq<char>)
    ensures
        s.len() == 0 ==> join_lines(s.push(x)) == x,
        s.len() > 0 ==> join_lines(s.push(x)) == join_lines(s) + seq!['\n'] + x,
    decreases s.len(),
{
    if s.len() == 0 {
        assert(s.push(x).len() == 1);
        assert(join_lines(s.push(x)) == s.push(x)[0]);
    } else if s.len() == 1 {
        assert(s.push(x).len() == 2);
        assert(s.push(x)[0] == s[0]);
        assert(s.push(x).drop_first() =~= seq![x]);
        assert(join_lines(seq![x]) == x);
        assert(join_lines(s.push(x)) == s[0] + seq!['\n'] + x);
    } else {
        lemma_join_push(s.drop_first(), x);
        assert(s.push(x).drop_first() =~= s.drop_first().push(x));
        assert(join_lines(s.push(x)) == s[0] + seq!['\n'] + join_lines(s.drop_first().push(x)));
        assert(s[0] + seq!['\n'] + (join_lines(s.drop_first()) + seq!['\n'] + x) =~= (s[0]
            + seq!['\n'] + join_lines(s.drop_first())) + seq!['\n'] + x);
    }
}

/// The lines of a sequence of rows.
pub open spec fn lines_of(rows: Seq<RowV>) -> Seq<Seq<char>> {
    rows.map_values(|r: RowV| r.1)
}

/// The rendered schedule of a sequence of records: their display lines in
/// display order, joined with newlines.
pub open spec fn render_model(entries: Seq<Entry>) -> Seq<char> {
    join_lines(lines_of(sort_rows(entries.map_values(|e: Entry| row_of(e)))))
}

/// Whether an entry lies on the given date.
pub open spec fn on_date(e: Entry, date: Seq<char>) -> bool {
    e.1 == date
}

/// The entries of `rows` on the given date, in stored order.
pub open spec fn entries_for(rows: Seq<Entry>, date: Seq<char>) -> Seq<Entry> {
    rows.filter(|e: Entry| on_date(e, date))
}

/// Whether at least one entry lies on the given date.
pub open spec fn has_date(rows: Seq<Entry>, date: Seq<char>) -> bool {
    entries_for(rows, date).len() > 0
}

/// The text standing for an empty day.
pub open spec fn none_text() -> Seq<char> {
    seq!['N', 'O', 'N', 'E']
}

/// The agenda for a date: `NONE` when the date has no entry, else the
/// rendered schedule of its entries.
pub open spec fn agenda_model(rows: Seq<Entry>, date: Seq<char>) -> Seq<char> {
    if !has_date(rows, date) {
        none_text()
    } else {
        render_model(entries_for(rows, date))
    }
}

/// Render a batch of records as the day's schedule text.
pub fn render_schedule(records: &Vec<Record>) -> (r: String)
    ensures
        r@ == render_model(recs_view(records@)),
{
    let mut rows: Vec<DisplayRow> = Vec::new();
    let mut i: usize = 0;
    proof {
        assert(rows_view(rows@) =~= recs_view(records@).take(0).map_values(
            |e: Entry| row_of(e),
        ));
    }
    while i < records.len()
        invariant
            i <= records@.len(),
            rows_view(rows@) == recs_view(records@).take(i as int).map_values(
                |e: Entry| row_of(e),
            ),
        decreases records@.len() - i,
    {
        let ghost prev = rows_view(rows@);
        let row = make_row(&records[i]);
        rows.push(row);
        proof {
            assert(rows_view(rows@) =~= prev.push(row_of(records@[i as int]@)));
            assert(recs_view(records@).take(i as int + 1).map_values(|e: Entry| row_of(e)) =~= prev
                .push(row_of(records@[i as int]@)));
        }
        i = i + 1;
    }
    proof {
        assert(recs_view(records@).take(records@.len() as int) =~= recs_view(records@));
    }
    let sorted = sort_display_rows(rows);
    let mut acc = String::new();
    let mut j: usize = 0;
    proof {
        assert(lines_of(rows_view(sorted@)).take(0) =~= Seq::<Seq<char>>::empty());
    }
    while j < sorted.len()
        invariant
            j <= sorted@.len(),
            rows_view(sorted@) == sort_rows(recs_view(records@).map_values(|e: Entry| row_of(e))),
            acc@ == join_lines(lines_of(rows_view(sorted@)).take(j as int)),
        decreases sorted@.len() - j,
    {
        let ghost lines = lines_of(rows_view(sorted@));
        if j > 0 {
            acc.push('\n');
        }
        acc.append(sorted[j].line.as_str());
        proof {
            lemma_join_push(lines.take(j as int), lines[j as int]);
            assert(lines.take(j as int).push(lines[j as int]) =~= lines.take(j as int + 1));
        }
        j = j + 1;
    }
    proof {
        assert(lines_of(rows_view(sorted@)).take(sorted@.len() as int) =~= lines_of(
            rows_view(sorted@),
        ));
    }
    acc
}

/// Law: a date with no entries renders as exactly `NONE`.
pub proof fn lemma_empty_date_renders_none(rows: Seq<Entry>, date: Seq<char>)
    requires
        !has_date(rows, date),
    ensures
        agenda_model(rows, date) == none_text(),
{
}

/// Placing a row into a sequence adds exactly that row to its contents.
proof fn lemma_insert_row_multiset(e: RowV, s: Seq<RowV>)
    ensures
        insert_row(e, s).to_multiset() == s.to_multiset().insert(e),
    decreases s.len(),
{
    broadcast use vstd::seq_lib::group_to_multiset_ensures;
    broadcast use vstd::multiset::group_multiset_axioms;

    if s.len() == 0 {
        assert(insert_row(e, s) =~= s.push(e));
        assert(s.push(e).to_multiset() == s.to_multiset().insert(e));
    } else if row_lt(e, s[0]) {
        assert(insert_row(e, s) =~= s.insert(0, e));
        vstd::seq_lib::to_multiset_insert(s, 0, e);
        assert(s.insert(0, e).to_multiset() == s.to_multiset().insert(e));
    } else {
        lemma_insert_row_multiset(e, s.drop_first());
        let t = insert_row(e, s.drop_first());
        assert(insert_row(e, s) =~= t.insert(0, s[0]));
        vstd::seq_lib::to_multiset_insert(t, 0, s[0]);
        assert(insert_row(e, s).to_multiset() == s.drop_first().to_multiset().insert(e).insert(
            s[0],
        ));
        assert(s =~= s.drop_first().insert(0, s[0]));
        vstd::seq_lib::to_multiset_insert(s.drop_first(), 0, s[0]);
        assert(s.to_multiset() == s.drop_first().to_multiset().insert(s[0]));
        assert(s.drop_first().to_multiset().insert(e).insert(s[0]) =~= s.drop_first().to_multiset()
            .insert(s[0]).insert(e));
    }
}

/// Law: sorting rows into display order keeps exactly the same rows — one
/// displayed row for each record, no more and no fewer.
pub proof fn lemma_sort_rows_multiset(s: Seq<RowV>)
    ensures
        sort_rows(s).to_multiset() == s.to_multiset(),
    decreases s.len(),
{
    broadcast use vstd::seq_lib::group_to_multiset_ensures;

    if s.len() > 0 {
        lemma_sort_rows_multiset(s.drop_last());
        lemma_insert_row_multiset(s.last(), sort_rows(s.drop_last()));
        assert(s.drop_last().push(s.last()) =~= s);
    }
}

/// The non-strict display order: `a` need not come after `b`.
pub open spec fn row_le(a: RowV, b: RowV) -> bool {
    !row_lt(b, a)
}

/// Whether the rows stand pairwise in display order.
pub open spec fn rows_sorted(s: Seq<RowV>) -> bool {
    forall|i: int, j: int| 0 <= i < j < s.len() ==> row_le(s[i], s[j])
}

/// The lexicographic order never holds both ways round.
proof fn lemma_lex_lt_asym(a: Seq<char>, b: Seq<char>)
    requires
        lex_lt(a, b),
    ensures
        !lex_lt(b, a),
    decreases a.len(),
{
    if a.len() > 0 && b.len() > 0 && a[0] == b[0] {
        lemma_lex_lt_asym(a.drop_first(), b.drop_first());
    }
}

/// The lexicographic order chains.
proof fn lemma_lex_lt_trans(a: Seq<char>, b: Seq<char>, c: Seq<char>)
    requires
        lex_lt(a, b),
        lex_lt(b, c),
    ensures
        lex_lt(a, c),
    decreases a.len(),
{
    if a.len() > 0 && b.len() > 0 && c.len() > 0 && a[0] == b[0] && b[0] == c[0] {
        lemma_lex_lt_trans(a.drop_first(), b.drop_first(), c.drop_first());
    }
}

/// The display order never holds both ways round.
proof fn lemma_row_lt_asym(a: RowV, b: RowV)
    requires
        row_lt(a, b),
    ensures
        !row_lt(b, a),
{
    if time_key(a.0) is None && time_key(b.0) is None {
        lemma_lex_lt_asym(a.0, b.0);
    }
}

/// The display order chains.
proof fn lemma_row_lt_trans(a: RowV, b: RowV, c: RowV)
    requires
        row_lt(a, b),
        row_lt(b, c),
    ensures
        row_lt(a, c),
{
    if time_key(a.0) is None && time_key(b.0) is None && time_key(c.0) is None {
        lemma_lex_lt_trans(a.0, b.0, c.0);
    }
}

/// Placing a row into rows in display order keeps them in display order.
proof fn lemma_insert_row_sorted(e: RowV, s: Seq<RowV>)
    requires
        rows_sorted(s),
    ensures
        rows_sorted(insert_row(e, s)),
    decreases s.len(),
{
    broadcast use vstd::seq_lib::group_to_multiset_ensures;

    let r = insert_row(e, s);
    if s.len() == 0 {
        assert(rows_sorted(r));
    } else if row_lt(e, s[0]) {
        assert(r == seq![e] + s);
        assert forall|i: int, j: int| 0 <= i < j < r.len() implies row_le(r[i], r[j]) by {
            if i == 0 {
                if j == 1 {
                    lemma_row_lt_asym(e, s[0]);
                } else {
                    if row_lt(s[j - 1], e) {
                        lemma_row_lt_trans(s[j - 1], e, s[0]);
                        assert(!row_le(s[0], s[j - 1]));
                    }
                }
            }
        }
    } else {
        let rest = s.drop_first();
        assert(rows_sorted(rest));
        lemma_insert_row_sorted(e, rest);
        let t = insert_row(e, rest);
        lemma_insert_row_multiset(e, rest);
        assert(r == seq![s[0]] + t);
        assert forall|i: int, j: int| 0 <= i < j < r.len() implies row_le(r[i], r[j]) by {
            if i == 0 {
                let x = t[j - 1];
                assert(t.contains(x));
                assert(t.to_multiset().count(x) > 0);
                if x != e {
                    assert(rest.to_multiset().count(x) > 0);
                    assert(rest.contains(x));
                    let k = choose|k: int| 0 <= k < rest.len() && rest[k] == x;
                    assert(s[k + 1] == x);
                    assert(row_le(s[0], x));
                }
            }
        }
    }
}

/// Law: a row whose key names a time of day sorts strictly before every row
/// whose key does not — so the all-day marker, which never parses as a time,
/// comes after all timed entries.
pub proof fn lemma_timed_sorts_before_daylong(a: RowV, b: RowV)
    requires
        time_key(a.0) is Some,
        time_key(b.0) is None,
    ensures
        row_lt(a, b),
        !row_lt(b, a),
{
}

/// Law: rows whose keys both name times of day sort chronologically.
pub proof fn lemma_times_sort_chronologically(a: RowV, b: RowV, x: u32, y: u32)
    requires
        time_key(a.0) == Some(x),
        time_key(b.0) == Some(y),
        x < y,
    ensures
        row_lt(a, b),
        !row_lt(b, a),
{
}

/// Law: the displayed rows stand pairwise in display order — times
/// chronologically, with every all-day entry after every timed one.
pub proof fn lemma_sort_rows_sorted(s: Seq<RowV>)
    ensures
        rows_sorted(sort_rows(s)),
    decreases s.len(),
{
    if s.len() > 0 {
        lemma_sort_rows_sorted(s.drop_last());
        lemma_insert_row_sorted(s.last(), sort_rows(s.drop_last()));
    }
}

/// Whether `sub` stands verbatim in `text` starting at position `k`.
pub open spec fn occurs_at(text: Seq<char>, sub: Seq<char>, k: int) -> bool {
    0 <= k && k + sub.len() <= text.len() && text.subrange(k, k + sub.len()) == sub
}

/// Whether `sub` stands verbatim somewhere in `text`.
pub open spec fn occurs(text: Seq<char>, sub: Seq<char>) -> bool {
    exists|k: int| #[trigger] occurs_at(text, sub, k)
}

/// Each joined line stands verbatim in the joined text.
proof fn lemma_join_contains(lines: Seq<Seq<char>>, i: int)
    requires
        0 <= i < lines.len(),
    ensures
        occurs(join_lines(lines), lines[i]),
    decreases i,
{
    let text = join_lines(lines);
    if i == 0 {
        if lines.len() == 1 {
            assert(text.subrange(0, lines[0].len() as int) =~= lines[0]);
            assert(occurs_at(text, lines[0], 0));
        } else {
            assert(text == lines[0] + seq!['\n'] + join_lines(lines.drop_first()));
            assert(text.subrange(0, lines[0].len() as int) =~= lines[0]);
            assert(occurs_at(text, lines[0], 0));
        }
    } else {
        let rest = lines.drop_first();
        let jd = join_lines(rest);
        lemma_join_contains(rest, i - 1);
        let k0 = choose|k: int| #[trigger] occurs_at(jd, rest[i - 1], k);
        assert(rest[i - 1] == lines[i]);
        let k = lines[0].len() + 1 + k0;
        assert(text == lines[0] + seq!['\n'] + jd);
        assert(text.subrange(k, k + lines[i].len() as int) =~= jd.subrange(
            k0,
            k0 + lines[i].len() as int,
        ));
        assert(occurs_at(text, lines[i], k));
    }
}

/// Law: the rendered schedule holds, for every record given to it, that
/// record's display line verbatim — its bracketed identifier and its task
/// text included, as `line_of` spells out.
pub proof fn lemma_render_lists_each_record(entries: Seq<Entry>, i: int)
    requires
        0 <= i < entries.len(),
    ensures
        occurs(render_model(entries), line_of(entries[i])),
{
    broadcast use vstd::seq_lib::group_to_multiset_ensures;

    let rows = entries.map_values(|e: Entry| row_of(e));
    let sorted = sort_rows(rows);
    assert(rows[i] == row_of(entries[i]));
    assert(rows.contains(rows[i]));
    lemma_sort_rows_multiset(rows);
    assert(sorted.to_multiset().count(rows[i]) > 0);
    assert(sorted.contains(rows[i]));
    let j = choose|j: int| 0 <= j < sorted.len() && sorted[j] == rows[i];
    assert(lines_of(sorted)[j] == line_of(entries[i]));
    lemma_join_contains(lines_of(sorted), j);
}

} // verus!
