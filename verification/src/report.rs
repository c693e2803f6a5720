//! The report: one row of cells for each event, telling its date and how
//! long ago or how far ahead it lies, and the rows laid out as a table.

use crate::config::{Event, Reminders};
use crate::date::{format_date, long_date, CalendarDay, Date};
use crate::duration::{breakdown, span_between, DurationResult, Span};
use crate::phrase::{
    days_label, days_label_text, months_comma, near_anniversary, numeral, numeral_text, suffix,
    suffix_text, unit_text, unit_word, years_comma,
};
use crate::table::{table_cells, table_text, write_table, Alignment};
use crate::text::texts;
use vstd::prelude::*;
use vstd::string::StringExecFns;

verus! {

/// Switches a terminal to reverse video.
pub const REVERSE: &'static str = "\x1b[7m";

/// Switches a terminal back to its normal display.
pub const RESET: &'static str = "\x1b[0m";

/// How the twelve columns of the report are aligned.
pub open spec fn report_columns() -> Seq<Alignment> {
    seq![
        Alignment::Plain,
        Alignment::Left,
        Alignment::Right,
        Alignment::Right,
        Alignment::Left,
        Alignment::Right,
        Alignment::Left,
        Alignment::Right,
        Alignment::Left,
        Alignment::Left,
        Alignment::Left,
        Alignment::Plain,
    ]
}

/// The cells of an event's row: the switch to reverse video for an event
/// near an anniversary, the name with a colon, the date, then numeral and
/// unit word for the years, the months and the days, then whether the event
/// is over or to come, the count of days in brackets, and the switch back.
pub open spec fn row_text(name: Seq<char>, date: Seq<char>, span: Span) -> Seq<Seq<char>> {
    seq![
        if near_anniversary(span) { REVERSE@ } else { Seq::empty() },
        name + ":"@,
        date,
        numeral_text(span.years as nat),
        unit_text(span.years as nat, "year"@, years_comma(span)),
        numeral_text(span.months as nat),
        unit_text(span.months as nat, "month"@, months_comma(span)),
        numeral_text(span.days as nat),
        unit_text(span.days as nat, "day"@, false),
        suffix_text(span.total_days),
        days_label_text(span.total_days),
        if near_anniversary(span) { RESET@ } else { Seq::empty() },
    ]
}

/// The row of an event on the day `now`.
pub open spec fn event_row_text(now: CalendarDay, name: Seq<char>, date: CalendarDay) -> Seq<
    Seq<char>,
> {
    row_text(name, long_date(date.year, date.month, date.day), span_between(now, date))
}

/// The rows of the first `n` events on the day `now`.
pub open spec fn report_cells(now: CalendarDay, reminders: Reminders, n: nat) -> Seq<
    Seq<Seq<char>>,
> {
    Seq::new(
        n,
        |i: int| event_row_text(now, reminders.events@[i].name@, reminders.events@[i].date@),
    )
}

/// How the twelve columns of the report are aligned.
pub fn columns() -> (columns: Vec<Alignment>)
    ensures
        columns@ == report_columns(),
{
    let mut columns: Vec<Alignment> = Vec::new();
    columns.push(Alignment::Plain);
    columns.push(Alignment::Left);
    columns.push(Alignment::Right);
    columns.push(Alignment::Right);
    columns.push(Alignment::Left);
    columns.push(Alignment::Right);
    columns.push(Alignment::Left);
    columns.push(Alignment::Right);
    columns.push(Alignment::Left);
    columns.push(Alignment::Left);
    columns.push(Alignment::Left);
    columns.push(Alignment::Plain);
    assert(columns@ =~= report_columns());
    columns
}

/// The cells of the row of an event with the given name, whose date is
/// written as `date` and lies `duration` away.
pub fn row_cells(name: &str, date: String, duration: DurationResult) -> (cells: Vec<String>)
    ensures
        texts(cells@) == row_text(name@, date@, duration@),
{
    let near = duration.is_near_anniversary();
    let some_days = duration.days != 0;
    let some_months = duration.months != 0;
    let mut title = String::from_str(name);
    title.append(":");
    let mut cells: Vec<String> = Vec::new();
    cells.push(if near { String::from_str(REVERSE) } else { String::new() });
    cells.push(title);
    cells.push(date);
    cells.push(numeral(duration.years));
    cells.push(unit_word(duration.years, "year", duration.years != 0 && (some_months || some_days)));
    cells.push(numeral(duration.months));
    cells.push(unit_word(duration.months, "month", some_months && some_days));
    cells.push(numeral(duration.days));
    cells.push(unit_word(duration.days, "day", false));
    cells.push(suffix(duration.total_days));
    cells.push(days_label(duration.total_days));
    cells.push(if near { String::from_str(RESET) } else { String::new() });
    assert(texts(cells@) =~= row_text(name@, date@, duration@));
    cells
}

/// The row of `event` on the day `now`.
pub fn event_row(now: Date, event: &Event) -> (cells: Vec<String>)
    requires
        now.wf(),
        event.date.wf(),
    ensures
        texts(cells@) == event_row_text(now@, event.name@, event.date@),
{
    let date = format_date(event.date);
    let duration = breakdown(now, event.date);
    row_cells(event.name.as_str(), date, duration)
}

/// The rows of all events on the day `now`, in the order of the events.
pub fn report_rows(now: Date, reminders: &Reminders) -> (rows: Vec<Vec<String>>)
    requires
        now.wf(),
        reminders.dated(),
    ensures
        table_cells(rows@) == report_cells(now@, *reminders, reminders.events@.len()),
{
    let mut rows: Vec<Vec<String>> = Vec::new();
    let mut n: usize = 0;
    while n < reminders.events.len()
        invariant
            n <= reminders.events@.len(),
            now.wf(),
            reminders.dated(),
            rows@.len() == n,
            table_cells(rows@) == report_cells(now@, *reminders, n as nat),
        decreases reminders.events@.len() - n,
    {
        let ghost before = table_cells(rows@);
        let row = event_row(now, &reminders.events[n]);
        assert(texts(row@).len() == 12);
        rows.push(row);
        n = n + 1;
        assert(table_cells(rows@) =~= report_cells(now@, *reminders, n as nat)) by {
            assert forall|r: int| 0 <= r < n implies table_cells(rows@)[r] == report_cells(
                now@,
                *reminders,
                n as nat,
            )[r] by {
                if r < n - 1 {
                    assert(table_cells(rows@)[r] =~= before[r]);
                } else {
                    assert(table_cells(rows@)[r] =~= texts(row@));
                }
            }
        }
    }
    rows
}

/// The report on the day `now`: the table of all events' rows.
pub fn report(now: Date, reminders: &Reminders) -> (text: String)
    requires
        now.wf(),
        reminders.dated(),
    ensures
        text@ == table_text(
            report_columns(),
            report_cells(now@, *reminders, reminders.events@.len()),
        ),
{
    let columns = columns();
    let rows = report_rows(now, reminders);
    let mut text = String::new();
    assert forall|r: int| 0 <= r < table_cells(rows@).len() implies (#[trigger] table_cells(
        rows@,
    )[r]).len() == columns@.len() by {
        assert(table_cells(rows@)[r] == event_row_text(
            now@,
            reminders.events@[r].name@,
            reminders.events@[r].date@,
        ));
    }
    write_table(&mut text, columns.as_slice(), rows.as_slice());
    assert(text@ =~= table_text(
        report_columns(),
        report_cells(now@, *reminders, reminders.events@.len()),
    ));
    text
}

} // verus!
