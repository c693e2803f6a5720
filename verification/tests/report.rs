use reminders::config::{Event, Reminders};
use reminders::date::Date;
use reminders::duration::{breakdown, DurationResult};
use reminders::phrase::{days_label, decimal, numeral, suffix, unit_word};
use reminders::report::{columns, event_row, report, report_rows, row_cells, RESET, REVERSE};
use reminders::table::Alignment::{Left, Plain, Right};
use reminders::table::rows_fit;

fn date(year: i32, month: u32, day: u32) -> Date {
    Date::new(year, month, day).unwrap()
}

fn duration(total_days: i64, years: u32, months: u32, days: u32) -> DurationResult {
    DurationResult { total_days, years, months, days }
}

fn cells(d: DurationResult) -> Vec<String> {
    row_cells("x", "then".to_owned(), d)
}

#[test]
fn decimal_digits() {
    assert_eq!(decimal(0), "0");
    assert_eq!(decimal(7), "7");
    assert_eq!(decimal(10), "10");
    assert_eq!(decimal(1234567890), "1234567890");
    assert_eq!(decimal(u64::MAX), "18446744073709551615");
}

#[test]
fn pluralization() {
    assert_eq!(numeral(1) + " " + &unit_word(1, "year", false), "1 year");
    assert_eq!(numeral(0), "");
    assert_eq!(unit_word(0, "year", false), "");
    assert_eq!(unit_word(0, "year", true), "");
    assert_eq!(numeral(2), "2");
    assert_eq!(unit_word(2, "year", false), "years");
    assert_eq!(unit_word(1, "month", true), "month,");
    assert_eq!(unit_word(11, "month", true), "months,");
    assert_eq!(unit_word(1, "day", false), "day");
    assert_eq!(unit_word(30, "day", false), "days");
    assert_eq!(numeral(524_285), "524285");
}

#[test]
fn suffix_by_sign() {
    assert_eq!(suffix(1), "ago");
    assert_eq!(suffix(i64::MAX), "ago");
    assert_eq!(suffix(-1), "to go");
    assert_eq!(suffix(i64::MIN), "to go");
    assert_eq!(suffix(0), "");
}

#[test]
fn days_label_cases() {
    assert_eq!(days_label(0), "(today)");
    assert_eq!(days_label(1), "(yesterday)");
    assert_eq!(days_label(-1), "(tomorrow)");
    assert_eq!(days_label(2), "(2 days)");
    assert_eq!(days_label(-2), "(2 days)");
    assert_eq!(days_label(6), "(6 days)");
    assert_eq!(days_label(1234), "(1234 days)");
    assert_eq!(days_label(i64::MAX), "(9223372036854775807 days)");
    assert_eq!(days_label(i64::MIN), "(9223372036854775808 days)");
}

#[test]
fn near_anniversary_is_months_0_or_11() {
    for months in 0..12 {
        assert_eq!(duration(400, 1, months, 3).is_near_anniversary(), months == 0 || months == 11);
    }
}

#[test]
fn commas_follow_the_units_that_are_there() {
    let words = |d: DurationResult| {
        let c = cells(d);
        [&c[3..9]].concat().join(" ")
    };
    assert_eq!(words(duration(1, 2, 3, 1)), "2 years, 3 months, 1 day");
    assert_eq!(words(duration(1, 2, 3, 0)), "2 years, 3 months  ");
    assert_eq!(words(duration(1, 2, 0, 4)), "2 years,   4 days");
    assert_eq!(words(duration(1, 0, 3, 4)), "  3 months, 4 days");
    assert_eq!(words(duration(1, 1, 0, 0)), "1 year    ");
    assert_eq!(words(duration(1, 0, 1, 0)), "  1 month  ");
    assert_eq!(words(duration(1, 0, 0, 1)), "    1 day");
    assert_eq!(words(duration(0, 0, 0, 0)), "     ");
    assert_eq!(words(duration(1, 1, 1, 1)), "1 year, 1 month, 1 day");
}

#[test]
fn row_cells_in_their_columns() {
    let row = row_cells("birthday", "June 25, 2018 -".to_owned(), duration(-40, 0, 1, 9));
    assert_eq!(
        row,
        vec!["", "birthday:", "June 25, 2018 -", "", "", "1", "month,", "9", "days", "to go", "(40 days)", ""]
    );
    let row = row_cells("", String::new(), duration(700, 1, 11, 0));
    assert_eq!(
        row,
        vec![REVERSE, ":", "", "1", "year,", "11", "months", "", "", "ago", "(700 days)", RESET]
    );
    assert_eq!(REVERSE, "\x1b[7m");
    assert_eq!(RESET, "\x1b[0m");
}

#[test]
fn twelve_columns() {
    assert_eq!(
        columns(),
        vec![Plain, Left, Right, Right, Left, Right, Left, Right, Left, Left, Left, Plain]
    );
    assert_eq!(columns().len(), 12);
}

#[test]
fn end_to_end_six_days_ago() {
    let now = date(2018, 7, 1);
    let event = Event::from_string("foo:2018-06-25".to_owned()).unwrap();
    let d = breakdown(now, event.date);
    assert_eq!((d.years, d.months, d.days), (0, 0, 6));
    let row = event_row(now, &event);
    assert_eq!(row[1], "foo:");
    assert_eq!(row[2], "June 25, 2018 -");
    assert_eq!(row[3], "");
    assert_eq!(row[4], "");
    assert_eq!(row[5], "");
    assert_eq!(row[6], "");
    assert_eq!(row[7], "6");
    assert_eq!(row[8], "days");
    assert_eq!(row[9], "ago");
    assert_eq!(row[10], "(6 days)");
    assert_eq!(row[0], REVERSE);
    assert_eq!(row[11], RESET);
}

#[test]
fn end_to_end_tomorrow() {
    let now = date(2018, 12, 31);
    let event = Event { name: "new year".to_owned(), date: now.next_day().unwrap() };
    let row = event_row(now, &event);
    assert_eq!(row[10], "(tomorrow)");
    assert_eq!(row[9], "to go");
    assert_eq!(row[2], "January 1, 2019 -");
    assert_eq!(&row[3..9], ["", "", "", "", "1", "day"]);
}

#[test]
fn end_to_end_yesterday_and_today() {
    let now = date(2020, 3, 1);
    let row = event_row(now, &Event { name: "leap day".to_owned(), date: date(2020, 2, 29) });
    assert_eq!(row[10], "(yesterday)");
    assert_eq!(row[9], "ago");
    let row = event_row(now, &Event { name: "now".to_owned(), date: now });
    assert_eq!(row[10], "(today)");
    assert_eq!(row[9], "");
    assert_eq!(&row[3..9], ["", "", "", "", "", ""]);
}

#[test]
fn dates_are_written_out() {
    let now = date(2000, 1, 1);
    let text = |d: Date| event_row(now, &Event { name: String::new(), date: d })[2].clone();
    assert_eq!(text(date(2018, 6, 25)), "June 25, 2018 -");
    assert_eq!(text(date(1999, 12, 1)), "December 1, 1999 -");
    assert_eq!(text(date(814, 1, 28)), "January 28, 0814 -");
    assert_eq!(text(date(12345, 9, 30)), "September 30, +12345 -");
    assert_eq!(text(date(-44, 3, 15)), "March 15, -0044 -");
}

#[test]
fn report_of_a_list() {
    let now = date(2018, 7, 1);
    let reminders = Reminders {
        events: vec![
            Event { name: "foo".to_owned(), date: date(2018, 6, 25) },
            Event { name: "wedding".to_owned(), date: date(2010, 3, 13) },
            Event { name: "launch".to_owned(), date: date(2019, 9, 2) },
            Event { name: "today".to_owned(), date: now },
        ],
    };
    let rows = report_rows(now, &reminders);
    assert_eq!(rows.len(), 4);
    assert!(rows_fit(&columns(), &rows));
    assert_eq!(rows[1], event_row(now, &reminders.events[1]));
    assert_eq!(
        report(now, &reminders),
        "\x1b[7m foo:         June 25, 2018 -                     6 days ago   (6 days)    \x1b[0m \n\
         \u{20}wedding:    March 13, 2010 - 8 years, 3 months, 18 days ago   (3032 days)  \n\
         \u{20}launch:  September 2, 2019 - 1 year,  2 months,  1 day  to go (428 days)   \n\
         \x1b[7m today:        July 1, 2018 -                                  (today)     \x1b[0m \n"
    );
}

#[test]
fn report_of_an_empty_list() {
    let reminders = Reminders { events: vec![] };
    assert_eq!(report(date(2018, 7, 1), &reminders), "");
    assert!(report_rows(date(2018, 7, 1), &reminders).is_empty());
}
