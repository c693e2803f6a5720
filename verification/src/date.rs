//! Calendar dates of the proleptic Gregorian calendar: which dates exist,
//! how they are ordered and numbered, and how a date moves forward by whole
//! months and by days.

use chrono::Datelike;
use vstd::prelude::*;

verus! {

/// The earliest year a [`Date`] may lie in.
pub const MIN_YEAR: i32 = -262_143;

/// The latest year a [`Date`] may lie in.
pub const MAX_YEAR: i32 = 262_142;

/// Whether year `y` has a 29th of February.
pub open spec fn is_leap_year(y: int) -> bool {
    y % 4 == 0 && (y % 100 != 0 || y % 400 == 0)
}

/// The number of days of month `m` (1 to 12) in year `y`.
pub open spec fn days_in_month(y: int, m: int) -> int {
    if m == 2 {
        if is_leap_year(y) {
            29
        } else {
            28
        }
    } else if m == 4 || m == 6 || m == 9 || m == 11 {
        30
    } else {
        31
    }
}

/// The number of days of year `y` that lie before the first of month `m`.
pub open spec fn days_before_month(y: int, m: int) -> int
    decreases m,
{
    if m <= 1 {
        0
    } else {
        days_before_month(y, m - 1) + days_in_month(y, m - 1)
    }
}

/// The number of days from the first of January of year 1 to the first of
/// January of year `y`; negative for earlier years.
pub open spec fn days_before_year(y: int) -> int {
    365 * (y - 1) + (y - 1) / 4 - (y - 1) / 100 + (y - 1) / 400
}

/// A day of the calendar as the contracts see it: year, month and day of the
/// month as mathematical integers, so that no year is out of reach.
pub struct CalendarDay {
    pub year: int,
    pub month: int,
    pub day: int,
}

impl CalendarDay {
    /// The month and the day of the month exist in the calendar.
    pub open spec fn exists_in_calendar(self) -> bool {
        &&& 1 <= self.month <= 12
        &&& 1 <= self.day <= days_in_month(self.year, self.month)
    }

    /// The number of the day, counted from the first of January of year 1,
    /// which has number 1.
    pub open spec fn day_number(self) -> int {
        days_before_year(self.year) + days_before_month(self.year, self.month) + self.day
    }

    /// `self` is `other` or an earlier day.
    pub open spec fn not_after(self, other: CalendarDay) -> bool {
        self.year < other.year || (self.year == other.year && (self.month < other.month || (
        self.month == other.month && self.day <= other.day)))
    }

    /// The day `n` whole months after `self`: the same day of the month, or
    /// the last day of the month reached where that month is shorter.
    pub open spec fn months_later(self, n: int) -> CalendarDay {
        let months = self.month - 1 + n;
        let year = self.year + months / 12;
        let month = months % 12 + 1;
        let length = days_in_month(year, month);
        CalendarDay { year, month, day: if self.day <= length { self.day } else { length } }
    }

    /// The day after `self`.
    pub open spec fn next_day(self) -> CalendarDay {
        if self.day < days_in_month(self.year, self.month) {
            CalendarDay { day: self.day + 1, ..self }
        } else if self.month < 12 {
            CalendarDay { year: self.year, month: self.month + 1, day: 1 }
        } else {
            CalendarDay { year: self.year + 1, month: 1, day: 1 }
        }
    }

    /// The day `n` whole years after `self`: the same day of the same month,
    /// or the 28th of February for a 29th in a year that has none.
    pub open spec fn years_later(self, n: int) -> CalendarDay {
        self.months_later(12 * n)
    }

    /// The day reached from `self` by walking `years` whole years on, from
    /// the day so reached `months` whole months on, and from there `days`
    /// days.
    pub open spec fn walked(self, years: int, months: int, days: nat) -> CalendarDay {
        self.years_later(years).months_later(months).days_later(days)
    }

    /// The day `n` days after `self`, reached one day at a time.
    pub open spec fn days_later(self, n: nat) -> CalendarDay
        decreases n,
    {
        if n == 0 {
            self
        } else {
            self.days_later((n - 1) as nat).next_day()
        }
    }
}

/// A calendar date: year, month and day of the month, with no time of day.
#[derive(Clone, Copy, Debug, PartialEq, Eq, Structural)]
pub struct Date {
    pub year: i32,
    pub month: u32,
    pub day: u32,
}

impl View for Date {
    type V = CalendarDay;

    open spec fn view(&self) -> CalendarDay {
        CalendarDay { year: self.year as int, month: self.month as int, day: self.day as int }
    }
}

impl Date {
    /// The date exists in the calendar and its year lies in the supported
    /// range, from [`MIN_YEAR`] to [`MAX_YEAR`].
    pub open spec fn wf(self) -> bool {
        &&& self@.exists_in_calendar()
        &&& MIN_YEAR <= self.year <= MAX_YEAR
    }

    /// The date of the given year, month and day, where the calendar has
    /// such a day and the year is supported.
    pub fn new(year: i32, month: u32, day: u32) -> (date: Option<Date>)
        ensures
            date == if (Date { year, month, day }).wf() {
                Some(Date { year, month, day })
            } else {
                None
            },
    {
        if year < MIN_YEAR || year > MAX_YEAR || month < 1 || month > 12 || day < 1 {
            return None;
        }
        if day > month_length(year, month) {
            return None;
        }
        Some(Date { year, month, day })
    }

    /// Whether `self` is `other` or an earlier day.
    pub fn not_after(self, other: Date) -> (b: bool)
        ensures
            b == self@.not_after(other@),
    {
        self.year < other.year || (self.year == other.year && (self.month < other.month || (
        self.month == other.month && self.day <= other.day)))
    }

    /// The date `n` whole months after `self`, with the day of the month cut
    /// to the length of the month reached; `None` where that date lies past
    /// the supported years.
    pub fn months_later(self, n: u32) -> (later: Option<Date>)
        requires
            self.wf(),
        ensures
            match later {
                Some(date) => date.wf() && date@ == self@.months_later(n as int),
                None => self@.months_later(n as int).year > MAX_YEAR,
            },
    {
        let months: i64 = self.month as i64 - 1 + n as i64;
        let year: i64 = self.year as i64 + months / 12;
        if year > MAX_YEAR as i64 {
            return None;
        }
        let year: i32 = year as i32;
        let month: u32 = (months % 12) as u32 + 1;
        let length: u32 = month_length(year, month);
        let day: u32 = if self.day <= length { self.day } else { length };
        Some(Date { year, month, day })
    }

    /// The day after `self`; `None` after the last day of the supported
    /// years.
    pub fn next_day(self) -> (next: Option<Date>)
        requires
            self.wf(),
        ensures
            match next {
                Some(date) => date.wf() && date@ == self@.next_day(),
                None => self@.next_day().year > MAX_YEAR,
            },
    {
        if self.day < month_length(self.year, self.month) {
            Some(Date { year: self.year, month: self.month, day: self.day + 1 })
        } else if self.month < 12 {
            Some(Date { year: self.year, month: self.month + 1, day: 1 })
        } else if self.year < MAX_YEAR {
            Some(Date { year: self.year + 1, month: 1, day: 1 })
        } else {
            None
        }
    }
}

impl Date {
    /// The date `n` days after `self`; `None` where that date lies past the
    /// supported years.
    pub fn days_later(self, n: u32) -> (later: Option<Date>)
        requires
            self.wf(),
        ensures
            match later {
                Some(date) => date.wf() && date@ == self@.days_later(n as nat),
                None => self@.days_later(n as nat).year > MAX_YEAR,
            },
    {
        let mut date = self;
        let mut done: u32 = 0;
        while done < n
            invariant
                done <= n,
                self.wf(),
                date.wf(),
                date@ == self@.days_later(done as nat),
            decreases n - done,
        {
            match date.next_day() {
                Some(next) => {
                    date = next;
                },
                None => {
                    proof {
                        lemma_years_do_not_go_back(self@, (done + 1) as nat, n as nat);
                    }
                    return None;
                },
            }
            done = done + 1;
        }
        Some(date)
    }

    /// The date `n` whole years after `self`, a 29th of February cut to the
    /// 28th in a year that has none; `None` where that date lies past the
    /// supported years.
    pub fn years_later(self, n: u32) -> (later: Option<Date>)
        requires
            self.wf(),
        ensures
            match later {
                Some(date) => date.wf() && date@ == self@.years_later(n as int),
                None => self@.years_later(n as int).year > MAX_YEAR,
            },
    {
        let months: u64 = 12 * (n as u64);
        if months > u32::MAX as u64 {
            return None;
        }
        self.months_later(months as u32)
    }

    /// The date reached from `self` by walking `years` whole years on, from
    /// the date so reached `months` whole months on, and from there `days`
    /// days; `None` where the walk leads past the supported years.
    pub fn walked(self, years: u32, months: u32, days: u32) -> (reached: Option<Date>)
        requires
            self.wf(),
        ensures
            match reached {
                Some(date) => date.wf() && date@ == self@.walked(
                    years as int,
                    months as int,
                    days as nat,
                ),
                None => self@.walked(years as int, months as int, days as nat).year > MAX_YEAR,
            },
    {
        proof {
            let after_years = self@.years_later(years as int);
            lemma_months_later(self@, 12 * years);
            lemma_months_later(after_years, months as int);
            lemma_years_do_not_go_back(after_years.months_later(months as int), 0, days as nat);
        }
        match self.years_later(years) {
            Some(after_years) => match after_years.months_later(months) {
                Some(after_months) => after_months.days_later(days),
                None => None,
            },
            None => None,
        }
    }
}

/// Whether year `year` has a 29th of February.
pub fn leap_year(year: i32) -> (leap: bool)
    ensures
        leap == is_leap_year(year as int),
{
    year % 4 == 0 && (year % 100 != 0 || year % 400 == 0)
}

/// The number of days of month `month` in year `year`.
pub fn month_length(year: i32, month: u32) -> (days: u32)
    requires
        1 <= month <= 12,
    ensures
        days == days_in_month(year as int, month as int),
{
    if month == 2 {
        if leap_year(year) {
            29
        } else {
            28
        }
    } else if month == 4 || month == 6 || month == 9 || month == 11 {
        30
    } else {
        31
    }
}

/// What `chrono::NaiveDate::parse_from_str` makes of `text` under the format
/// `%Y-%m-%d`: the year, month and day that it reads, or the text of its
/// complaint.
pub uninterp spec fn date_of_text(text: Seq<char>) -> Result<(int, int, int), Seq<char>>;

/// What `chrono::NaiveDate::format` writes for a date under the format
/// `%B %-d, %Y -`: the month's name, the day, the year and a dash.
pub uninterp spec fn long_date(year: int, month: int, day: int) -> Seq<char>;

/// Calls `chrono::NaiveDate::parse_from_str` with the format `%Y-%m-%d`.
/// Trusted: the outcome depends on the text alone, a date that comes back
/// exists in the calendar and lies in the supported years, and a failure
/// comes back as the text that chrono's error displays.
#[verifier::external_body]
pub(crate) fn parse_date(text: &str) -> (parsed: Result<Date, String>)
    ensures
        match parsed {
            Ok(date) => date.wf() && date_of_text(text@) == Ok::<(int, int, int), Seq<char>>(
                (date.year as int, date.month as int, date.day as int),
            ),
            Err(complaint) => date_of_text(text@) == Err::<(int, int, int), Seq<char>>(
                complaint@,
            ),
        },
{
    match chrono::NaiveDate::parse_from_str(text, "%Y-%m-%d") {
        Ok(d) => Ok(Date { year: d.year(), month: d.month(), day: d.day() }),
        Err(e) => Err(e.to_string()),
    }
}

/// Calls `chrono::NaiveDate::format` with the format `%B %-d, %Y -`.
/// Trusted: the text depends on the date alone.
#[verifier::external_body]
pub(crate) fn format_date(date: Date) -> (text: String)
    requires
        date.wf(),
    ensures
        text@ == long_date(date.year as int, date.month as int, date.day as int),
{
    chrono::NaiveDate::from_ymd_opt(date.year, date.month, date.day)
        .unwrap()
        .format("%B %-d, %Y -")
        .to_string()
}

/// Subtracts two dates with chrono's `NaiveDate - NaiveDate` and reads the
/// difference with `TimeDelta::num_days`.
/// Trusted: the result is the number of days from `to` on to `from` in the
/// proleptic Gregorian calendar, negative where `from` is the earlier one.
#[verifier::external_body]
pub(crate) fn days_between(from: Date, to: Date) -> (days: i64)
    requires
        from.wf(),
        to.wf(),
    ensures
        days == from@.day_number() - to@.day_number(),
{
    let a = chrono::NaiveDate::from_ymd_opt(from.year, from.month, from.day).unwrap();
    let b = chrono::NaiveDate::from_ymd_opt(to.year, to.month, to.day).unwrap();
    (a - b).num_days()
}

/// From one first of January to the next lie 365 days, or 366 in a leap
/// year.
pub proof fn lemma_year_length(y: int)
    ensures
        days_before_year(y + 1) == days_before_year(y) + 365 + if is_leap_year(y) {
            1int
        } else {
            0int
        },
{
    assert(y / 4 - (y - 1) / 4 == if y % 4 == 0 { 1int } else { 0int });
    assert(y / 100 - (y - 1) / 100 == if y % 100 == 0 { 1int } else { 0int });
    assert(y / 400 - (y - 1) / 400 == if y % 400 == 0 { 1int } else { 0int });
    assert(y % 400 == 0 ==> y % 100 == 0) by {
        assert(y == 400 * (y / 400) + y % 400);
        assert(y == 100 * (y / 100) + y % 100);
        if y % 400 == 0 {
            assert(y == 100 * (4 * (y / 400)));
        }
    }
    assert(y % 100 == 0 ==> y % 4 == 0) by {
        assert(y == 100 * (y / 100) + y % 100);
        if y % 100 == 0 {
            assert(y == 4 * (25 * (y / 100)));
        }
    }
}

/// A later year begins at least 365 days later for each year in between.
pub proof fn lemma_years_in_order(y1: int, y2: int)
    requires
        y1 <= y2,
    ensures
        days_before_year(y1) + 365 * (y2 - y1) <= days_before_year(y2),
    decreases y2 - y1,
{
    if y1 < y2 {
        lemma_years_in_order(y1, y2 - 1);
        lemma_year_length(y2 - 1);
    }
}

/// The days before a month, month by month, and the length of the year.
pub proof fn lemma_days_before_month(y: int, m: int)
    requires
        1 <= m <= 13,
    ensures
        0 <= days_before_month(y, m),
        m <= 12 ==> days_before_month(y, m + 1) == days_before_month(y, m) + days_in_month(y, m),
        days_before_month(y, 13) == 365 + if is_leap_year(y) {
            1int
        } else {
            0int
        },
        forall|k: int| m <= k <= 13 ==> days_before_month(y, m) <= #[trigger] days_before_month(y, k),
{
    reveal_with_fuel(days_before_month, 14);
}

/// A day of the calendar lies within its year: its number is past the
/// year's beginning and not past the next year's.
pub proof fn lemma_day_within_year(d: CalendarDay)
    requires
        d.exists_in_calendar(),
    ensures
        days_before_year(d.year) < d.day_number() <= days_before_year(d.year + 1),
{
    lemma_days_before_month(d.year, d.month);
    lemma_days_before_month(d.year, d.month + 1);
    lemma_year_length(d.year);
}

/// The calendar's order is the order of the day numbers, so two days of the
/// calendar with one number are one day.
pub proof fn lemma_order_is_day_number_order(a: CalendarDay, b: CalendarDay)
    requires
        a.exists_in_calendar(),
        b.exists_in_calendar(),
    ensures
        a.not_after(b) <==> a.day_number() <= b.day_number(),
        a.day_number() == b.day_number() ==> a == b,
{
    lemma_day_within_year(a);
    lemma_day_within_year(b);
    if a.year < b.year {
        lemma_years_in_order(a.year + 1, b.year);
    } else if b.year < a.year {
        lemma_years_in_order(b.year + 1, a.year);
    } else if a.month < b.month {
        lemma_days_before_month(a.year, a.month);
        lemma_days_before_month(a.year, a.month + 1);
    } else if b.month < a.month {
        lemma_days_before_month(a.year, b.month);
        lemma_days_before_month(a.year, b.month + 1);
    }
}

/// The day after a day of the calendar is a day of the calendar, and its
/// number is one more.
pub proof fn lemma_next_day(d: CalendarDay)
    requires
        d.exists_in_calendar(),
    ensures
        d.next_day().exists_in_calendar(),
        d.next_day().day_number() == d.day_number() + 1,
{
    lemma_days_before_month(d.year, d.month);
    lemma_year_length(d.year);
    reveal_with_fuel(days_before_month, 2);
}

/// `n` days after a day of the calendar lies the day whose number is `n`
/// more.
pub proof fn lemma_days_later(d: CalendarDay, n: nat)
    requires
        d.exists_in_calendar(),
    ensures
        d.days_later(n).exists_in_calendar(),
        d.days_later(n).day_number() == d.day_number() + n,
    decreases n,
{
    if n > 0 {
        lemma_days_later(d, (n - 1) as nat);
        lemma_next_day(d.days_later((n - 1) as nat));
    }
}

/// Days that are walked on never lead back to an earlier year.
pub proof fn lemma_years_do_not_go_back(d: CalendarDay, n1: nat, n2: nat)
    requires
        d.exists_in_calendar(),
        n1 <= n2,
    ensures
        d.days_later(n1).year <= d.days_later(n2).year,
    decreases n2,
{
    if n1 < n2 {
        lemma_years_do_not_go_back(d, n1, (n2 - 1) as nat);
    }
}

/// Whole months after a day of the calendar lies a day of the calendar, in
/// the month that many months on, with the day of the month kept or cut to
/// the month's length.
pub proof fn lemma_months_later(d: CalendarDay, n: int)
    requires
        d.exists_in_calendar(),
    ensures
        d.months_later(n).exists_in_calendar(),
        12 * d.months_later(n).year + d.months_later(n).month == 12 * d.year + d.month + n,
        d.months_later(n).day <= d.day,
        d.months_later(0) == d,
{
}

/// From a day of one month to a day of the next lie the days that are left
/// of the one month and those that are gone of the other.
pub proof fn lemma_days_to_next_month(a: CalendarDay, b: CalendarDay)
    requires
        a.exists_in_calendar(),
        b.exists_in_calendar(),
        12 * b.year + b.month == 12 * a.year + a.month + 1,
    ensures
        b.day_number() - a.day_number() == days_in_month(a.year, a.month) - a.day + b.day,
{
    lemma_days_before_month(a.year, a.month);
    lemma_year_length(a.year);
    reveal_with_fuel(days_before_month, 2);
}

/// More months lead to a later day: the days reached are in the order of
/// the numbers of months.
pub proof fn lemma_months_later_in_order(d: CalendarDay, n1: int, n2: int)
    requires
        d.exists_in_calendar(),
    ensures
        n1 <= n2 <==> d.months_later(n1).not_after(d.months_later(n2)),
{
    lemma_months_later(d, n1);
    lemma_months_later(d, n2);
}

} // verus!
