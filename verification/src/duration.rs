//! The time between two dates: a signed count of days, and the same stretch
//! walked through the calendar in whole years, whole months and days.

use crate::date::{
    days_between, lemma_days_to_next_month, lemma_months_later, lemma_months_later_in_order,
    lemma_order_is_day_number_order, CalendarDay, Date,
};
use vstd::prelude::*;

verus! {

/// The time between two days as the contracts see it.
pub struct Span {
    pub total_days: int,
    pub years: int,
    pub months: int,
    pub days: int,
}

/// The number of whole months that fit between `earlier` and `later`,
/// counted from `earlier` in one go: the months from the one's month to the
/// other's, less one where the day of the month has not been reached yet.
pub open spec fn whole_months(earlier: CalendarDay, later: CalendarDay) -> int {
    let months = 12 * (later.year - earlier.year) + (later.month - earlier.month);
    if earlier.months_later(months).day <= later.day {
        months
    } else {
        months - 1
    }
}

/// The number of whole years that fit between `earlier` and `later`.
pub open spec fn whole_years(earlier: CalendarDay, later: CalendarDay) -> int {
    whole_months(earlier, later) / 12
}

/// The number of whole months, 11 at most, that fit between `reached`, the
/// day that the whole years led to, and `later`.
pub open spec fn months_past_years(reached: CalendarDay, later: CalendarDay) -> int {
    let months = whole_months(reached, later);
    if months < 12 {
        months
    } else {
        11
    }
}

/// The time from `target` to `reference`. The count of days is positive
/// where `target` is the earlier day and negative where it is the later one.
/// Years, months and days are walked from the earlier of the two to the
/// later: as many whole years as fit; from the day so reached as many whole
/// months as fit, 11 at most; and from there the days that are left.
pub open spec fn span_between(reference: CalendarDay, target: CalendarDay) -> Span {
    let (earlier, later) = if target.not_after(reference) {
        (target, reference)
    } else {
        (reference, target)
    };
    let years = whole_years(earlier, later);
    let months = months_past_years(earlier.years_later(years), later);
    Span {
        total_days: reference.day_number() - target.day_number(),
        years,
        months,
        days: later.day_number() - earlier.years_later(years).months_later(months).day_number(),
    }
}

/// The time between a reference date and an event's date.
#[derive(Clone, Copy, Debug, PartialEq, Eq, Structural)]
pub struct DurationResult {
    /// Days from the event to the reference date: positive for an event in
    /// the past, negative for one to come.
    pub total_days: i64,
    pub years: u32,
    pub months: u32,
    pub days: u32,
}

impl View for DurationResult {
    type V = Span;

    open spec fn view(&self) -> Span {
        Span {
            total_days: self.total_days as int,
            years: self.years as int,
            months: self.months as int,
            days: self.days as int,
        }
    }
}

/// The whole months between two days are the most that fit: that many
/// months after the earlier day the later day is not passed, and one month
/// more passes it.
pub proof fn lemma_whole_months_fit(earlier: CalendarDay, later: CalendarDay)
    requires
        earlier.exists_in_calendar(),
        later.exists_in_calendar(),
        earlier.not_after(later),
    ensures
        0 <= whole_months(earlier, later),
        earlier.months_later(whole_months(earlier, later)).not_after(later),
        !earlier.months_later(whole_months(earlier, later) + 1).not_after(later),
{
    let months = 12 * (later.year - earlier.year) + (later.month - earlier.month);
    lemma_months_later(earlier, months);
    lemma_months_later(earlier, months - 1);
    lemma_months_later(earlier, months + 1);
}

/// A number of months fits between two days where it is no more than the
/// whole months between them, and only there.
pub proof fn lemma_months_that_fit(earlier: CalendarDay, later: CalendarDay, n: int)
    requires
        earlier.exists_in_calendar(),
        later.exists_in_calendar(),
        earlier.not_after(later),
    ensures
        earlier.months_later(n).not_after(later) <==> n <= whole_months(earlier, later),
{
    let w = whole_months(earlier, later);
    lemma_whole_months_fit(earlier, later);
    lemma_months_later_in_order(earlier, n, w);
    lemma_months_later_in_order(earlier, w + 1, n);
}

/// The walk between two days, step by step. As many whole years as fit
/// lead to a day of the calendar that is not after the later day, and one
/// year more leads past it. From there as many whole months as fit, 11 at
/// most, lead to a day that is not after the later day either; with fewer
/// than 11 months, one month more leads past it. At most 31 days are left.
pub proof fn lemma_walk(earlier: CalendarDay, later: CalendarDay)
    requires
        earlier.exists_in_calendar(),
        later.exists_in_calendar(),
        earlier.not_after(later),
    ensures
        ({
            let years = whole_years(earlier, later);
            let after_years = earlier.years_later(years);
            let months = months_past_years(after_years, later);
            let after_months = after_years.months_later(months);
            &&& 0 <= years
            &&& after_years.exists_in_calendar()
            &&& after_years.year == earlier.year + years
            &&& after_years.not_after(later)
            &&& !earlier.years_later(years + 1).not_after(later)
            &&& 0 <= months <= 11
            &&& after_months.exists_in_calendar()
            &&& after_months.year <= later.year
            &&& after_months.not_after(later)
            &&& months < 11 ==> !after_years.months_later(months + 1).not_after(later)
            &&& 0 <= later.day_number() - after_months.day_number() <= 31
        }),
{
    let years = whole_years(earlier, later);
    let after_years = earlier.years_later(years);
    let months = months_past_years(after_years, later);
    let after_months = after_years.months_later(months);
    let next_year = earlier.years_later(years + 1);
    lemma_whole_months_fit(earlier, later);
    lemma_months_that_fit(earlier, later, 12 * years);
    lemma_months_that_fit(earlier, later, 12 * (years + 1));
    lemma_months_later(earlier, 12 * years);
    lemma_months_later(earlier, 12 * (years + 1));
    lemma_whole_months_fit(after_years, later);
    lemma_months_that_fit(after_years, later, months);
    lemma_months_that_fit(after_years, later, months + 1);
    lemma_months_later(after_years, months);
    lemma_months_later(after_years, months + 1);
    lemma_order_is_day_number_order(after_months, later);
    let after_next = after_years.months_later(months + 1);
    lemma_days_to_next_month(after_months, after_next);
    if whole_months(after_years, later) < 12 {
        lemma_order_is_day_number_order(after_next, later);
    } else {
        lemma_order_is_day_number_order(next_year, later);
        lemma_days_to_next_month(after_months, next_year);
    }
}

/// `n` whole months after `earlier` the day `later` is not passed.
#[verifier::opaque]
spec fn fits(earlier: CalendarDay, later: CalendarDay, n: int) -> bool {
    earlier.months_later(n).not_after(later)
}

/// The whole months between two days, kept from unfolding while the walk
/// counts.
#[verifier::opaque]
spec fn most(earlier: CalendarDay, later: CalendarDay) -> int {
    whole_months(earlier, later)
}

/// What fits between two days, in the words of the walk: no month at all
/// fits, and a number of months fits where it is no more than the whole
/// months between the days.
proof fn lemma_fits(earlier: CalendarDay, later: CalendarDay, n: int)
    requires
        earlier.exists_in_calendar(),
        later.exists_in_calendar(),
        earlier.not_after(later),
    ensures
        0 <= most(earlier, later),
        fits(earlier, later, n) <==> n <= most(earlier, later),
        most(earlier, later) / 12 <= later.year - earlier.year,
{
    reveal(fits);
    reveal(most);
    lemma_months_that_fit(earlier, later, n);
    lemma_whole_months_fit(earlier, later);
    lemma_months_later(earlier, whole_months(earlier, later));
}

/// Whether `n` whole months after `earlier` the date `later` is not passed.
fn months_fit(earlier: Date, later: Date, n: u32) -> (b: bool)
    requires
        earlier.wf(),
        later.wf(),
    ensures
        b == fits(earlier@, later@, n as int),
{
    proof {
        reveal(fits);
    }
    match earlier.months_later(n) {
        Some(reached) => reached.not_after(later),
        None => false,
    }
}

/// Walks on from `earlier` by whole years while `later` is not passed, and
/// counts them.
fn count_years(earlier: Date, later: Date) -> (years: u32)
    requires
        earlier.wf(),
        later.wf(),
        earlier@.not_after(later@),
    ensures
        years == whole_years(earlier@, later@),
{
    let ghost whole = most(earlier@, later@);
    proof {
        lemma_fits(earlier@, later@, 0);
    }
    let mut years: u32 = 0;
    while months_fit(earlier, later, 12 * (years + 1))
        invariant
            earlier.wf(),
            later.wf(),
            earlier@.not_after(later@),
            whole == most(earlier@, later@),
            12 * years <= whole,
            whole / 12 <= later.year - earlier.year,
        decreases whole - 12 * years,
    {
        proof {
            lemma_fits(earlier@, later@, 12 * (years + 1));
        }
        years = years + 1;
    }
    proof {
        lemma_fits(earlier@, later@, 12 * (years + 1));
        reveal(most);
    }
    years
}

/// Walks on from `reached` by whole months while `later` is not passed,
/// 11 at most, and counts them.
fn count_months(reached: Date, later: Date) -> (months: u32)
    requires
        reached.wf(),
        later.wf(),
        reached@.not_after(later@),
    ensures
        months == months_past_years(reached@, later@),
{
    let ghost whole = most(reached@, later@);
    proof {
        lemma_fits(reached@, later@, 0);
    }
    let mut months: u32 = 0;
    while months < 11 && months_fit(reached, later, months + 1)
        invariant
            reached.wf(),
            later.wf(),
            reached@.not_after(later@),
            whole == most(reached@, later@),
            months <= 11,
            months <= whole,
        decreases 11 - months,
    {
        proof {
            lemma_fits(reached@, later@, months + 1);
        }
        months = months + 1;
    }
    proof {
        lemma_fits(reached@, later@, months + 1);
        reveal(most);
    }
    months
}

/// The time between `reference` and `target`: the signed count of days, and
/// the walk from the earlier date to the later one. The walk goes on by
/// whole years while the later date is not passed; from the date so reached
/// by whole months while the later date is not passed, 11 at most; and
/// counts the days that are left. A year or a month on is the same day of
/// the month, or the month's last day where the month is shorter.
pub fn breakdown(reference: Date, target: Date) -> (result: DurationResult)
    requires
        reference.wf(),
        target.wf(),
    ensures
        result@ == span_between(reference@, target@),
{
    let total_days = days_between(reference, target);
    let (earlier, later) = if target.not_after(reference) {
        (target, reference)
    } else {
        (reference, target)
    };
    proof {
        lemma_walk(earlier@, later@);
    }
    let years = count_years(earlier, later);
    let after_years = earlier.years_later(years).unwrap();
    let months = count_months(after_years, later);
    let after_months = after_years.months_later(months).unwrap();
    let days = days_between(later, after_months);
    DurationResult { total_days, years, months, days: days as u32 }
}

} // verus!
