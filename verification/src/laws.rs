//! What holds of the time between any two days of the calendar.

use crate::date::{
    is_leap_year, lemma_days_later, lemma_days_to_next_month, lemma_months_later,
    lemma_order_is_day_number_order, CalendarDay,
};
use crate::duration::{lemma_months_that_fit, lemma_walk, span_between, Span};
use crate::phrase::{days_label_text, suffix_text};
use vstd::prelude::*;

verus! {

/// Taken the other way round, the count of days between two days changes
/// its sign and nothing else.
pub proof fn lemma_total_days_reversed(a: CalendarDay, b: CalendarDay)
    requires
        a.exists_in_calendar(),
        b.exists_in_calendar(),
    ensures
        span_between(a, b).total_days == -span_between(b, a).total_days,
{
}

/// Taken the other way round, the years, months and days between two days
/// stay what they are.
pub proof fn lemma_walk_reversed(a: CalendarDay, b: CalendarDay)
    requires
        a.exists_in_calendar(),
        b.exists_in_calendar(),
    ensures
        span_between(a, b).years == span_between(b, a).years,
        span_between(a, b).months == span_between(b, a).months,
        span_between(a, b).days == span_between(b, a).days,
{
    lemma_order_is_day_number_order(a, b);
    lemma_order_is_day_number_order(b, a);
}

/// From a day to itself no time passes, and the event is said to be today.
pub proof fn lemma_same_day(d: CalendarDay)
    requires
        d.exists_in_calendar(),
    ensures
        span_between(d, d) == (Span { total_days: 0, years: 0, months: 0, days: 0 }),
        days_label_text(span_between(d, d).total_days) == "(today)"@,
        suffix_text(span_between(d, d).total_days) == Seq::<char>::empty(),
{
    lemma_months_later(d, 0);
}

/// The count of days is positive where the target lies before the
/// reference day, negative where it lies after it, and 0 only for the day
/// itself.
pub proof fn lemma_total_days_sign(reference: CalendarDay, target: CalendarDay)
    requires
        reference.exists_in_calendar(),
        target.exists_in_calendar(),
    ensures
        span_between(reference, target).total_days >= 0 <==> target.not_after(reference),
        span_between(reference, target).total_days == 0 <==> target == reference,
{
    lemma_order_is_day_number_order(target, reference);
}

/// The walk gives no negative count, fewer than 12 months and at most 31
/// days.
pub proof fn lemma_walk_in_bounds(reference: CalendarDay, target: CalendarDay)
    requires
        reference.exists_in_calendar(),
        target.exists_in_calendar(),
    ensures
        0 <= span_between(reference, target).years,
        0 <= span_between(reference, target).months < 12,
        0 <= span_between(reference, target).days <= 31,
{
    if target.not_after(reference) {
        lemma_walk(target, reference);
    } else {
        lemma_walk(reference, target);
    }
}

/// The years of the walk are the most that fit: so many years after the
/// earlier day the later day is not passed, and one year more passes it.
/// The months are the most that fit from there, short of a twelfth: so many
/// months on the later day is not passed, and with fewer than 11 months one
/// month more passes it.
pub proof fn lemma_walk_takes_the_most(reference: CalendarDay, target: CalendarDay)
    requires
        reference.exists_in_calendar(),
        target.exists_in_calendar(),
    ensures
        ({
            let span = span_between(reference, target);
            let (earlier, later) = if target.not_after(reference) {
                (target, reference)
            } else {
                (reference, target)
            };
            let after_years = earlier.years_later(span.years);
            &&& after_years.not_after(later)
            &&& !earlier.years_later(span.years + 1).not_after(later)
            &&& after_years.months_later(span.months).not_after(later)
            &&& span.months < 11 ==> !after_years.months_later(span.months + 1).not_after(later)
        }),
{
    if target.not_after(reference) {
        lemma_walk(target, reference);
    } else {
        lemma_walk(reference, target);
    }
}

/// A twelfth month fits behind the years of the walk in one case only: the
/// earlier day is a 29th of February, whole years on from it lies a 28th of
/// February, and the later day is the 28th of February of the leap year
/// after that. The walk then stops at 11 months and leaves 31 days.
pub proof fn lemma_twelfth_month(reference: CalendarDay, target: CalendarDay)
    requires
        reference.exists_in_calendar(),
        target.exists_in_calendar(),
    ensures
        ({
            let span = span_between(reference, target);
            let (earlier, later) = if target.not_after(reference) {
                (target, reference)
            } else {
                (reference, target)
            };
            earlier.years_later(span.years).months_later(12).not_after(later) ==> {
                &&& earlier.month == 2 && earlier.day == 29
                &&& later.month == 2 && later.day == 28
                &&& later.year == earlier.year + span.years + 1
                &&& is_leap_year(later.year)
                &&& span.months == 11 && span.days == 31
            }
        }),
{
    let span = span_between(reference, target);
    let (earlier, later) = if target.not_after(reference) {
        (target, reference)
    } else {
        (reference, target)
    };
    let after_years = earlier.years_later(span.years);
    lemma_walk(earlier, later);
    lemma_months_later(earlier, 12 * (span.years + 1));
    lemma_months_later(after_years, 12);
    lemma_months_later(after_years, 11);
    if after_years.months_later(12).not_after(later) {
        lemma_months_that_fit(after_years, later, 12);
        lemma_days_to_next_month(after_years.months_later(11), later);
    }
}

/// Walking the years of the walk forward from the earlier of two days, then
/// its months from the day so reached, then its days, ends on the later
/// day.
pub proof fn lemma_walk_round_trip(reference: CalendarDay, target: CalendarDay)
    requires
        reference.exists_in_calendar(),
        target.exists_in_calendar(),
    ensures
        ({
            let span = span_between(reference, target);
            let (earlier, later) = if target.not_after(reference) {
                (target, reference)
            } else {
                (reference, target)
            };
            earlier.walked(span.years, span.months, span.days as nat) == later
        }),
{
    let span = span_between(reference, target);
    let (earlier, later) = if target.not_after(reference) {
        (target, reference)
    } else {
        (reference, target)
    };
    lemma_walk(earlier, later);
    let after_months = earlier.years_later(span.years).months_later(span.months);
    lemma_days_later(after_months, span.days as nat);
    lemma_order_is_day_number_order(after_months.days_later(span.days as nat), later);
}

} // verus!
