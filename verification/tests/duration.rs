use chrono::NaiveDate;
use reminders::date::{leap_year, month_length, Date, MAX_YEAR, MIN_YEAR};
use reminders::duration::{breakdown, DurationResult};

fn date(year: i32, month: u32, day: u32) -> Date {
    Date::new(year, month, day).unwrap()
}

fn parts(reference: Date, target: Date) -> (i64, u32, u32, u32) {
    let DurationResult { total_days, years, months, days } = breakdown(reference, target);
    (total_days, years, months, days)
}

fn sample() -> Vec<Date> {
    let mut dates = vec![];
    let mut day = date(2019, 11, 25);
    while day.year < 2021 || day.month < 4 {
        dates.push(day);
        day = day.days_later(3).unwrap();
    }
    dates.push(date(2000, 2, 29));
    dates.push(date(2020, 2, 29));
    dates.push(date(2021, 3, 28));
    dates.push(date(2021, 3, 29));
    dates.push(date(2024, 2, 28));
    dates.push(date(2024, 2, 29));
    dates.push(date(2019, 1, 31));
    dates.push(date(1900, 2, 28));
    dates.push(date(1, 1, 1));
    dates.push(date(0, 12, 31));
    dates.push(date(-4, 2, 29));
    dates.push(date(9999, 12, 31));
    dates
}

#[test]
fn date_new_takes_the_days_of_the_calendar() {
    assert_eq!(Date::new(2018, 6, 25), Some(Date { year: 2018, month: 6, day: 25 }));
    assert_eq!(Date::new(2020, 2, 29), Some(Date { year: 2020, month: 2, day: 29 }));
    assert_eq!(Date::new(2019, 2, 29), None);
    assert_eq!(Date::new(1900, 2, 29), None);
    assert_eq!(Date::new(2000, 2, 29), Some(Date { year: 2000, month: 2, day: 29 }));
    assert_eq!(Date::new(2018, 4, 31), None);
    assert_eq!(Date::new(2018, 0, 1), None);
    assert_eq!(Date::new(2018, 13, 1), None);
    assert_eq!(Date::new(2018, 1, 0), None);
    assert_eq!(Date::new(2018, 1, 32), None);
    assert!(Date::new(MAX_YEAR, 12, 31).is_some());
    assert!(Date::new(MIN_YEAR, 1, 1).is_some());
    assert_eq!(Date::new(MAX_YEAR + 1, 1, 1), None);
    assert_eq!(Date::new(MIN_YEAR - 1, 12, 31), None);
}

#[test]
fn date_new_agrees_with_chrono() {
    for year in [-262_144, -262_143, -5, -4, 0, 1, 1900, 2000, 2019, 2020, 262_142, 262_143] {
        for month in 0..14 {
            for day in 0..33 {
                assert_eq!(
                    Date::new(year, month, day).is_some(),
                    NaiveDate::from_ymd_opt(year, month, day).is_some(),
                    "{year}-{month}-{day}"
                );
            }
        }
    }
}

#[test]
fn leap_years_and_month_lengths() {
    assert!(leap_year(2020));
    assert!(!leap_year(2019));
    assert!(!leap_year(1900));
    assert!(leap_year(2000));
    assert!(leap_year(0));
    assert!(leap_year(-4));
    assert!(!leap_year(-1));
    assert!(!leap_year(-100));
    assert!(leap_year(-400));
    let lengths: Vec<u32> = (1..=12).map(|m| month_length(2019, m)).collect();
    assert_eq!(lengths, vec![31, 28, 31, 30, 31, 30, 31, 31, 30, 31, 30, 31]);
    assert_eq!(month_length(2020, 2), 29);
}

#[test]
fn dates_in_their_order() {
    let days = [date(2019, 12, 31), date(2020, 1, 1), date(2020, 1, 2), date(2020, 2, 1)];
    for (i, a) in days.iter().enumerate() {
        for (j, b) in days.iter().enumerate() {
            assert_eq!(a.not_after(*b), i <= j);
        }
    }
}

#[test]
fn months_later_cuts_the_day_to_the_month() {
    assert_eq!(date(2019, 1, 31).months_later(1), Some(date(2019, 2, 28)));
    assert_eq!(date(2020, 1, 31).months_later(1), Some(date(2020, 2, 29)));
    assert_eq!(date(2020, 1, 31).months_later(2), Some(date(2020, 3, 31)));
    assert_eq!(date(2020, 1, 31).months_later(3), Some(date(2020, 4, 30)));
    assert_eq!(date(2020, 2, 29).months_later(12), Some(date(2021, 2, 28)));
    assert_eq!(date(2020, 2, 29).months_later(48), Some(date(2024, 2, 29)));
    assert_eq!(date(2021, 12, 15).months_later(1), Some(date(2022, 1, 15)));
    assert_eq!(date(2021, 11, 15).months_later(38), Some(date(2025, 1, 15)));
    assert_eq!(date(2021, 11, 15).months_later(0), Some(date(2021, 11, 15)));
    assert_eq!(date(MAX_YEAR, 12, 1).months_later(1), None);
    assert_eq!(date(MAX_YEAR, 1, 31).months_later(11), Some(date(MAX_YEAR, 12, 31)));
    assert_eq!(date(2020, 1, 1).months_later(u32::MAX), None);
}

#[test]
fn years_later_keeps_the_day_where_it_can() {
    assert_eq!(date(2020, 2, 29).years_later(1), Some(date(2021, 2, 28)));
    assert_eq!(date(2020, 2, 29).years_later(4), Some(date(2024, 2, 29)));
    assert_eq!(date(2020, 2, 29).years_later(0), Some(date(2020, 2, 29)));
    assert_eq!(date(2018, 6, 25).years_later(400), Some(date(2418, 6, 25)));
    assert_eq!(date(MAX_YEAR, 1, 1).years_later(1), None);
    assert_eq!(date(MIN_YEAR, 1, 1).years_later(524_285), Some(date(MAX_YEAR, 1, 1)));
    assert_eq!(date(2018, 6, 25).years_later(u32::MAX), None);
}

#[test]
fn next_day_turns_months_and_years() {
    assert_eq!(date(2019, 2, 28).next_day(), Some(date(2019, 3, 1)));
    assert_eq!(date(2020, 2, 28).next_day(), Some(date(2020, 2, 29)));
    assert_eq!(date(2020, 2, 29).next_day(), Some(date(2020, 3, 1)));
    assert_eq!(date(2019, 12, 31).next_day(), Some(date(2020, 1, 1)));
    assert_eq!(date(2019, 6, 15).next_day(), Some(date(2019, 6, 16)));
    assert_eq!(date(MAX_YEAR, 12, 31).next_day(), None);
    assert_eq!(date(2019, 12, 31).days_later(0), Some(date(2019, 12, 31)));
    assert_eq!(date(2019, 12, 31).days_later(366), Some(date(2020, 12, 31)));
    assert_eq!(date(MAX_YEAR, 12, 30).days_later(2), None);
}

#[test]
fn breakdown_of_six_days() {
    assert_eq!(parts(date(2018, 7, 1), date(2018, 6, 25)), (6, 0, 0, 6));
    assert_eq!(parts(date(2018, 6, 25), date(2018, 7, 1)), (-6, 0, 0, 6));
}

#[test]
fn breakdown_counts_days_as_the_calendar_does() {
    assert_eq!(parts(date(2014, 1, 1), date(2013, 12, 31)).0, 1);
    assert_eq!(parts(date(2014, 1, 1), date(2014, 1, 2)).0, -1);
    assert_eq!(parts(date(2014, 1, 1), date(2013, 9, 23)).0, 100);
    assert_eq!(parts(date(2014, 1, 1), date(2013, 1, 1)).0, 365);
    assert_eq!(parts(date(2014, 1, 1), date(2010, 1, 1)).0, 365 * 4 + 1);
    assert_eq!(parts(date(2014, 1, 1), date(1614, 1, 1)), (365 * 400 + 97, 400, 0, 0));
    assert_eq!(parts(date(1, 1, 1), date(0, 12, 31)), (1, 0, 0, 1));
}

#[test]
fn breakdown_walks_years_then_months_then_days() {
    assert_eq!(parts(date(2021, 5, 4), date(2018, 2, 3)), (1186, 3, 3, 1));
    assert_eq!(parts(date(2021, 2, 3), date(2018, 5, 4)), (1006, 2, 8, 30));
    assert_eq!(parts(date(2019, 2, 28), date(2019, 1, 31)), (28, 0, 1, 0));
    assert_eq!(parts(date(2019, 3, 1), date(2019, 1, 31)), (29, 0, 1, 1));
    assert_eq!(parts(date(2019, 3, 30), date(2019, 1, 31)), (58, 0, 1, 30));
    assert_eq!(parts(date(2019, 3, 31), date(2019, 1, 31)), (59, 0, 2, 0));
    assert_eq!(parts(date(2021, 2, 28), date(2020, 2, 29)), (365, 1, 0, 0));
    assert_eq!(parts(date(2021, 2, 27), date(2020, 2, 29)), (364, 0, 11, 29));
    assert_eq!(parts(date(2021, 3, 28), date(2020, 2, 29)), (393, 1, 1, 0));
    assert_eq!(parts(date(2021, 3, 29), date(2020, 2, 29)), (394, 1, 1, 1));
    assert_eq!(parts(date(2024, 2, 27), date(2020, 2, 29)), (1459, 3, 11, 30));
    assert_eq!(parts(date(2024, 2, 29), date(2020, 2, 29)), (1461, 4, 0, 0));
    assert_eq!(parts(date(2020, 12, 31), date(2020, 1, 1)), (365, 0, 11, 30));
    assert_eq!(parts(date(2021, 1, 1), date(2020, 1, 1)), (366, 1, 0, 0));
}

#[test]
fn breakdown_stops_at_eleven_months() {
    // Three years on from the 29th of February 2020 lies the 28th of
    // February 2023, and twelve months on from there the later date itself.
    assert_eq!(parts(date(2024, 2, 28), date(2020, 2, 29)), (1460, 3, 11, 31));
    assert_eq!(parts(date(2020, 2, 29), date(2024, 2, 28)), (-1460, 3, 11, 31));
    assert_eq!(parts(date(2004, 2, 28), date(1996, 2, 29)), (2921, 7, 11, 31));
    assert_eq!(parts(date(2024, 2, 29), date(2020, 2, 29)), (1461, 4, 0, 0));
    assert_eq!(parts(date(2024, 2, 28), date(2020, 2, 28)), (1461, 4, 0, 0));
}

#[test]
fn breakdown_is_not_a_division_by_average_lengths() {
    // 2000-01-01 to 2100-01-01 is a hundred years to the day, 36525 days:
    // a year of 365.25 days would give the same, a walk from 1900 does not.
    assert_eq!(parts(date(2100, 1, 1), date(2000, 1, 1)), (36525, 100, 0, 0));
    assert_eq!(parts(date(2000, 1, 1), date(1900, 1, 1)), (36524, 100, 0, 0));
    assert_eq!(parts(date(2019, 3, 1), date(2019, 2, 1)), (28, 0, 1, 0));
    assert_eq!(parts(date(2019, 8, 1), date(2019, 7, 1)), (31, 0, 1, 0));
}

#[test]
fn breakdown_over_all_the_supported_years() {
    let first = date(MIN_YEAR, 1, 1);
    let last = date(MAX_YEAR, 12, 31);
    let expected = (NaiveDate::MAX - NaiveDate::MIN).num_days();
    assert_eq!(parts(last, first), (expected, 524_285, 11, 30));
    assert_eq!(parts(first, last), (-expected, 524_285, 11, 30));
    assert_eq!(expected, 191_491_528);
}

#[test]
fn total_days_change_sign_when_the_dates_change_places() {
    let dates = sample();
    for a in &dates {
        for b in &dates {
            let there = breakdown(*a, *b);
            let back = breakdown(*b, *a);
            assert_eq!(there.total_days, -back.total_days);
            assert_eq!((there.years, there.months, there.days), (back.years, back.months, back.days));
            assert_eq!(there.total_days >= 0, b.not_after(*a));
        }
    }
}

#[test]
fn same_day_is_no_time() {
    for d in sample() {
        assert_eq!(parts(d, d), (0, 0, 0, 0));
    }
}

#[test]
fn walk_stays_in_bounds() {
    let dates = sample();
    for a in &dates {
        for b in &dates {
            let r = breakdown(*a, *b);
            assert!(r.months < 12);
            assert!(r.days <= 31);
        }
    }
}

#[test]
fn walking_forward_again_ends_on_the_later_date() {
    let dates = sample();
    for a in &dates {
        for b in &dates {
            let r = breakdown(*a, *b);
            let (earlier, later) = if b.not_after(*a) { (*b, *a) } else { (*a, *b) };
            assert_eq!(earlier.walked(r.years, r.months, r.days), Some(later));
            if r.total_days != 0 {
                assert_ne!(earlier.walked(r.years, r.months, r.days + 1), Some(later));
            }
        }
    }
}

#[test]
fn walked_goes_by_years_then_months_then_days() {
    assert_eq!(date(2020, 2, 29).walked(1, 0, 0), Some(date(2021, 2, 28)));
    assert_eq!(date(2020, 2, 29).walked(1, 1, 0), Some(date(2021, 3, 28)));
    assert_eq!(date(2020, 2, 29).walked(1, 1, 2), Some(date(2021, 3, 30)));
    assert_eq!(date(2020, 2, 29).walked(0, 13, 2), Some(date(2021, 3, 31)));
    assert_eq!(date(2020, 2, 29).walked(3, 11, 31), Some(date(2024, 2, 28)));
    assert_eq!(date(2020, 2, 29).walked(4, 0, 0), Some(date(2024, 2, 29)));
    assert_eq!(date(2019, 1, 31).walked(0, 1, 1), Some(date(2019, 3, 1)));
    assert_eq!(date(2020, 1, 31).walked(0, 0, 0), Some(date(2020, 1, 31)));
    assert_eq!(date(2020, 1, 31).walked(u32::MAX, u32::MAX, 0), None);
    assert_eq!(date(MAX_YEAR, 12, 31).walked(0, 0, 1), None);
}

#[test]
fn total_days_are_the_days_stepped_through() {
    let start = date(2019, 12, 25);
    let mut day = start;
    for n in 0..800 {
        assert_eq!(breakdown(day, start).total_days, n);
        assert_eq!(breakdown(start, day).total_days, -n);
        day = day.next_day().unwrap();
    }
}
