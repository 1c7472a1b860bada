use vstd::prelude::*;
use crate::date::{Date, MIN_YEAR, MAX_YEAR, is_leap_year};
use crate::error::{CalendarError, Overflow};

verus! {

/// Days from 0001-01-01 to January 1 of `year` in the proleptic Gregorian calendar
/// (negative before year 1).
pub open spec fn days_before_year(year: int) -> int {
    let p = year - 1;
    365 * p + p / 4 - p / 100 + p / 400
}

/// Day of the year of `(year, month, day)`, January 1 being day 1.
pub open spec fn ordinal_of(year: int, month: int, day: int) -> int {
    let before: int = if month == 1 { 0 } else if month == 2 { 31 } else if month == 3 { 59 }
        else if month == 4 { 90 } else if month == 5 { 120 } else if month == 6 { 151 }
        else if month == 7 { 181 } else if month == 8 { 212 } else if month == 9 { 243 }
        else if month == 10 { 273 } else if month == 11 { 304 } else { 334 };
    before + (if month > 2 && is_leap_year(year) { 1int } else { 0int }) + day
}

/// Weekday of `(year, month, day)`, Monday = 1 to Sunday = 7; 0001-01-01 was a Monday.
pub open spec fn weekday_of(year: int, month: int, day: int) -> int {
    (days_before_year(year) + ordinal_of(year, month, day) - 1) % 7 + 1
}

/// ISO years have 53 weeks when they start on a Thursday, or on a Wednesday in a leap year.
pub open spec fn weeks_in_iso_year(year: int) -> int {
    let jan1 = weekday_of(year, 1, 1);
    if jan1 == 4 || (jan1 == 3 && is_leap_year(year)) { 53 } else { 52 }
}

/// ISO 8601 week date `(iso_year, week, weekday)` of the calendar date `(year, month, day)`,
/// with Monday as weekday 1: weeks run Monday to Sunday, and week 1 holds the year's first
/// Thursday.
#[verifier::opaque]
pub open spec fn iso_week_date_of(year: int, month: int, day: int) -> (int, int, int) {
    let wd = weekday_of(year, month, day);
    let week = (ordinal_of(year, month, day) + 10 - wd) / 7;
    if week == 0 {
        (year - 1, weeks_in_iso_year(year - 1), wd)
    } else if week == 53 && weeks_in_iso_year(year) == 52 {
        (year + 1, 1, wd)
    } else {
        (year, week, wd)
    }
}

/// Calendar date `(year, month, day)` carrying the ISO week date `(iso_year, week, weekday)`:
/// the representable date with that ISO week date, for an ISO year within the representable
/// years; `None` where there is none.
#[verifier::opaque]
pub open spec fn date_of_iso_week(iso_year: int, week: int, weekday: int) -> Option<(int, int, int)> {
    if MIN_YEAR <= iso_year <= MAX_YEAR && exists|d: Date| d.wf()
        && #[trigger] iso_week_date_of(d.year as int, d.month as int, d.day as int) == (iso_year, week, weekday) {
        let d = choose|d: Date| d.wf()
            && #[trigger] iso_week_date_of(d.year as int, d.month as int, d.day as int) == (iso_year, week, weekday);
        Some((d.year as int, d.month as int, d.day as int))
    } else {
        None
    }
}

pub open spec fn ymd(d: Date) -> (int, int, int) {
    (d.year as int, d.month as int, d.day as int)
}

pub open spec fn date_at(t: (int, int, int)) -> Date {
    Date { year: t.0 as i32, month: t.1 as u8, day: t.2 as u8 }
}

/// Relies on `time::Date::to_iso_week_date`: the ISO year, the week and the weekday as
/// `iso_week_date_of` states them (the weekday numbered from Monday by
/// `time::Weekday::number_from_monday`); the week lies in 1 to 53.
#[verifier::external_body]
fn time_iso_week_date(d: Date) -> (r: (i32, u8, u8))
    requires
        d.wf(),
    ensures
        (r.0 as int, r.1 as int, r.2 as int) == iso_week_date_of(d.year as int, d.month as int, d.day as int),
        1 <= r.1 <= 53,
        1 <= r.2 <= 7,
{
    let m = time::Month::try_from(d.month).unwrap();
    let t = time::Date::from_calendar_date(d.year, m, d.day).unwrap();
    let (y, w, wd) = t.to_iso_week_date();
    (y, w, wd.number_from_monday())
}

/// Relies on `time::Date::from_iso_week_date`: the date with the given ISO year, week and
/// weekday (Monday = 1, converted by `time::Weekday::nth_next` from Sunday), as
/// `date_of_iso_week` states it; an error where the ISO year lies outside `MIN_YEAR..=MAX_YEAR`
/// or no representable date has that ISO week date.
#[verifier::external_body]
fn time_from_iso_week_date(iso_year: i32, week: u8, weekday: u8) -> (r: Option<Date>)
    requires
        1 <= weekday <= 7,
    ensures
        match date_of_iso_week(iso_year as int, week as int, weekday as int) {
            Some(t) => r == Some(date_at(t)) && date_at(t).wf() && ymd(date_at(t)) == t
                && iso_week_date_of(t.0, t.1, t.2) == (iso_year as int, week as int, weekday as int),
            None => r is None,
        },
        (MIN_YEAR <= iso_year <= MAX_YEAR && exists|d: Date| d.wf()
            && #[trigger] iso_week_date_of(d.year as int, d.month as int, d.day as int)
            == (iso_year as int, week as int, weekday as int)) ==> r is Some,
{
    let wd = time::Weekday::Sunday.nth_next(weekday);
    match time::Date::from_iso_week_date(iso_year, week, wd) {
        Ok(n) => Some(Date { year: n.year(), month: n.month() as u8, day: n.day() }),
        Err(_) => None,
    }
}

/// An ISO 8601 week: the ISO year and the week number within it.
#[derive(Debug, Clone, Copy, PartialEq, Eq, Structural)]
pub struct IsoWeek {
    pub year: i32,
    pub week: u8,
}

impl IsoWeek {
    /// The ISO week that contains `date`.
    pub open spec fn of(date: Date) -> IsoWeek {
        let t = iso_week_date_of(date.year as int, date.month as int, date.day as int);
        IsoWeek { year: t.0 as i32, week: t.1 as u8 }
    }

    /// The date of the given weekday (Monday = 1) in this week.
    pub open spec fn day_spec(self, weekday: int) -> Option<Date> {
        match date_of_iso_week(self.year as int, self.week as int, weekday) {
            Some(t) => Some(date_at(t)),
            None => None,
        }
    }

    /// The week after this one: the week of the date seven days after its Monday.
    pub open spec fn next_spec(self) -> Option<IsoWeek> {
        match self.day_spec(1) {
            Some(d) => match d.advance(7) {
                Some(e) => Some(IsoWeek::of(e)),
                None => None,
            },
            None => None,
        }
    }

    pub fn new(date: Date) -> (r: IsoWeek)
        requires
            date.wf(),
        ensures
            r == IsoWeek::of(date),
            1 <= r.week <= 53,
    {
        let (year, week, _day) = time_iso_week_date(date);
        IsoWeek { year, week }
    }

    /// The Monday of this week.
    pub fn first_date(self) -> (r: Result<Date, CalendarError>)
        ensures
            (MIN_YEAR <= self.year <= MAX_YEAR && exists|d: Date| d.wf()
                && #[trigger] iso_week_date_of(d.year as int, d.month as int, d.day as int)
                == (self.year as int, self.week as int, 1int)) ==> r is Ok,
            match self.day_spec(1) {
                Some(d) => r == Ok::<Date, CalendarError>(d) && d.wf() && IsoWeek::of(d) == self,
                None => r == Err::<Date, CalendarError>(CalendarError::Overflow(Overflow::FirstDateInWeek)),
            },
    {
        match time_from_iso_week_date(self.year, self.week, 1) {
            Some(d) => Ok(d),
            None => Err(CalendarError::Overflow(Overflow::FirstDateInWeek)),
        }
    }

    /// The Sunday of this week.
    pub fn last_date(self) -> (r: Result<Date, CalendarError>)
        ensures
            (MIN_YEAR <= self.year <= MAX_YEAR && exists|d: Date| d.wf()
                && #[trigger] iso_week_date_of(d.year as int, d.month as int, d.day as int)
                == (self.year as int, self.week as int, 7int)) ==> r is Ok,
            match self.day_spec(7) {
                Some(d) => r == Ok::<Date, CalendarError>(d) && d.wf() && IsoWeek::of(d) == self,
                None => r == Err::<Date, CalendarError>(CalendarError::Overflow(Overflow::LastDateInWeek)),
            },
    {
        match time_from_iso_week_date(self.year, self.week, 7) {
            Some(d) => Ok(d),
            None => Err(CalendarError::Overflow(Overflow::LastDateInWeek)),
        }
    }

    /// The following ISO week, found through the dates rather than by counting weeks.
    pub fn next_week(self) -> (r: Result<IsoWeek, CalendarError>)
        ensures
            match self.day_spec(1) {
                Some(_) => match self.next_spec() {
                    Some(w) => r == Ok::<IsoWeek, CalendarError>(w),
                    None => r == Err::<IsoWeek, CalendarError>(CalendarError::Overflow(Overflow::NextWeek)),
                },
                None => r == Err::<IsoWeek, CalendarError>(CalendarError::Overflow(Overflow::FirstDateInWeek)),
            },
            r matches Ok(w) ==> 1 <= w.week <= 53,
    {
        let date = self.first_date()?;
        match date.add_weeks(1) {
            Ok(d) => Ok(IsoWeek::new(d)),
            Err(_) => Err(CalendarError::Overflow(Overflow::NextWeek)),
        }
    }

    /// The seven dates of this week, Monday to Sunday, each the day after the one before.
    pub fn weekdays(self) -> (r: Result<[Date; 7], CalendarError>)
        ensures
            match self.day_spec(1) {
                Some(d) => match d.advance(6) {
                    Some(_) => r matches Ok(ds) && forall|i: int|
                        0 <= i < 7 ==> d.advance(i as nat) == Some(#[trigger] ds[i]) && ds[i].wf(),
                    None => r == Err::<[Date; 7], CalendarError>(CalendarError::Overflow(Overflow::DaysOfWeek)),
                },
                None => r == Err::<[Date; 7], CalendarError>(CalendarError::Overflow(Overflow::FirstDateInWeek)),
            },
    {
        let date = self.first_date()?;
        let mut dates = [date; 7];
        assert(dates[0] == date);
        assert(date.advance(0) == Some(date));
        let mut i: usize = 1;
        while i < 7
            invariant
                1 <= i <= 7,
                self.day_spec(1) == Some(date),
                date.wf(),
                forall|j: int| 0 <= j < i ==> date.advance(j as nat) == Some(#[trigger] dates[j]) && dates[j].wf(),
            decreases 7 - i,
        {
            let prev = dates[i - 1];
            match prev.next_day() {
                Ok(n) => {
                    assert(date.advance(i as nat) == Some(n));
                    dates[i] = n;
                },
                Err(_) => {
                    proof {
                        lemma_advance_stays_none(date, i as nat, 6);
                    }
                    return Err(CalendarError::Overflow(Overflow::DaysOfWeek));
                },
            }
            i = i + 1;
        }
        assert(date.advance(6) == Some(dates[6]));
        Ok(dates)
    }
}

/// Once advancing fails, advancing further fails too.
pub proof fn lemma_advance_stays_none(d: Date, n: nat, m: nat)
    requires
        n <= m,
        d.advance(n) is None,
    ensures
        d.advance(m) is None,
    decreases m - n,
{
    if n < m {
        lemma_advance_stays_none(d, n + 1, m);
        assert(d.advance(n + 1) is None);
    }
}

} // verus!
