use vstd::prelude::*;
use crate::date::{Date, MIN_YEAR, MAX_YEAR, time_from_calendar_date};
use crate::week::IsoWeek;
use crate::error::{CalendarError, Overflow};

verus! {

/// A month of a year: the year and the month number, 1 to 12.
#[derive(Debug, Clone, Copy, PartialEq, Eq, Structural)]
pub struct CalendarMonth {
    pub year: i32,
    pub month: u8,
}

impl CalendarMonth {
    pub open spec fn wf(self) -> bool {
        1 <= self.month <= 12
    }

    pub open spec fn contains(self, d: Date) -> bool {
        self.year == d.year && self.month == d.month
    }

    /// The month before this one; `None` where its year is not an `i32`.
    pub open spec fn previous_spec(self) -> Option<CalendarMonth> {
        if self.month == 1 {
            if self.year == i32::MIN {
                None
            } else {
                Some(CalendarMonth { year: (self.year - 1) as i32, month: 12 })
            }
        } else {
            Some(CalendarMonth { year: self.year, month: (self.month - 1) as u8 })
        }
    }

    /// The month after this one; `None` where its year is not an `i32`.
    pub open spec fn next_spec(self) -> Option<CalendarMonth> {
        if self.month == 12 {
            if self.year == i32::MAX {
                None
            } else {
                Some(CalendarMonth { year: (self.year + 1) as i32, month: 1 })
            }
        } else {
            Some(CalendarMonth { year: self.year, month: (self.month + 1) as u8 })
        }
    }

    /// Whether a week belongs to this month: its Monday or, failing that, its Sunday lies in it.
    /// An error names the date that must be looked at and is not representable.
    pub open spec fn contains_week_spec(self, w: IsoWeek) -> Result<bool, CalendarError> {
        match w.day_spec(1) {
            Some(a) => if self.contains(a) {
                Ok(true)
            } else {
                match w.day_spec(7) {
                    Some(b) => Ok(self.contains(b)),
                    None => Err(CalendarError::Overflow(Overflow::LastDateInWeek)),
                }
            },
            None => Err(CalendarError::Overflow(Overflow::FirstDateInWeek)),
        }
    }

    /// The month `month` of `year`; fails where `month` is not in `1..=12`.
    pub fn new(year: i32, month: u8) -> (r: Result<CalendarMonth, CalendarError>)
        ensures
            1 <= month <= 12 ==> r == Ok::<CalendarMonth, CalendarError>(CalendarMonth { year, month }),
            !(1 <= month <= 12) ==> r == Err::<CalendarMonth, CalendarError>(CalendarError::InvalidMonth(month)),
    {
        if 1 <= month && month <= 12 {
            Ok(CalendarMonth { year, month })
        } else {
            Err(CalendarError::InvalidMonth(month))
        }
    }

    /// The first day of the month; fails where the year is out of the representable range.
    pub fn first_date(self) -> (r: Result<Date, CalendarError>)
        requires
            self.wf(),
        ensures
            MIN_YEAR <= self.year <= MAX_YEAR ==> r == Ok::<Date, CalendarError>(Date { year: self.year, month: self.month, day: 1 }),
            !(MIN_YEAR <= self.year <= MAX_YEAR) ==> r == Err::<Date, CalendarError>(CalendarError::Overflow(Overflow::FirstDateInMonth)),
            r matches Ok(d) ==> d.wf(),
    {
        match time_from_calendar_date(self.year, self.month, 1) {
            Some(d) => Ok(d),
            None => Err(CalendarError::Overflow(Overflow::FirstDateInMonth)),
        }
    }

    /// The ISO week that holds the first day of the month.
    pub fn first_week(self) -> (r: Result<IsoWeek, CalendarError>)
        requires
            self.wf(),
        ensures
            MIN_YEAR <= self.year <= MAX_YEAR ==> r == Ok::<IsoWeek, CalendarError>(
                IsoWeek::of(Date { year: self.year, month: self.month, day: 1 })),
            !(MIN_YEAR <= self.year <= MAX_YEAR) ==> r == Err::<IsoWeek, CalendarError>(CalendarError::Overflow(Overflow::FirstDateInMonth)),
            r matches Ok(w) ==> 1 <= w.week <= 53,
    {
        Ok(IsoWeek::new(self.first_date()?))
    }

    /// Whether `date` lies in this month.
    pub fn contains_date(self, date: Date) -> (r: bool)
        ensures
            r == self.contains(date),
    {
        self.year == date.year && self.month == date.month
    }

    /// Whether the week's Monday or Sunday lies in this month.
    pub fn contains_week(self, week: IsoWeek) -> (r: Result<bool, CalendarError>)
        ensures
            r == self.contains_week_spec(week),
    {
        Ok(self.contains_date(week.first_date()?) || self.contains_date(week.last_date()?))
    }

    /// The month before this one, December of the year before after January.
    pub fn previous(self) -> (r: Result<CalendarMonth, CalendarError>)
        requires
            self.wf(),
        ensures
            match self.previous_spec() {
                Some(m) => r == Ok::<CalendarMonth, CalendarError>(m) && m.wf(),
                None => r == Err::<CalendarMonth, CalendarError>(CalendarError::Overflow(Overflow::PreviousMonth)),
            },
    {
        if self.month == 1 {
            match self.year.checked_sub(1) {
                Some(year) => Ok(CalendarMonth { year, month: 12 }),
                None => Err(CalendarError::Overflow(Overflow::PreviousMonth)),
            }
        } else {
            Ok(CalendarMonth { year: self.year, month: self.month - 1 })
        }
    }

    /// The month after this one, January of the year after after December.
    pub fn next(self) -> (r: Result<CalendarMonth, CalendarError>)
        requires
            self.wf(),
        ensures
            match self.next_spec() {
                Some(m) => r == Ok::<CalendarMonth, CalendarError>(m) && m.wf(),
                None => r == Err::<CalendarMonth, CalendarError>(CalendarError::Overflow(Overflow::NextMonth)),
            },
    {
        if self.month == 12 {
            match self.year.checked_add(1) {
                Some(year) => Ok(CalendarMonth { year, month: 1 }),
                None => Err(CalendarError::Overflow(Overflow::NextMonth)),
            }
        } else {
            Ok(CalendarMonth { year: self.year, month: self.month + 1 })
        }
    }
}

/// Stepping a month back and then forward again, or forward and then back, returns the
/// same month wherever the first step succeeds; the first step fails only at the ends of the
/// year range, where the step the other way from there fails as well.
pub proof fn law_previous_next_round_trip(m: CalendarMonth)
    requires
        m.wf(),
    ensures
        m.previous_spec() matches Some(p) ==> p.wf() && p.next_spec() == Some(m),
        m.next_spec() matches Some(n) ==> n.wf() && n.previous_spec() == Some(m),
        m.previous_spec() is None ==> m.year == i32::MIN && m.month == 1,
        m.next_spec() is None ==> m.year == i32::MAX && m.month == 12,
{
}

} // verus!
