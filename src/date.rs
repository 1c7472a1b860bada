use vstd::prelude::*;
use crate::error::{CalendarError, Overflow};

verus! {

/// Smallest year a `Date` can hold.
pub const MIN_YEAR: i32 = -9999;

/// Largest year a `Date` can hold.
pub const MAX_YEAR: i32 = 9999;

pub open spec fn is_leap_year(y: int) -> bool {
    y % 4 == 0 && (y % 100 != 0 || y % 400 == 0)
}

pub open spec fn days_in_month(y: int, m: int) -> int {
    if m == 2 {
        if is_leap_year(y) { 29 } else { 28 }
    } else if m == 4 || m == 6 || m == 9 || m == 11 {
        30
    } else {
        31
    }
}

/// A date of the proleptic Gregorian calendar, as year, month (1 to 12) and day.
#[derive(Debug, Clone, Copy, PartialEq, Eq, Structural)]
pub struct Date {
    pub year: i32,
    pub month: u8,
    pub day: u8,
}

impl Date {
    /// A valid calendar date within the representable years.
    pub open spec fn wf(self) -> bool {
        &&& MIN_YEAR <= self.year <= MAX_YEAR
        &&& 1 <= self.month <= 12
        &&& 1 <= self.day <= days_in_month(self.year as int, self.month as int)
    }

    /// The last representable date.
    pub open spec fn is_max(self) -> bool {
        self.year == MAX_YEAR && self.month == 12 && self.day == 31
    }

    /// The following calendar date, or `None` after the last representable one.
    pub open spec fn succ(self) -> Option<Date> {
        if self.is_max() {
            None
        } else if (self.day as int) < days_in_month(self.year as int, self.month as int) {
            Some(Date { day: (self.day + 1) as u8, ..self })
        } else if self.month < 12 {
            Some(Date { month: (self.month + 1) as u8, day: 1, ..self })
        } else {
            Some(Date { year: (self.year + 1) as i32, month: 1, day: 1 })
        }
    }

    /// The date `n` days after this one, if it is representable.
    pub open spec fn advance(self, n: nat) -> Option<Date>
        decreases n,
    {
        if n == 0 {
            Some(self)
        } else {
            match self.advance((n - 1) as nat) {
                Some(e) => e.succ(),
                None => None,
            }
        }
    }

    /// `n` steps of `succ`, taken one at a time from this date forwards.
    pub open spec fn step_days(self, n: nat) -> Option<Date>
        decreases n,
    {
        if n == 0 {
            Some(self)
        } else {
            match self.succ() {
                Some(e) => e.step_days((n - 1) as nat),
                None => None,
            }
        }
    }

    /// Builds a date from its parts; `None` where they do not form a valid date.
    pub fn from_parts(year: i32, month: u8, day: u8) -> (r: Option<Date>)
        ensures
            r matches Some(d) ==> d == (Date { year, month, day }),
            r is Some <==> (Date { year, month, day }).wf(),
    {
        if month < 1 || month > 12 {
            return None;
        }
        time_from_calendar_date(year, month, day)
    }

    /// The next calendar date; fails on the last representable date.
    pub fn next_day(self) -> (r: Result<Date, CalendarError>)
        requires
            self.wf(),
        ensures
            r matches Ok(d) ==> self.succ() == Some(d) && d.wf(),
            r is Err <==> self.is_max(),
            r matches Err(e) ==> e == CalendarError::Overflow(Overflow::NextDay),
    {
        proof {
            lemma_succ_wf(self);
        }
        match time_next_day(self) {
            Some(d) => Ok(d),
            None => Err(CalendarError::Overflow(Overflow::NextDay)),
        }
    }

    /// The date `weeks` weeks after this one; fails when that leaves the representable range.
    pub fn add_weeks(self, weeks: u32) -> (r: Result<Date, CalendarError>)
        requires
            self.wf(),
        ensures
            r matches Ok(d) ==> self.advance(7 * weeks as nat) == Some(d) && d.wf(),
            r is Err <==> self.advance(7 * weeks as nat) is None,
            r matches Err(e) ==> e == CalendarError::Overflow(Overflow::AddWeeks),
    {
        proof {
            lemma_advance_wf(self, 7 * weeks as nat);
        }
        match time_add_weeks(self, weeks) {
            Some(d) => Ok(d),
            None => Err(CalendarError::Overflow(Overflow::AddWeeks)),
        }
    }
}

/// Relies on `time::Date::from_calendar_date`: the date with these parts where they form a
/// valid date in the years `MIN_YEAR..=MAX_YEAR`, an error otherwise.
#[verifier::external_body]
pub(crate) fn time_from_calendar_date(year: i32, month: u8, day: u8) -> (r: Option<Date>)
    requires
        1 <= month <= 12,
    ensures
        r == (if (Date { year, month, day }).wf() { Some(Date { year, month, day }) } else { None }),
{
    let m = time::Month::try_from(month).unwrap();
    match time::Date::from_calendar_date(year, m, day) {
        Ok(n) => Some(Date { year: n.year(), month: n.month() as u8, day: n.day() }),
        Err(_) => None,
    }
}

/// Relies on `time::Date::next_day`: the following calendar date, `None` after `Date::MAX`
/// (9999-12-31 without the crate's large-dates feature).
#[verifier::external_body]
fn time_next_day(d: Date) -> (r: Option<Date>)
    requires
        d.wf(),
    ensures
        r == d.succ(),
{
    let m = time::Month::try_from(d.month).unwrap();
    let t = time::Date::from_calendar_date(d.year, m, d.day).unwrap();
    match t.next_day() {
        Some(n) => Some(Date { year: n.year(), month: n.month() as u8, day: n.day() }),
        None => None,
    }
}

/// Relies on `time::Date::checked_add` with `time::Duration::weeks`: the date seven days per
/// week later, `None` where that passes `Date::MAX`.
#[verifier::external_body]
fn time_add_weeks(d: Date, weeks: u32) -> (r: Option<Date>)
    requires
        d.wf(),
    ensures
        r == d.advance(7 * weeks as nat),
{
    let m = time::Month::try_from(d.month).unwrap();
    let t = time::Date::from_calendar_date(d.year, m, d.day).unwrap();
    match t.checked_add(time::Duration::weeks(weeks as i64)) {
        Some(n) => Some(Date { year: n.year(), month: n.month() as u8, day: n.day() }),
        None => None,
    }
}

/// The successor of a valid date is valid.
pub proof fn lemma_succ_wf(d: Date)
    requires
        d.wf(),
    ensures
        d.succ() matches Some(e) ==> e.wf(),
{
}

/// Every date reached by advancing a valid date is valid.
pub proof fn lemma_advance_wf(d: Date, n: nat)
    requires
        d.wf(),
    ensures
        d.advance(n) matches Some(e) ==> e.wf(),
    decreases n,
{
    if n > 0 {
        lemma_advance_wf(d, (n - 1) as nat);
        if let Some(e) = d.advance((n - 1) as nat) {
            lemma_succ_wf(e);
        }
    }
}

/// Advancing by one more day is taking one day first and then advancing.
pub proof fn lemma_advance_first_step(d: Date, n: nat)
    ensures
        d.advance(n + 1) == (match d.succ() {
            Some(e) => e.advance(n),
            None => None,
        }),
    decreases n,
{
    if n == 0 {
        assert(d.advance(0) == Some(d));
        match d.succ() {
            Some(e) => assert(e.advance(0) == Some(e)),
            None => {},
        }
    } else {
        lemma_advance_first_step(d, (n - 1) as nat);
        assert(d.advance(n + 1) == (match d.advance(n) { Some(e) => e.succ(), None => None }));
        match d.succ() {
            Some(e) => {
                assert(e.advance(n) == (match e.advance((n - 1) as nat) {
                    Some(x) => x.succ(),
                    None => None,
                }));
            },
            None => {},
        }
    }
}

/// Stepping a day at a time and advancing reach the same date.
pub proof fn lemma_step_days_is_advance(d: Date, n: nat)
    ensures
        d.step_days(n) == d.advance(n),
    decreases n,
{
    if n > 0 {
        lemma_advance_first_step(d, (n - 1) as nat);
        if let Some(e) = d.succ() {
            lemma_step_days_is_advance(e, (n - 1) as nat);
        }
    }
}

/// Seven successive `next_day` steps land on the same date as `add_weeks(d, 1)`, and one
/// of them fails exactly when `add_weeks(d, 1)` fails.
pub proof fn law_seven_days_make_a_week(d: Date)
    requires
        d.wf(),
    ensures
        d.step_days(7) == d.advance(7 * 1),
{
    lemma_step_days_is_advance(d, 7);
}

} // verus!
