use vstd::prelude::*;

verus! {

/// The calendar operation whose arithmetic left the representable range.
#[derive(Debug, Clone, Copy, PartialEq, Eq, Structural)]
pub enum Overflow {
    NextDay,
    AddWeeks,
    FirstDateInWeek,
    LastDateInWeek,
    NextWeek,
    DaysOfWeek,
    FirstDateInMonth,
    PreviousMonth,
    NextMonth,
}

/// Why a calendar computation could not be carried out.
#[derive(Debug, Clone, Copy, PartialEq, Eq, Structural)]
pub enum CalendarError {
    /// Date or year arithmetic exceeded the representable range.
    Overflow(Overflow),
    /// A month number outside `1..=12`.
    InvalidMonth(u8),
}

} // verus!
