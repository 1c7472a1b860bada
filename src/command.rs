use vstd::prelude::*;
use crate::date::Date;
use crate::month::CalendarMonth;
use crate::error::{CalendarError, Overflow};

verus! {

/// What to render, resolved from the options and their defaults.
#[derive(Debug, Clone, Copy, PartialEq, Eq, Structural)]
pub enum Command {
    /// A run of months: `before` months, the month itself, then `after` months.
    RenderMonths { year: i32, month: u8, before: u32, after: u32 },
    /// January to December of one year.
    RenderYear { year: i32 },
}

/// The window sizes used where no option gives one: with no year given, and with one given.
#[derive(Debug, Clone, Copy, PartialEq, Eq, Structural)]
pub struct Defaults {
    pub before_noargs: u32,
    pub before_args: u32,
    pub after_noargs: u32,
    pub after_args: u32,
}

impl Defaults {
    /// One month before and four after without a year; four on each side with one.
    pub fn standard() -> (r: Defaults)
        ensures
            r == (Defaults { before_noargs: 1, before_args: 4, after_noargs: 4, after_args: 4 }),
    {
        Defaults { before_noargs: 1, before_args: 4, after_noargs: 4, after_args: 4 }
    }
}

pub open spec fn or_else(a: Option<u32>, b: Option<u32>) -> Option<u32> {
    if a is Some { a } else { b }
}

pub open spec fn unwrap_or(a: Option<u32>, d: u32) -> u32 {
    match a {
        Some(v) => v,
        None => d,
    }
}

/// Resolves the command: a year and a month give a window around that month, a year alone
/// gives the whole year, and neither gives a window around `today`. `before` and `after`
/// fall back on `context`, then on the defaults. A month number outside `1..=12` is refused.
pub fn resolve(
    year: Option<i32>,
    month: Option<u8>,
    before: Option<u32>,
    after: Option<u32>,
    context: Option<u32>,
    today: Date,
    defaults: Defaults,
) -> (r: Result<Command, CalendarError>)
    requires
        !(year is None && month is Some),
    ensures
        match (year, month) {
            (Some(y), Some(m)) => if 1 <= m <= 12 {
                r == Ok::<Command, CalendarError>(Command::RenderMonths {
                    year: y,
                    month: m,
                    before: unwrap_or(or_else(before, context), defaults.before_args),
                    after: unwrap_or(or_else(after, context), defaults.after_args),
                })
            } else {
                r == Err::<Command, CalendarError>(CalendarError::InvalidMonth(m))
            },
            (Some(y), None) => r == Ok::<Command, CalendarError>(Command::RenderYear { year: y }),
            _ => r == Ok::<Command, CalendarError>(Command::RenderMonths {
                year: today.year,
                month: today.month,
                before: unwrap_or(or_else(before, context), defaults.before_noargs),
                after: unwrap_or(or_else(after, context), defaults.after_noargs),
            }),
        },
{
    let before = if before.is_some() { before } else { context };
    let after = if after.is_some() { after } else { context };
    match year {
        Some(year) => match month {
            Some(month) => {
                let m = CalendarMonth::new(year, month)?;
                let before = match before { Some(v) => v, None => defaults.before_args };
                let after = match after { Some(v) => v, None => defaults.after_args };
                Ok(Command::RenderMonths { year: m.year, month: m.month, before, after })
            },
            None => Ok(Command::RenderYear { year }),
        },
        None => {
            let before = match before { Some(v) => v, None => defaults.before_noargs };
            let after = match after { Some(v) => v, None => defaults.after_noargs };
            Ok(Command::RenderMonths { year: today.year, month: today.month, before, after })
        },
    }
}

impl CalendarMonth {
    /// The month `n` months before this one, where every step stays in `i32` years.
    pub open spec fn back(self, n: nat) -> Option<CalendarMonth>
        decreases n,
    {
        if n == 0 {
            Some(self)
        } else {
            match self.back((n - 1) as nat) {
                Some(m) => m.previous_spec(),
                None => None,
            }
        }
    }

    /// The month `n` months after this one, where every step stays in `i32` years.
    pub open spec fn forward(self, n: nat) -> Option<CalendarMonth>
        decreases n,
    {
        if n == 0 {
            Some(self)
        } else {
            match self.forward((n - 1) as nat) {
                Some(m) => m.next_spec(),
                None => None,
            }
        }
    }
}

/// Once stepping forward fails, stepping further fails too.
pub proof fn lemma_forward_stays_none(m: CalendarMonth, n: nat, k: nat)
    requires
        n <= k,
        m.forward(n) is None,
    ensures
        m.forward(k) is None,
    decreases k - n,
{
    if n < k {
        lemma_forward_stays_none(m, n + 1, k);
    }
}

/// The months that a run of `before` months, the month itself and `after` months covers.
pub open spec fn window_spec(m: CalendarMonth, before: nat, after: nat) -> Option<Seq<CalendarMonth>> {
    match m.back(before) {
        Some(start) => match start.forward(before + after) {
            Some(_) => Some(Seq::new(before + 1 + after, |i: int| start.forward(i as nat).unwrap())),
            None => None,
        },
        None => None,
    }
}

impl Command {
    /// The months to render, in order: the twelve months of the year, or the run of
    /// months around the given one. Fails where a step leaves the `i32` years.
    pub fn months(self) -> (r: Result<Vec<CalendarMonth>, CalendarError>)
        requires
            self matches Command::RenderMonths { month, .. } ==> 1 <= month <= 12,
        ensures
            self matches Command::RenderYear { year } ==> (r matches Ok(v)
                && v@ == Seq::new(12, |i: int| CalendarMonth { year, month: (i + 1) as u8 })),
            self matches Command::RenderMonths { year, month, before, after } ==> (
                match window_spec(CalendarMonth { year, month }, before as nat, after as nat) {
                    Some(ms) => r matches Ok(v) && v@ == ms,
                    None => r is Err,
                }),
            r matches Ok(v) ==> forall|i: int| 0 <= i < v@.len() ==> (#[trigger] v@[i]).wf(),
    {
        let mut months: Vec<CalendarMonth> = Vec::new();
        match self {
            Command::RenderYear { year } => {
                let mut month: u8 = 1;
                while month <= 12
                    invariant
                        1 <= month <= 13,
                        months@ == Seq::new((month - 1) as nat, |i: int| CalendarMonth { year, month: (i + 1) as u8 }),
                    forall|j: int| 0 <= j < months@.len() ==> (#[trigger] months@[j]).wf(),
                    decreases 13 - month,
                {
                    months.push(CalendarMonth { year, month });
                    assert(months@ =~= Seq::new(month as nat, |i: int| CalendarMonth { year, month: (i + 1) as u8 }));
                    month = month + 1;
                }
                Ok(months)
            },
            Command::RenderMonths { year, month, before, after } => {
                let ghost m0 = CalendarMonth { year, month };
                let mut cur = CalendarMonth { year, month };
                let mut i: u32 = 0;
                while i < before
                    invariant
                        i <= before,
                        self == (Command::RenderMonths { year, month, before, after }),
                        m0 == (CalendarMonth { year, month }),
                        m0.wf(),
                        m0.back(i as nat) == Some(cur),
                        cur.wf(),
                    decreases before - i,
                {
                    match cur.previous() {
                        Ok(p) => {
                            cur = p;
                        },
                        Err(e) => {
                            proof {
                                assert(m0.back((i + 1) as nat) is None);
                                lemma_back_stays_none(m0, (i + 1) as nat, before as nat);
                                assert(window_spec(m0, before as nat, after as nat) is None);
                            }
                            return Err(e);
                        },
                    }
                    i = i + 1;
                }
                let ghost start = cur;
                let count: u64 = before as u64 + 1 + after as u64;
                let mut k: u64 = 0;
                while k < count
                    invariant
                        k <= count,
                        self == (Command::RenderMonths { year, month, before, after }),
                        m0 == (CalendarMonth { year, month }),
                        count == before + 1 + after,
                        m0.back(before as nat) == Some(start),
                        k < count ==> start.forward(k as nat) == Some(cur),
                        cur.wf(),
                        months@ == Seq::new(k as nat, |j: int| start.forward(j as nat).unwrap()),
                        forall|j: int| 0 <= j < months@.len() ==> (#[trigger] months@[j]).wf(),
                        k == count ==> start.forward((count - 1) as nat) is Some,
                    decreases count - k,
                {
                    months.push(cur);
                    assert(months@ =~= Seq::new((k + 1) as nat, |j: int| start.forward(j as nat).unwrap()));
                    if k + 1 < count {
                        match cur.next() {
                            Ok(n) => {
                                cur = n;
                            },
                            Err(e) => {
                                proof {
                                    assert(start.forward((k + 1) as nat) is None);
                                    lemma_forward_stays_none(start, (k + 1) as nat, (count - 1) as nat);
                                    assert(window_spec(m0, before as nat, after as nat) is None);
                                }
                                return Err(e);
                            },
                        }
                    }
                    k = k + 1;
                }
                assert(window_spec(m0, before as nat, after as nat) == Some(months@));
                Ok(months)
            },
        }
    }
}

/// Once stepping back fails, stepping further back fails too.
pub proof fn lemma_back_stays_none(m: CalendarMonth, n: nat, k: nat)
    requires
        n <= k,
        m.back(n) is None,
    ensures
        m.back(k) is None,
    decreases k - n,
{
    if n < k {
        lemma_back_stays_none(m, n + 1, k);
    }
}

} // verus!
