use vstd::prelude::*;
use vstd::string::*;
use crate::date::{Date, MIN_YEAR, MAX_YEAR};
use crate::week::IsoWeek;
use crate::month::CalendarMonth;
use crate::error::{CalendarError, Overflow};

verus! {

/// How a cell of a rendered month is to be shown on a terminal.
#[derive(Debug, Clone, Copy, PartialEq, Eq, Structural)]
pub enum Style {
    Plain,
    /// The week number gutter.
    Dim,
    /// A day of a neighbouring month in a week that straddles the month boundary.
    OutsideMonth,
    /// The reference date "today".
    Today,
}

/// A run of text in a rendered line together with its style.
#[derive(Debug)]
pub struct Cell {
    pub text: String,
    pub style: Style,
}

pub open spec fn cell_of(c: Cell) -> (Seq<char>, Style) {
    (c.text@, c.style)
}

pub open spec fn line_of(l: Seq<Cell>) -> Seq<(Seq<char>, Style)> {
    l.map_values(|c: Cell| cell_of(c))
}

pub open spec fn block_of(b: Seq<Vec<Cell>>) -> Seq<Seq<(Seq<char>, Style)>> {
    b.map_values(|l: Vec<Cell>| line_of(l@))
}

/// The text of a line with the styles left out.
pub open spec fn text_of(l: Seq<(Seq<char>, Style)>) -> Seq<char>
    decreases l.len(),
{
    if l.len() == 0 {
        Seq::empty()
    } else {
        text_of(l.drop_last()) + l.last().0
    }
}

pub open spec fn spaces(n: nat) -> Seq<char> {
    Seq::new(n, |_i: int| ' ')
}

pub open spec fn digit(n: int) -> char {
    if n == 0 { '0' } else if n == 1 { '1' } else if n == 2 { '2' } else if n == 3 { '3' }
    else if n == 4 { '4' } else if n == 5 { '5' } else if n == 6 { '6' } else if n == 7 { '7' }
    else if n == 8 { '8' } else { '9' }
}

/// A number below 100 right-aligned in three columns.
pub open spec fn right3(n: int) -> Seq<char> {
    if n < 10 {
        seq![' ', ' ', digit(n)]
    } else {
        seq![' ', digit(n / 10), digit(n % 10)]
    }
}

/// A week number below 100 right-aligned in two columns and followed by a space.
pub open spec fn week_label(n: int) -> Seq<char> {
    if n < 10 {
        seq![' ', digit(n), ' ']
    } else {
        seq![digit(n / 10), digit(n % 10), ' ']
    }
}

pub open spec fn month_name(m: int) -> Seq<char> {
    if m == 1 { "January"@ } else if m == 2 { "February"@ } else if m == 3 { "March"@ }
    else if m == 4 { "April"@ } else if m == 5 { "May"@ } else if m == 6 { "June"@ }
    else if m == 7 { "July"@ } else if m == 8 { "August"@ } else if m == 9 { "September"@ }
    else if m == 10 { "October"@ } else if m == 11 { "November"@ } else { "December"@ }
}

/// The month's name with a space on each side, centred in 21 columns after a 3-column indent;
/// where the padding is odd the extra space goes to the right.
pub open spec fn title(m: int) -> Seq<char> {
    let word = seq![' '] + month_name(m) + seq![' '];
    let pad = 21 - word.len();
    spaces(3) + spaces((pad / 2) as nat) + word + spaces((pad - pad / 2) as nat)
}

pub open spec fn header() -> Seq<char> {
    "    Mo Tu We Th Fr Sa Su"@
}

pub open spec fn blank_row() -> Seq<(Seq<char>, Style)> {
    seq![(spaces(24), Style::Plain)]
}

pub open spec fn day_style(m: CalendarMonth, d: Date, today: Date) -> Style {
    if !m.contains(d) {
        Style::OutsideMonth
    } else if d == today {
        Style::Today
    } else {
        Style::Plain
    }
}

pub open spec fn day_cell(m: CalendarMonth, d: Date, today: Date) -> (Seq<char>, Style) {
    (right3(d.day as int), day_style(m, d, today))
}

/// The seven dates of a week, Monday first, each the day after the one before.
pub open spec fn days_spec(w: IsoWeek) -> Result<Seq<Date>, CalendarError> {
    match w.day_spec(1) {
        Some(d) => if d.advance(6) is Some {
            Ok(Seq::new(7, |i: int| d.advance(i as nat).unwrap()))
        } else {
            Err(CalendarError::Overflow(Overflow::DaysOfWeek))
        },
        None => Err(CalendarError::Overflow(Overflow::FirstDateInWeek)),
    }
}

pub open spec fn week_row(m: CalendarMonth, w: IsoWeek, days: Seq<Date>, today: Date) -> Seq<(Seq<char>, Style)> {
    seq![(week_label(w.week as int), Style::Dim)] + days.map_values(|d: Date| day_cell(m, d, today))
}

/// The last `k` rows of a month's block when the week `w` is the next to be placed: a row
/// for each week that belongs to the month, then blank rows. An error names the first
/// computation whose date is not representable.
pub open spec fn rows_spec(m: CalendarMonth, w: IsoWeek, k: nat, today: Date) -> Result<Seq<Seq<(Seq<char>, Style)>>, CalendarError>
    decreases k,
{
    if k == 0 {
        Ok(Seq::empty())
    } else {
        match m.contains_week_spec(w) {
            Err(e) => Err(e),
            Ok(false) => Ok(Seq::new(k, |_i: int| blank_row())),
            Ok(true) => match days_spec(w) {
                Err(e) => Err(e),
                Ok(ds) => match w.next_spec() {
                    None => Err(CalendarError::Overflow(Overflow::NextWeek)),
                    Some(nw) => match rows_spec(m, nw, (k - 1) as nat, today) {
                        Err(e) => Err(e),
                        Ok(rest) => Ok(seq![week_row(m, w, ds, today)] + rest),
                    },
                },
            },
        }
    }
}

/// The block of a month: title, weekday header and six week slots.
pub open spec fn render_spec(m: CalendarMonth, today: Date) -> Result<Seq<Seq<(Seq<char>, Style)>>, CalendarError> {
    if MIN_YEAR <= m.year <= MAX_YEAR {
        let first = IsoWeek::of(Date { year: m.year, month: m.month, day: 1 });
        match rows_spec(m, first, 6, today) {
            Ok(rows) => Ok(seq![seq![(title(m.month as int), Style::Plain)], seq![(header(), Style::Plain)]] + rows),
            Err(e) => Err(e),
        }
    } else {
        Err(CalendarError::Overflow(Overflow::FirstDateInMonth))
    }
}

fn digit_str(n: u8) -> (r: &'static str)
    requires
        n < 10,
    ensures
        r@ == seq![digit(n as int)],
{
    proof {
        reveal_strlit("0"); reveal_strlit("1"); reveal_strlit("2"); reveal_strlit("3");
        reveal_strlit("4"); reveal_strlit("5"); reveal_strlit("6"); reveal_strlit("7");
        reveal_strlit("8"); reveal_strlit("9");
    }
    if n == 0 { "0" } else if n == 1 { "1" } else if n == 2 { "2" } else if n == 3 { "3" }
    else if n == 4 { "4" } else if n == 5 { "5" } else if n == 6 { "6" } else if n == 7 { "7" }
    else if n == 8 { "8" } else { "9" }
}

fn right_aligned3(n: u8) -> (r: String)
    requires
        n < 100,
    ensures
        r@ == right3(n as int),
{
    proof { reveal_strlit(" "); reveal_strlit("  "); }
    let mut s = String::new();
    if n < 10 {
        s.append("  ");
        s.append(digit_str(n));
    } else {
        s.append(" ");
        s.append(digit_str(n / 10));
        s.append(digit_str(n % 10));
    }
    assert(s@ =~= right3(n as int));
    s
}

fn week_label_str(n: u8) -> (r: String)
    requires
        n < 100,
    ensures
        r@ == week_label(n as int),
{
    proof { reveal_strlit(" "); }
    let mut s = String::new();
    if n < 10 {
        s.append(" ");
        s.append(digit_str(n));
    } else {
        s.append(digit_str(n / 10));
        s.append(digit_str(n % 10));
    }
    s.append(" ");
    assert(s@ =~= week_label(n as int));
    s
}

fn month_name_str(m: u8) -> (r: &'static str)
    requires
        1 <= m <= 12,
    ensures
        r@ == month_name(m as int),
        r@.len() <= 9,
{
    proof {
        reveal_strlit("January"); reveal_strlit("February"); reveal_strlit("March");
        reveal_strlit("April"); reveal_strlit("May"); reveal_strlit("June");
        reveal_strlit("July"); reveal_strlit("August"); reveal_strlit("September");
        reveal_strlit("October"); reveal_strlit("November"); reveal_strlit("December");
    }
    if m == 1 { "January" } else if m == 2 { "February" } else if m == 3 { "March" }
    else if m == 4 { "April" } else if m == 5 { "May" } else if m == 6 { "June" }
    else if m == 7 { "July" } else if m == 8 { "August" } else if m == 9 { "September" }
    else if m == 10 { "October" } else if m == 11 { "November" } else { "December" }
}

fn append_spaces(s: &mut String, n: usize)
    ensures
        final(s)@ == old(s)@ + spaces(n as nat),
{
    proof {
        reveal_strlit(" ");
        assert(" "@ =~= seq![' ']);
    }
    let ghost start = s@;
    let mut i: usize = 0;
    while i < n
        invariant
            i <= n,
            s@ == start + spaces(i as nat),
        decreases n - i,
    {
        proof {
            reveal_strlit(" ");
            assert(" "@ =~= seq![' ']);
        }
        s.append(" ");
        assert(spaces((i + 1) as nat) =~= spaces(i as nat) + seq![' ']);
        assert(start + spaces(i as nat) + seq![' '] =~= start + (spaces(i as nat) + seq![' ']));
        assert(s@ =~= start + spaces((i + 1) as nat));
        i = i + 1;
    }
}

/// The title line of month number `m`.
pub fn title_line(m: u8) -> (r: String)
    requires
        1 <= m <= 12,
    ensures
        r@ == title(m as int),
{
    proof { reveal_strlit(" "); }
    let name = month_name_str(m);
    let len = name.unicode_len();
    let pad: usize = 21 - (len + 2);
    let mut s = String::new();
    append_spaces(&mut s, 3);
    append_spaces(&mut s, pad / 2);
    s.append(" ");
    s.append(name);
    s.append(" ");
    append_spaces(&mut s, pad - pad / 2);
    assert(s@ =~= title(m as int));
    s
}

fn blank_line() -> (r: Vec<Cell>)
    ensures
        line_of(r@) == blank_row(),
{
    let mut text = String::new();
    append_spaces(&mut text, 24);
    assert(text@ =~= spaces(24));
    let mut line: Vec<Cell> = Vec::new();
    line.push(Cell { text, style: Style::Plain });
    assert(line_of(line@) =~= blank_row());
    line
}

impl CalendarMonth {
    /// The line of one week: its number, then the day of the month of each of its dates, each
    /// styled by whether it lies in this month and whether it is `today`.
    pub fn render_week(self, iso_week: IsoWeek, today: Date) -> (r: Result<Vec<Cell>, CalendarError>)
        requires
            1 <= iso_week.week <= 53,
        ensures
            match days_spec(iso_week) {
                Ok(ds) => r matches Ok(l) && line_of(l@) == week_row(self, iso_week, ds, today),
                Err(e) => r matches Err(x) && x == e,
            },
    {
        let mut out: Vec<Cell> = Vec::new();
        out.push(Cell { text: week_label_str(iso_week.week), style: Style::Dim });
        let days = iso_week.weekdays()?;
        let ghost ds = days_spec(iso_week)->Ok_0;
        let ghost label = (week_label(iso_week.week as int), Style::Dim);
        assert(line_of(out@) =~= seq![label]);
        let mut i: usize = 0;
        while i < 7
            invariant
                i <= 7,
                ds.len() == 7,
                forall|j: int| 0 <= j < 7 ==> ds[j] == #[trigger] days[j] && days[j].wf(),
                line_of(out@) == seq![label] + ds.take(i as int).map_values(|d: Date| day_cell(self, d, today)),
            decreases 7 - i,
        {
            let d = days[i];
            let style = if !self.contains_date(d) {
                Style::OutsideMonth
            } else if d == today {
                Style::Today
            } else {
                Style::Plain
            };
            let ghost before = out@;
            out.push(Cell { text: right_aligned3(d.day), style });
            assert(ds.take(i + 1) =~= ds.take(i as int).push(d));
            assert(line_of(out@) =~= line_of(before).push(day_cell(self, d, today)));
            assert(ds.take(i + 1).map_values(|d: Date| day_cell(self, d, today)) =~= ds.take(
                i as int,
            ).map_values(|d: Date| day_cell(self, d, today)).push(day_cell(self, d, today)));
            i = i + 1;
        }
        assert(ds.take(7) =~= ds);
        Ok(out)
    }

    /// The block of this month: the title, the weekday header, then one line for each week
    /// from the month's first week on while the week belongs to the month, and blank lines
    /// for the remaining of the six week slots.
    pub fn render(self, today: Date) -> (r: Result<Vec<Vec<Cell>>, CalendarError>)
        requires
            self.wf(),
        ensures
            match render_spec(self, today) {
                Ok(b) => r matches Ok(x) && block_of(x@) == b,
                Err(e) => r matches Err(x) && x == e,
            },
    {
        let mut cur = self.first_week()?;
        let first = self.first_date()?;
        let mut out: Vec<Vec<Cell>> = Vec::new();
        let mut title_row: Vec<Cell> = Vec::new();
        title_row.push(Cell { text: title_line(first.month), style: Style::Plain });
        out.push(title_row);
        let mut header_row: Vec<Cell> = Vec::new();
        header_row.push(Cell { text: String::from_str("    Mo Tu We Th Fr Sa Su"), style: Style::Plain });
        out.push(header_row);
        assert(block_of(out@) =~= seq![seq![(title(self.month as int), Style::Plain)], seq![(header(), Style::Plain)]]) by {
            assert(line_of(out@[0]@) =~= seq![(title(self.month as int), Style::Plain)]);
            assert(line_of(out@[1]@) =~= seq![(header(), Style::Plain)]);
        }
        let mut k: usize = 0;
        while k < 6
            invariant
                k <= 6,
                self.wf(),
                1 <= cur.week <= 53,
                out@.len() == 2 + k,
                render_spec(self, today) == (match rows_spec(self, cur, (6 - k) as nat, today) {
                    Ok(rest) => Ok(block_of(out@) + rest),
                    Err(e) => Err(e),
                }),
            decreases 6 - k,
        {
            let ghost before = out@;
            let ghost n = (6 - k) as nat;
            if self.contains_week(cur)? {
                let row = self.render_week(cur, today)?;
                let ghost row_view = line_of(row@);
                out.push(row);
                let next = cur.next_week()?;
                assert(block_of(out@) =~= block_of(before).push(row_view));
                proof {
                    if let Ok(rs) = rows_spec(self, next, (n - 1) as nat, today) {
                        assert(block_of(before) + (seq![row_view] + rs) =~= block_of(out@) + rs);
                    }
                }
                cur = next;
            } else {
                let blank = blank_line();
                out.push(blank);
                assert(block_of(out@) =~= block_of(before).push(blank_row()));
                assert(rows_spec(self, cur, (n - 1) as nat, today) == Ok::<Seq<Seq<(Seq<char>, Style)>>, CalendarError>(Seq::new((n - 1) as nat, |_i: int| blank_row()))) by {
                    if n - 1 == 0 {
                        assert(Seq::new(0, |_i: int| blank_row()) =~= Seq::<Seq<(Seq<char>, Style)>>::empty());
                    }
                }
                assert(block_of(before) + Seq::new(n, |_i: int| blank_row()) =~= block_of(out@) + Seq::new((n - 1) as nat, |_i: int| blank_row()));
            }
            k = k + 1;
        }
        assert(block_of(out@) + Seq::empty() =~= block_of(out@));
        Ok(out)
    }
}

/// The text of a rendered line with the styles left out.
pub fn line_text(line: &Vec<Cell>) -> (r: String)
    ensures
        r@ == text_of(line_of(line@)),
{
    let mut s = String::new();
    let mut i: usize = 0;
    while i < line.len()
        invariant
            i <= line@.len(),
            s@ == text_of(line_of(line@.take(i as int))),
        decreases line@.len() - i,
    {
        s.append(line[i].text.as_str());
        assert(line_of(line@.take(i + 1)).drop_last() =~= line_of(line@.take(i as int)));
        i = i + 1;
    }
    assert(line@.take(line@.len() as int) =~= line@);
    s
}

/// Renders each of the months in turn; fails as soon as one of them cannot be rendered.
pub fn render_months(months: &Vec<CalendarMonth>, today: Date) -> (r: Result<Vec<Vec<Vec<Cell>>>, CalendarError>)
    requires
        forall|i: int| 0 <= i < months@.len() ==> (#[trigger] months@[i]).wf(),
    ensures
        (forall|i: int| 0 <= i < months@.len() ==> render_spec(#[trigger] months@[i], today) is Ok) ==> (
            r matches Ok(bs) && bs@.len() == months@.len() && forall|i: int| 0 <= i < months@.len()
                ==> render_spec(months@[i], today) == Ok::<_, CalendarError>(block_of(#[trigger] bs@[i]@))),
        r matches Err(e) ==> exists|i: int| 0 <= i < months@.len() && render_spec(#[trigger] months@[i], today)
            == Err::<Seq<Seq<(Seq<char>, Style)>>, CalendarError>(e)
            && forall|j: int| 0 <= j < i ==> render_spec(#[trigger] months@[j], today) is Ok,
{
    let mut out: Vec<Vec<Vec<Cell>>> = Vec::new();
    let mut i: usize = 0;
    while i < months.len()
        invariant
            i <= months@.len(),
            forall|j: int| 0 <= j < months@.len() ==> (#[trigger] months@[j]).wf(),
            out@.len() == i,
            forall|j: int| 0 <= j < i ==> render_spec(months@[j], today) == Ok::<_, CalendarError>(block_of(#[trigger] out@[j]@)),
        decreases months@.len() - i,
    {
        let block = match months[i].render(today) {
            Ok(b) => b,
            Err(e) => {
                assert forall|j: int| 0 <= j < i implies render_spec(#[trigger] months@[j], today) is Ok by {
                    assert(render_spec(months@[j], today) == Ok::<_, CalendarError>(block_of(out@[j]@)));
                }
                return Err(e);
            },
        };
        out.push(block);
        i = i + 1;
    }
    assert forall|j: int| 0 <= j < months@.len() implies render_spec(#[trigger] months@[j], today) is Ok by {
        assert(render_spec(months@[j], today) == Ok::<_, CalendarError>(block_of(out@[j]@)));
    }
    Ok(out)
}

/// A line whose cells are each three characters wide is three times as wide as it has cells.
pub proof fn lemma_text_of_cells_of_three(l: Seq<(Seq<char>, Style)>)
    requires
        forall|i: int| 0 <= i < l.len() ==> (#[trigger] l[i]).0.len() == 3,
    ensures
        text_of(l).len() == 3 * l.len(),
    decreases l.len(),
{
    if l.len() > 0 {
        lemma_text_of_cells_of_three(l.drop_last());
    }
}

pub proof fn lemma_text_of_single(c: (Seq<char>, Style))
    ensures
        text_of(seq![c]) == c.0,
{
    let l = seq![c];
    assert(l.drop_last() =~= Seq::<(Seq<char>, Style)>::empty());
    assert(l.last() == c);
    assert(text_of(l.drop_last()) == Seq::<char>::empty());
    assert(text_of(l) == text_of(l.drop_last()) + l.last().0);
    assert(Seq::<char>::empty() + c.0 =~= c.0);
}

/// Week rows and blank rows are 24 characters wide, and a run of `k` rows has `k` of them.
pub proof fn lemma_rows_shape(m: CalendarMonth, w: IsoWeek, k: nat, today: Date)
    ensures
        rows_spec(m, w, k, today) matches Ok(rs) ==> rs.len() == k
            && forall|i: int| 0 <= i < k ==> text_of(#[trigger] rs[i]).len() == 24,
    decreases k,
{
    lemma_text_of_single((spaces(24), Style::Plain));
    if k > 0 {
        match m.contains_week_spec(w) {
            Ok(true) => match days_spec(w) {
                Ok(ds) => match w.next_spec() {
                    Some(nw) => {
                        lemma_rows_shape(m, nw, (k - 1) as nat, today);
                        let row = week_row(m, w, ds, today);
                        assert forall|i: int| 0 <= i < row.len() implies (#[trigger] row[i]).0.len() == 3 by {
                            if i > 0 {
                                assert(row[i] == day_cell(m, ds[i - 1], today));
                            }
                        }
                        lemma_text_of_cells_of_three(row);
                        if let Ok(rest) = rows_spec(m, nw, (k - 1) as nat, today) {
                            let rs = seq![row] + rest;
                            assert forall|i: int| 0 <= i < k implies text_of(#[trigger] rs[i]).len() == 24 by {
                                if i > 0 {
                                    assert(rs[i] == rest[i - 1]);
                                }
                            }
                        }
                    },
                    None => {},
                },
                Err(_) => {},
            },
            _ => {},
        }
    }
}

/// Every rendered block has exactly eight lines, each 24 characters wide without its styles.
pub proof fn law_block_shape(m: CalendarMonth, today: Date)
    requires
        m.wf(),
    ensures
        render_spec(m, today) matches Ok(b) ==> b.len() == 8
            && forall|i: int| 0 <= i < 8 ==> text_of(#[trigger] b[i]).len() == 24,
{
    reveal_strlit("    Mo Tu We Th Fr Sa Su");
    reveal_strlit("January"); reveal_strlit("February"); reveal_strlit("March");
    reveal_strlit("April"); reveal_strlit("May"); reveal_strlit("June");
    reveal_strlit("July"); reveal_strlit("August"); reveal_strlit("September");
    reveal_strlit("October"); reveal_strlit("November"); reveal_strlit("December");
    lemma_text_of_single((title(m.month as int), Style::Plain));
    lemma_text_of_single((header(), Style::Plain));
    if MIN_YEAR <= m.year <= MAX_YEAR {
        let first = IsoWeek::of(Date { year: m.year, month: m.month, day: 1 });
        lemma_rows_shape(m, first, 6, today);
        if let Ok(rows) = rows_spec(m, first, 6, today) {
            let b = seq![seq![(title(m.month as int), Style::Plain)], seq![(header(), Style::Plain)]] + rows;
            assert(title(m.month as int).len() == 24);
            assert forall|i: int| 0 <= i < 8 implies text_of(#[trigger] b[i]).len() == 24 by {
                if i >= 2 {
                    assert(b[i] == rows[i - 2]);
                }
            }
        }
    }
}

/// The week `i` weeks after `w`, each step taken by `next_spec`.
pub open spec fn week_after(w: IsoWeek, i: nat) -> Option<IsoWeek>
    decreases i,
{
    if i == 0 {
        Some(w)
    } else {
        match w.next_spec() {
            Some(n) => week_after(n, (i - 1) as nat),
            None => None,
        }
    }
}

/// The rows hold `n` week rows and then blank rows: the weeks of the week rows are the `n`
/// weeks from `w` on, each belonging to the month, and where blank rows follow, the next week
/// does not belong to it.
pub open spec fn slots_split(m: CalendarMonth, w: IsoWeek, rs: Seq<Seq<(Seq<char>, Style)>>, n: int) -> bool {
    &&& 0 <= n <= rs.len()
    &&& forall|i: int| 0 <= i < n ==> (#[trigger] rs[i]).len() == 8
        && (week_after(w, i as nat) matches Some(x) && m.contains_week_spec(x) == Ok::<bool, CalendarError>(true))
    &&& forall|i: int| n <= i < rs.len() ==> #[trigger] rs[i] == blank_row()
    &&& n < rs.len() ==> (week_after(w, n as nat) matches Some(x) && m.contains_week_spec(x) == Ok::<bool, CalendarError>(false))
}

pub proof fn lemma_rows_split(m: CalendarMonth, w: IsoWeek, k: nat, today: Date)
    ensures
        rows_spec(m, w, k, today) matches Ok(rs) ==> rs.len() == k && exists|n: int| slots_split(m, w, rs, n),
    decreases k,
{
    if k > 0 {
        match m.contains_week_spec(w) {
            Ok(false) => {
                let rs = Seq::new(k, |_i: int| blank_row());
                assert(week_after(w, 0) == Some(w));
                assert(slots_split(m, w, rs, 0));
            },
            Ok(true) => match days_spec(w) {
                Ok(ds) => match w.next_spec() {
                    Some(nw) => {
                        lemma_rows_split(m, nw, (k - 1) as nat, today);
                        if let Ok(rest) = rows_spec(m, nw, (k - 1) as nat, today) {
                            let n0 = choose|n: int| slots_split(m, nw, rest, n);
                            let row = week_row(m, w, ds, today);
                            let rs = seq![row] + rest;
                            assert(week_after(w, 0) == Some(w));
                            assert forall|i: int| 1 <= i <= k implies #[trigger] week_after(w, i as nat) == week_after(nw, (i - 1) as nat) by {
                            }
                            assert forall|i: int| 0 <= i < n0 + 1 implies (#[trigger] rs[i]).len() == 8
                                && (week_after(w, i as nat) matches Some(x) && m.contains_week_spec(x) == Ok::<bool, CalendarError>(true)) by {
                                if i > 0 {
                                    assert(rs[i] == rest[i - 1]);
                                }
                            }
                            assert forall|i: int| n0 + 1 <= i < rs.len() implies #[trigger] rs[i] == blank_row() by {
                                assert(rs[i] == rest[i - 1]);
                            }
                            assert(slots_split(m, w, rs, n0 + 1));
                        }
                    },
                    None => {},
                },
                Err(_) => {},
            },
            Err(_) => {},
        }
    } else {
        if let Ok(rs) = rows_spec(m, w, k, today) {
            assert(slots_split(m, w, rs, 0));
        }
    }
}

/// Below the title and the header, a rendered block holds one row for each of the weeks from
/// the month's first week on that belong to the month (its Monday or Sunday lies in it), and
/// blank filler rows for the rest of the six slots.
pub proof fn law_week_slots(m: CalendarMonth, today: Date)
    requires
        m.wf(),
    ensures
        render_spec(m, today) matches Ok(b) ==> b.len() == 8 && exists|n: int|
            slots_split(m, IsoWeek::of(Date { year: m.year, month: m.month, day: 1 }), b.subrange(2, 8), n),
{
    if MIN_YEAR <= m.year <= MAX_YEAR {
        let first = IsoWeek::of(Date { year: m.year, month: m.month, day: 1 });
        lemma_rows_split(m, first, 6, today);
        if let Ok(rows) = rows_spec(m, first, 6, today) {
            let b = seq![seq![(title(m.month as int), Style::Plain)], seq![(header(), Style::Plain)]] + rows;
            assert(b.subrange(2, 8) =~= rows);
            let n = choose|n: int| slots_split(m, first, rows, n);
            assert(slots_split(m, first, b.subrange(2, 8), n));
            assert(render_spec(m, today) == Ok::<_, CalendarError>(b));
            assert(render_spec(m, today).unwrap().subrange(2, 8) == rows);
            assert(slots_split(m, first, render_spec(m, today).unwrap().subrange(2, 8), n));
        }
    }
}

} // verus!
