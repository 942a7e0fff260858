//! The timeframe filter's date-range entry: a **Start date** and an **End
//! date**, each independently on/off so the range can be open-ended
//! (start-only = "on or after", end-only = "on or before"). Within a date,
//! move between the year / month / day fields with `h`/`l` (or ←/→); change
//! the focused field with `k`/↑ (increase) and `j`/↓ (decrease) or by typing
//! digits; toggle a bound on/off with Space; or press `c` to pick the whole
//! range on a calendar.
use crate::api::models::{
    add_months_of, add_months_ok, civil_from_days, date_days, days_in_month_of,
    lemma_date_days_bounds, utc_day_of, Date, Timeframe,
};
use crate::text::{all_digits, parse_nat_upto, parse_u32, push_char};
use crate::ui::calendar::{cal_key_ok, cal_step, CalResult, Calendar};
use crate::ui::input::{KeyCode, KeyEvent};
use vstd::prelude::*;

verus! {

/// A component of a date.
#[derive(Clone, Copy, Debug, PartialEq, Eq, Structural)]
pub enum Part {
    Year,
    Month,
    Day,
}

/// One bound of the range: its date and whether it is in effect.
#[derive(Clone, Copy, Debug, PartialEq, Eq, Structural)]
pub struct DateField {
    pub date: Date,
    pub enabled: bool,
}

pub struct DateRangeInput {
    pub start: DateField,
    pub end: DateField,
    /// Focused row: 0 = start, 1 = end.
    pub row: usize,
    /// Focused part within the row: 0 = year, 1 = month, 2 = day.
    pub part: usize,
    /// Digits typed into the focused field since it was focused.
    pub buf: String,
    pub error: bool,
    pub calendar: Option<Calendar>,
}

/// The mathematical state of the input: start, end, row, part, typed digits,
/// error flag, and the open calendar's cursor and start.
pub type RangeView = (DateField, DateField, int, int, Seq<char>, bool, Option<(Date, Option<Date>)>);

/// The part at focus index `i` (year, month, day).
pub open spec fn part_at(i: int) -> Part {
    if i == 0 {
        Part::Year
    } else if i == 1 {
        Part::Month
    } else {
        Part::Day
    }
}

/// `x` clamped into `[lo, hi]` (for `lo <= hi`).
pub open spec fn clamp(x: int, lo: int, hi: int) -> int {
    if x < lo {
        lo
    } else if x > hi {
        hi
    } else {
        x
    }
}

/// `d` with its day clamped to its month's length (and to at least 1).
pub open spec fn clamp_day_of(d: Date) -> Date {
    let dim = days_in_month_of(Date { year: d.year, month: d.month, day: 1 });
    let day = if d.day <= dim { d.day } else { dim };
    Date { year: d.year, month: d.month, day: if day >= 1 { day } else { 1 } }
}

/// [`clamp_day`] runs without overflow on `d`.
pub open spec fn clamp_day_ok(d: Date) -> bool {
    d.month < u32::MAX && (d.month == 12 ==> d.year < i32::MAX)
}

/// `date` with component `part` set to `n`, clamped to a valid value.
pub open spec fn set_part_of(date: Date, part: Part, n: i64) -> Date {
    match part {
        Part::Year => clamp_day_of(
            Date { year: clamp((n as i32) as int, 1, 9999) as i32, month: date.month, day: date.day },
        ),
        Part::Month => clamp_day_of(
            Date { year: date.year, month: clamp((n as u32) as int, 1, 12) as u32, day: date.day },
        ),
        Part::Day => Date {
            year: date.year,
            month: date.month,
            day: clamp((n as u32) as int, 1, days_in_month_of(date) as int) as u32,
        },
    }
}

/// [`set_part`] runs without overflow or panic on `date`.
pub open spec fn set_part_ok(date: Date, part: Part) -> bool {
    match part {
        Part::Year => date.month < u32::MAX,
        Part::Month => date.year < i32::MAX,
        Part::Day => clamp_day_ok(date) && days_in_month_of(date) >= 1,
    }
}

/// The value of the typed digits (0 when they do not parse).
pub open spec fn buf_value(buf: Seq<char>) -> u32 {
    match parse_nat_upto(buf, u32::MAX as nat) {
        Some(x) => x as u32,
        None => 0,
    }
}

/// The focused bound.
pub open spec fn focused(v: RangeView) -> DateField {
    if v.2 == 0 {
        v.0
    } else {
        v.1
    }
}

/// `v` with the focused bound replaced by `f`.
pub open spec fn with_focused(v: RangeView, f: DateField) -> RangeView {
    if v.2 == 0 {
        (f, v.1, v.2, v.3, v.4, v.5, v.6)
    } else {
        (v.0, f, v.2, v.3, v.4, v.5, v.6)
    }
}

/// Committing the typed digits into the focused field's date runs without
/// overflow.
pub open spec fn commit_ok(v: RangeView) -> bool {
    v.4.len() > 0 ==> set_part_ok(focused(v).date, part_at(v.3))
}

/// `v` after committing the typed digits into the focused field's date.
pub open spec fn commit_of(v: RangeView) -> RangeView {
    if v.4.len() == 0 {
        v
    } else {
        let f = focused(v);
        let w = with_focused(
            v,
            DateField { date: set_part_of(f.date, part_at(v.3), buf_value(v.4) as i64), enabled: f.enabled },
        );
        (w.0, w.1, w.2, w.3, Seq::empty(), w.5, w.6)
    }
}

/// `date` with component `part` stepped by `delta`.
pub open spec fn adjust_date(date: Date, part: Part, delta: int) -> Date {
    match part {
        Part::Year => clamp_day_of(Date { year: (date.year + delta) as i32, month: date.month, day: date.day }),
        Part::Month => add_months_of(date, delta),
        Part::Day => civil_from_days(date_days(date) + delta),
    }
}

/// Stepping `date`'s `part` by `delta` (±1) runs without overflow.
pub open spec fn adjust_date_ok(date: Date, part: Part, delta: int) -> bool {
    match part {
        Part::Year => i32::MIN <= date.year + delta <= i32::MAX && clamp_day_ok(
            Date { year: (date.year + delta) as i32, month: date.month, day: date.day },
        ),
        Part::Month => add_months_ok(date, delta),
        Part::Day => true,
    }
}

/// `v` after stepping the focused field by `delta` (typed digits committed
/// first).
pub open spec fn adjust_of(v: RangeView, delta: int) -> RangeView {
    let c = commit_of(v);
    let f = focused(c);
    let w = with_focused(c, DateField { date: adjust_date(f.date, part_at(c.3), delta), enabled: f.enabled });
    (w.0, w.1, w.2, w.3, w.4, false, w.6)
}

/// Focus moved by `delta` over the six fields (wrapping), typed digits
/// committed first.
pub open spec fn move_focus_of(v: RangeView, delta: int) -> RangeView {
    let c = commit_of(v);
    let next = (c.2 * 3 + c.3 + delta) % 6;
    (c.0, c.1, next / 3, next % 3, c.4, c.5, c.6)
}

/// The range's timeframe: `None` when both bounds are on but out of order.
pub open spec fn range_value(start: DateField, end: DateField) -> Option<Timeframe> {
    let from = if start.enabled { Some(start.date) } else { None };
    let to = if end.enabled { Some(end.date) } else { None };
    if start.enabled && end.enabled && date_days(start.date) > date_days(end.date) {
        None
    } else {
        Some(Timeframe { from, to })
    }
}

/// The digit a key types, if any.
pub open spec fn typed_digit(key: KeyEvent) -> Option<char> {
    match key.code {
        KeyCode::Char(c) => if '0' <= c <= '9' {
            Some(c)
        } else {
            None
        },
        _ => None,
    }
}

/// Which way a key moves the focus (`Some(-1)` back, `Some(1)` forward).
pub open spec fn focus_shift(key: KeyEvent) -> Option<int> {
    match key.code {
        KeyCode::Left => Some(-1),
        KeyCode::Right => Some(1),
        KeyCode::Tab => Some(1),
        KeyCode::Char(c) => if c == 'h' {
            Some(-1)
        } else if c == 'l' {
            Some(1)
        } else {
            None
        },
        _ => None,
    }
}

/// Which way a key steps the focused field (`Some(1)` up, `Some(-1)` down).
pub open spec fn field_shift(key: KeyEvent) -> Option<int> {
    match key.code {
        KeyCode::Up => Some(1),
        KeyCode::Down => Some(-1),
        KeyCode::Char(c) => if c == 'k' {
            Some(1)
        } else if c == 'j' {
            Some(-1)
        } else {
            None
        },
        _ => None,
    }
}

/// The digits after typing `d`: a full field starts over.
pub open spec fn buf_after(buf: Seq<char>, part: int, d: char) -> Seq<char> {
    let max = if part_at(part) == Part::Year { 4int } else { 2 };
    if buf.len() >= max {
        seq![d]
    } else {
        buf.push(d)
    }
}

/// The key can be handled without overflow or panic in state `v`.
pub open spec fn range_key_ok(v: RangeView, key: KeyEvent) -> bool {
    match v.6 {
        Some(c) => cal_key_ok(c.0, key),
        None => {
            &&& commit_ok(v)
            &&& (field_shift(key) matches Some(delta) ==> adjust_date_ok(
                focused(commit_of(v)).date,
                part_at(v.3),
                delta,
            ))
            &&& (typed_digit(key) is Some ==> set_part_ok(focused(v).date, part_at(v.3)))
        },
    }
}

/// What a key does to the input, with `today` seeding the calendar when the
/// start bound is off: the new state and the outcome (`Some(true)` apply,
/// `Some(false)` cancel, `None` stay open).
pub open spec fn range_step(v: RangeView, key: KeyEvent, today: Date) -> (RangeView, Option<bool>) {
    match v.6 {
        Some(c) => {
            let (cursor, start, res) = cal_step(c.0, c.1, key);
            match res {
                CalResult::Done { from, to } => (
                    (
                        DateField { date: from, enabled: true },
                        DateField { date: to, enabled: true },
                        v.2,
                        v.3,
                        v.4,
                        false,
                        None,
                    ),
                    None,
                ),
                CalResult::Cancel => ((v.0, v.1, v.2, v.3, v.4, v.5, None), None),
                CalResult::Continue => ((v.0, v.1, v.2, v.3, v.4, v.5, Some((cursor, start))), None),
            }
        },
        None => if key.code == KeyCode::Esc {
            (v, Some(false))
        } else if key.code == KeyCode::Enter {
            let c = commit_of(v);
            if range_value(c.0, c.1) is Some {
                (c, Some(true))
            } else {
                ((c.0, c.1, c.2, c.3, c.4, true, c.6), None)
            }
        } else if key.code == KeyCode::Backspace {
            ((v.0, v.1, v.2, v.3, Seq::empty(), v.5, v.6), None)
        } else if focus_shift(key) is Some {
            (move_focus_of(v, focus_shift(key)->0), None)
        } else if field_shift(key) is Some {
            (adjust_of(v, field_shift(key)->0), None)
        } else if key.code == KeyCode::Char(' ') {
            let c = commit_of(v);
            let f = focused(c);
            (with_focused(c, DateField { date: f.date, enabled: !f.enabled }), None)
        } else if key.code == KeyCode::Char('c') {
            let c = commit_of(v);
            let seed = if c.0.enabled { c.0.date } else { today };
            ((c.0, c.1, c.2, c.3, c.4, c.5, Some((seed, None::<Date>))), None)
        } else if typed_digit(key) is Some {
            let b = buf_after(v.4, v.3, typed_digit(key)->0);
            let f = focused(v);
            let w = with_focused(
                v,
                DateField { date: set_part_of(f.date, part_at(v.3), buf_value(b) as i64), enabled: f.enabled },
            );
            ((w.0, w.1, w.2, w.3, b, false, w.6), None)
        } else {
            (v, None)
        },
    }
}

/// The state a fresh input opens in for window `current` on day `today`:
/// whichever bounds are set are enabled; an empty window starts with both
/// bounds enabled on today.
pub open spec fn range_start(current: Timeframe, today: Date) -> RangeView {
    let empty = current.from is None && current.to is None;
    (
        DateField {
            date: match current.from {
                Some(d) => d,
                None => today,
            },
            enabled: current.from is Some || empty,
        },
        DateField {
            date: match current.to {
                Some(d) => d,
                None => today,
            },
            enabled: current.to is Some || empty,
        },
        0,
        0,
        Seq::empty(),
        false,
        None,
    )
}

/// `d` with its day clamped to its month's length (after a year/month change).
pub fn clamp_day(d: Date) -> (r: Date)
    requires
        clamp_day_ok(d),
    ensures
        r == clamp_day_of(d),
{
    let dim = Date::new(d.year, d.month, 1).days_in_month();
    let day = if d.day <= dim { d.day } else { dim };
    Date::new(d.year, d.month, if day >= 1 { day } else { 1 })
}

/// Set one year/month/day component of `date` to `n` (clamped to a valid
/// value).
pub fn set_part(date: Date, part: Part, n: i64) -> (r: Date)
    requires
        set_part_ok(date, part),
    ensures
        r == set_part_of(date, part, n),
{
    match part {
        Part::Year => {
            let y = n as i32;
            let y = if y < 1 { 1 } else if y > 9999 { 9999 } else { y };
            clamp_day(Date::new(y, date.month, date.day))
        },
        Part::Month => {
            let m = n as u32;
            let m = if m < 1 { 1 } else if m > 12 { 12 } else { m };
            clamp_day(Date::new(date.year, m, date.day))
        },
        Part::Day => {
            let dim = date.days_in_month();
            let d = n as u32;
            let d = if d < 1 { 1 } else if d > dim { dim } else { d };
            Date::new(date.year, date.month, d)
        },
    }
}

impl DateRangeInput {
    /// The mathematical state of the input.
    pub open spec fn view_of(&self) -> RangeView {
        (
            self.start,
            self.end,
            self.row as int,
            self.part as int,
            self.buf@,
            self.error,
            match self.calendar {
                Some(c) => Some((c.cursor, c.start)),
                None => None,
            },
        )
    }

    /// The input's fields are in range: a row of 0 or 1, a part of 0 to 2, and
    /// only ASCII digits typed.
    pub open spec fn wf(&self) -> bool {
        &&& self.row < 2
        &&& self.part < 3
        &&& all_digits(self.buf@)
    }

    /// An input for window `current` on day `today` (see [`range_start`]).
    pub fn new_on(current: Timeframe, today: Date) -> (r: Self)
        ensures
            r.view_of() == range_start(current, today),
            r.wf(),
    {
        let empty = current.is_empty();
        let from = match current.from {
            Some(d) => d,
            None => today,
        };
        let to = match current.to {
            Some(d) => d,
            None => today,
        };
        DateRangeInput {
            start: DateField { date: from, enabled: current.from.is_some() || empty },
            end: DateField { date: to, enabled: current.to.is_some() || empty },
            row: 0,
            part: 0,
            buf: String::new(),
            error: false,
            calendar: None,
        }
    }

    /// An input for window `current`, with today's date (UTC) for the unset
    /// bounds.
    pub fn new(current: Timeframe) -> (r: Self)
        ensures
            exists|secs: u64| r.view_of() == range_start(current, #[trigger] utc_day_of(secs)),
            r.wf(),
    {
        let today = Date::today();
        Self::new_on(current, today)
    }

    /// The focused bound.
    fn field(&self) -> (r: DateField)
        ensures
            r == focused(self.view_of()),
    {
        if self.row == 0 {
            self.start
        } else {
            self.end
        }
    }

    /// Replace the focused bound.
    fn set_field(&mut self, f: DateField)
        ensures
            final(self).view_of() == with_focused(old(self).view_of(), f),
            final(self).row == old(self).row,
            final(self).part == old(self).part,
            final(self).buf@ == old(self).buf@,
    {
        if self.row == 0 {
            self.start = f;
        } else {
            self.end = f;
        }
    }

    /// The focused part.
    fn part_kind(&self) -> (r: Part)
        ensures
            r == part_at(self.part as int),
    {
        if self.part == 0 {
            Part::Year
        } else if self.part == 1 {
            Part::Month
        } else {
            Part::Day
        }
    }

    /// The value of the typed digits (0 when they do not parse).
    fn buf_number(&self) -> (r: u32)
        ensures
            r == buf_value(self.buf@),
    {
        let v = crate::text::chars_of(self.buf.as_str());
        match parse_u32(&v) {
            Some(n) => n,
            None => 0,
        }
    }

    /// Commit any typed digits into the focused field's date.
    pub fn commit_buf(&mut self)
        requires
            commit_ok(old(self).view_of()),
        ensures
            final(self).view_of() == commit_of(old(self).view_of()),
    {
        if self.buf.as_str().unicode_len() == 0 {
            return;
        }
        let n = self.buf_number();
        let part = self.part_kind();
        let f = self.field();
        self.set_field(DateField { date: set_part(f.date, part, n as i64), enabled: f.enabled });
        self.buf = String::new();
    }

    /// Step the focused field by `delta` (carrying months into years and
    /// clamping the day).
    pub fn adjust(&mut self, delta: i64)
        requires
            delta == 1 || delta == -1,
            commit_ok(old(self).view_of()),
            adjust_date_ok(
                focused(commit_of(old(self).view_of())).date,
                part_at(old(self).part as int),
                delta as int,
            ),
        ensures
            final(self).view_of() == adjust_of(old(self).view_of(), delta as int),
    {
        self.commit_buf();
        let part = self.part_kind();
        let f = self.field();
        proof {
            lemma_date_days_bounds(f.date);
        }
        let date = match part {
            Part::Year => clamp_day(Date::new(f.date.year + delta as i32, f.date.month, f.date.day)),
            Part::Month => f.date.add_months(delta as i32),
            Part::Day => f.date.add_days(delta),
        };
        self.set_field(DateField { date, enabled: f.enabled });
        self.error = false;
    }

    /// Move the focus by `delta` over the six fields (year, month, day of the
    /// start, then of the end), wrapping around.
    pub fn move_focus(&mut self, delta: i64)
        requires
            delta == 1 || delta == -1,
            old(self).wf(),
            commit_ok(old(self).view_of()),
        ensures
            final(self).view_of() == move_focus_of(old(self).view_of(), delta as int),
            final(self).wf(),
    {
        self.commit_buf();
        let idx: i64 = (self.row * 3 + self.part) as i64;
        let next: i64 = (idx + delta + 6) % 6;
        assert(next == (idx + delta) % 6);
        self.row = (next / 3) as usize;
        self.part = (next % 3) as usize;
    }

    /// The range's timeframe, or `None` if both bounds are on but out of
    /// order.
    pub fn value(&self) -> (r: Option<Timeframe>)
        ensures
            r == range_value(self.start, self.end),
    {
        let from = if self.start.enabled {
            Some(self.start.date)
        } else {
            None
        };
        let to = if self.end.enabled {
            Some(self.end.date)
        } else {
            None
        };
        if self.start.enabled && self.end.enabled && self.start.date.to_epoch_days()
            > self.end.date.to_epoch_days() {
            return None;
        }
        Some(Timeframe { from, to })
    }

    /// Handle a key with `today` as the calendar's seed when the start bound
    /// is off. `Some(true)` to apply, `Some(false)` to cancel, `None` to stay
    /// open.
    pub fn handle_on(&mut self, key: KeyEvent, today: Date) -> (r: Option<bool>)
        requires
            old(self).wf(),
            range_key_ok(old(self).view_of(), key),
        ensures
            (final(self).view_of(), r) == range_step(old(self).view_of(), key, today),
            final(self).wf(),
    {
        if self.calendar.is_some() {
            let mut cal = self.calendar.take().unwrap();
            match cal.handle(key) {
                CalResult::Done { from, to } => {
                    self.start = DateField { date: from, enabled: true };
                    self.end = DateField { date: to, enabled: true };
                    self.error = false;
                },
                CalResult::Cancel => {},
                CalResult::Continue => {
                    self.calendar = Some(cal);
                },
            }
            return None;
        }
        match key.code {
            KeyCode::Esc => {
                return Some(false);
            },
            KeyCode::Enter => {
                self.commit_buf();
                if self.value().is_some() {
                    return Some(true);
                }
                self.error = true;
                return None;
            },
            KeyCode::Backspace => {
                self.buf = String::new();
                return None;
            },
            KeyCode::Left => {
                self.move_focus(-1);
                return None;
            },
            KeyCode::Right | KeyCode::Tab => {
                self.move_focus(1);
                return None;
            },
            KeyCode::Up => {
                self.adjust(1);
                return None;
            },
            KeyCode::Down => {
                self.adjust(-1);
                return None;
            },
            KeyCode::Char(c) => {
                if c == 'h' {
                    self.move_focus(-1);
                } else if c == 'l' {
                    self.move_focus(1);
                } else if c == 'k' {
                    self.adjust(1);
                } else if c == 'j' {
                    self.adjust(-1);
                } else if c == ' ' {
                    self.commit_buf();
                    let f = self.field();
                    self.set_field(DateField { date: f.date, enabled: !f.enabled });
                } else if c == 'c' {
                    self.commit_buf();
                    let seed = if self.start.enabled {
                        self.start.date
                    } else {
                        today
                    };
                    self.calendar = Some(Calendar::new(seed));
                } else if '0' <= c && c <= '9' {
                    let max: usize = if self.part == 0 { 4 } else { 2 };
                    if self.buf.as_str().unicode_len() >= max {
                        self.buf = String::new();
                    }
                    let ghost before = self.buf@;
                    push_char(&mut self.buf, c);
                    assert(self.buf@ == buf_after(before, self.part as int, c));
                    let n = self.buf_number();
                    let part = self.part_kind();
                    let f = self.field();
                    self.set_field(DateField { date: set_part(f.date, part, n as i64), enabled: f.enabled });
                    self.error = false;
                }
                return None;
            },
            _ => {
                return None;
            },
        }
    }

    /// Handle a key (seeding the calendar with today's date, UTC, when the
    /// start bound is off). `Some(true)` to apply, `Some(false)` to cancel,
    /// `None` to stay open.
    pub fn handle(&mut self, key: KeyEvent) -> (r: Option<bool>)
        requires
            old(self).wf(),
            range_key_ok(old(self).view_of(), key),
        ensures
            exists|secs: u64|
                (final(self).view_of(), r) == range_step(old(self).view_of(), key, #[trigger] utc_day_of(secs)),
            final(self).wf(),
    {
        let today = Date::today();
        self.handle_on(key, today)
    }
}


/// Enter applies only a range whose bounds are in order; otherwise it keeps
/// the input open with the error flag set.
pub proof fn law_enter_applies_only_valid(v: RangeView, key: KeyEvent, today: Date)
    requires
        v.6 is None,
        key.code == KeyCode::Enter,
    ensures
        ({
            let (w, r) = range_step(v, key, today);
            &&& r == Some(true) ==> range_value(w.0, w.1) is Some
            &&& r != Some(true) ==> w.5 && r is None
        }),
{
}

/// A range with both bounds on is refused exactly when the start is after
/// the end; a range with a bound off is always accepted.
pub proof fn law_range_value(start: DateField, end: DateField)
    ensures
        range_value(start, end) is None <==> (start.enabled && end.enabled && date_days(start.date)
            > date_days(end.date)),
{
}


/// A date far from the integer limits: a real month and a year within a
/// million of year 0.
pub open spec fn tame(d: Date) -> bool {
    1 <= d.month <= 12 && -1_000_000 <= d.year <= 1_000_000
}

/// A tame date stays tame when one part is set from typed digits.
proof fn lemma_set_part_tame(d: Date, part: Part, n: i64)
    requires
        tame(d),
    ensures
        tame(set_part_of(d, part, n)),
{
}

/// Every key is safe for an input whose dates are all tame.
proof fn lemma_tame_keys_ok(v: RangeView, key: KeyEvent)
    requires
        tame(v.0.date),
        tame(v.1.date),
        v.6 matches Some(c) ==> tame(c.0),
    ensures
        range_key_ok(v, key),
{
    match v.6 {
        Some(c) => {},
        None => {
            let f = focused(v);
            if part_at(v.3) == Part::Day {
                crate::api::models::lemma_days_in_month(f.date);
            }
            let c = commit_of(v);
            if v.4.len() > 0 {
                lemma_set_part_tame(f.date, part_at(v.3), buf_value(v.4) as i64);
            }
            assert(tame(focused(c).date));
        },
    }
}

/// The input is consistent and its dates (and the calendar's cursor) are
/// tame.
pub open spec fn acceptable(d: DateRangeInput) -> bool {
    &&& d.wf()
    &&& tame(d.start.date)
    &&& tame(d.end.date)
    &&& (d.calendar matches Some(c) ==> tame(c.cursor))
}

impl DateRangeInput {
    /// The input is consistent and its dates (and the calendar's cursor)
    /// are far from the integer limits (see [`acceptable`]), so any key can
    /// be handled.
    pub fn accepts(&self) -> (r: bool)
        ensures
            r == acceptable(*self),
            r ==> forall|key: KeyEvent| range_key_ok(self.view_of(), key),
    {
        let tame_date = |d: Date| -> (t: bool)
            ensures
                t == tame(d),
            { 1 <= d.month && d.month <= 12 && -1_000_000 <= d.year && d.year <= 1_000_000 };
        if !self.consistent() {
            return false;
        }
        if !tame_date(self.start.date) || !tame_date(self.end.date) {
            return false;
        }
        let cal_ok = match &self.calendar {
            Some(c) => tame_date(c.cursor),
            None => true,
        };
        if !cal_ok {
            return false;
        }
        assert forall|key: KeyEvent| range_key_ok(self.view_of(), key) by {
            lemma_tame_keys_ok(self.view_of(), key);
        }
        true
    }
}

/// Whether month arithmetic on `d` by one month either way is safe (see
/// [`add_months_ok`]).
fn add_months_safe(d: Date, delta: i64) -> (r: bool)
    requires
        delta == 1 || delta == -1,
    ensures
        r == add_months_ok(d, delta as int),
{
    let m0: i64 = (d.month as i32) as i64 - 1 + delta;
    if m0 < -2147483648 || m0 > 2147483647 {
        return false;
    }
    let q: i64 = if m0 >= 0 { m0 / 12 } else { 0 - ((11 - m0) / 12) };
    proof {
        if m0 < 0 {
            assert(q as int == (m0 as int) / 12) by (nonlinear_arith)
                requires
                    m0 < 0,
                    q == -((11 - m0) / 12),
            ;
        }
        assert(0 <= m0 - q * 12 < 12) by (nonlinear_arith)
            requires
                q == (m0 as int) / 12,
        ;
        assert(m0 - q * 12 == (m0 as int) % 12) by (nonlinear_arith)
            requires
                q == (m0 as int) / 12,
        ;
    }
    let rem: i64 = m0 - q * 12;
    let y: i64 = d.year as i64 + q;
    if y < -2147483648 || y > 2147483647 {
        return false;
    }
    if rem == 11 && y >= 2147483647 {
        return false;
    }
    true
}

/// Whether setting `part` of `date` from typed digits is safe (see
/// [`set_part_ok`]).
fn set_part_safe(date: Date, part: Part) -> (r: bool)
    ensures
        r == set_part_ok(date, part),
{
    match part {
        Part::Year => date.month < u32::MAX,
        Part::Month => date.year < i32::MAX,
        Part::Day => {
            if date.month < u32::MAX && (date.month != 12 || date.year < i32::MAX) {
                date.days_in_month() >= 1
            } else {
                false
            }
        },
    }
}

/// Whether stepping `part` of `date` by `delta` is safe (see
/// [`adjust_date_ok`]).
fn adjust_safe(date: Date, part: Part, delta: i64) -> (r: bool)
    requires
        delta == 1 || delta == -1,
    ensures
        r == adjust_date_ok(date, part, delta as int),
{
    match part {
        Part::Year => {
            let y: i64 = date.year as i64 + delta;
            if y < -2147483648 || y > 2147483647 {
                false
            } else {
                date.month < u32::MAX && (date.month != 12 || y < 2147483647)
            }
        },
        Part::Month => add_months_safe(date, delta),
        Part::Day => true,
    }
}

/// Whether the calendar can take `key` with its cursor on `cursor` (see
/// [`cal_key_ok`]).
fn cal_key_safe(cursor: Date, key: KeyEvent) -> (r: bool)
    ensures
        r == cal_key_ok(cursor, key),
{
    match key.code {
        KeyCode::PageUp => add_months_safe(cursor, -1),
        KeyCode::PageDown => add_months_safe(cursor, 1),
        KeyCode::Char(c) => {
            if c == '[' {
                add_months_safe(cursor, -1)
            } else if c == ']' {
                add_months_safe(cursor, 1)
            } else {
                true
            }
        },
        _ => true,
    }
}

impl DateRangeInput {
    /// The input is consistent (see [`DateRangeInput::wf`]).
    pub fn consistent(&self) -> (r: bool)
        ensures
            r == self.wf(),
    {
        if self.row >= 2 || self.part >= 3 {
            return false;
        }
        let v = crate::text::chars_of(self.buf.as_str());
        let mut i: usize = 0;
        while i < v.len()
            invariant
                i <= v@.len(),
                v@ == self.buf@,
                forall|k: int| 0 <= k < i ==> 48 <= (#[trigger] v@[k] as u32) <= 57,
            decreases v.len() - i,
        {
            let c = v[i] as u32;
            if c < 48 || c > 57 {
                assert(!(48 <= (self.buf@[i as int] as u32) <= 57));
                return false;
            }
            i = i + 1;
        }
        true
    }

    /// Whether [`DateRangeInput::handle`] can take `key` now: the input is
    /// consistent and the key's arithmetic stays in range (see
    /// [`range_key_ok`]).
    pub fn takes_key(&self, key: KeyEvent) -> (r: bool)
        ensures
            r == (self.wf() && range_key_ok(self.view_of(), key)),
    {
        if !self.consistent() {
            return false;
        }
        match &self.calendar {
            Some(c) => cal_key_safe(c.cursor, key),
            None => {
                let f = self.field();
                let part = self.part_kind();
                let typed = self.buf.as_str().unicode_len() > 0;
                if typed && !set_part_safe(f.date, part) {
                    return false;
                }
                let digit = match key.code {
                    KeyCode::Char(c) => '0' <= c && c <= '9',
                    _ => false,
                };
                if digit && !set_part_safe(f.date, part) {
                    return false;
                }
                let shift: Option<i64> = match key.code {
                    KeyCode::Up => Some(1),
                    KeyCode::Down => Some(-1),
                    KeyCode::Char(c) => if c == 'k' {
                        Some(1)
                    } else if c == 'j' {
                        Some(-1)
                    } else {
                        None
                    },
                    _ => None,
                };
                match shift {
                    None => true,
                    Some(delta) => {
                        let date = if typed {
                            set_part(f.date, part, self.buf_number() as i64)
                        } else {
                            f.date
                        };
                        adjust_safe(date, part, delta)
                    },
                }
            },
        }
    }
}
} // verus!
