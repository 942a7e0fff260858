//! A month-grid calendar for picking a start and an end date. Navigate days
//! with the arrow keys / `hjkl`, change month with `[` / `]` (or PageUp /
//! PageDown), and press Enter twice: the first Enter sets the start, the
//! second the end (the pair is ordered automatically). Esc cancels.
use crate::api::models::{
    add_months_of, add_months_ok, civil_from_days, date_days, lemma_date_days_bounds, Date,
};
use crate::ui::input::{KeyCode, KeyEvent};
use vstd::prelude::*;

verus! {

/// Outcome of feeding a key to the calendar.
#[derive(Clone, Copy, Debug, PartialEq, Eq, Structural)]
pub enum CalResult {
    /// Both ends chosen (ordered `from ≤ to`).
    Done { from: Date, to: Date },
    Cancel,
    Continue,
}

pub struct Calendar {
    /// Highlighted day.
    pub cursor: Date,
    /// The chosen start; `None` until the first Enter.
    pub start: Option<Date>,
}

/// How many days a key moves the cursor, for the day and week keys.
pub open spec fn cal_day_shift(key: KeyEvent) -> Option<int> {
    match key.code {
        KeyCode::Left => Some(-1),
        KeyCode::Right => Some(1),
        KeyCode::Up => Some(-7),
        KeyCode::Down => Some(7),
        KeyCode::Char(c) => if c == 'h' {
            Some(-1)
        } else if c == 'l' {
            Some(1)
        } else if c == 'k' {
            Some(-7)
        } else if c == 'j' {
            Some(7)
        } else {
            None
        },
        _ => None,
    }
}

/// How many months a key moves the cursor, for the month keys.
pub open spec fn cal_month_shift(key: KeyEvent) -> Option<int> {
    match key.code {
        KeyCode::PageUp => Some(-1),
        KeyCode::PageDown => Some(1),
        KeyCode::Char(c) => if c == '[' {
            Some(-1)
        } else if c == ']' {
            Some(1)
        } else {
            None
        },
        _ => None,
    }
}

/// The month arithmetic a key asks for stays within `i32`.
pub open spec fn cal_key_ok(cursor: Date, key: KeyEvent) -> bool {
    cal_month_shift(key) matches Some(k) ==> add_months_ok(cursor, k)
}

/// What a key does to the calendar: new cursor, new start, and the outcome.
pub open spec fn cal_step(cursor: Date, start: Option<Date>, key: KeyEvent) -> (
    Date,
    Option<Date>,
    CalResult,
) {
    if key.code == KeyCode::Esc {
        (cursor, start, CalResult::Cancel)
    } else if key.code == KeyCode::Enter {
        match start {
            None => (cursor, Some(cursor), CalResult::Continue),
            Some(s) => if date_days(s) <= date_days(cursor) {
                (cursor, start, CalResult::Done { from: s, to: cursor })
            } else {
                (cursor, start, CalResult::Done { from: cursor, to: s })
            },
        }
    } else {
        match cal_day_shift(key) {
            Some(n) => (civil_from_days(date_days(cursor) + n), start, CalResult::Continue),
            None => match cal_month_shift(key) {
                Some(k) => (add_months_of(cursor, k), start, CalResult::Continue),
                None => (cursor, start, CalResult::Continue),
            },
        }
    }
}

/// `day` lies between the chosen start and the cursor (inclusive, in either
/// order); false before a start is chosen.
pub open spec fn pending_range_has(cursor: Date, start: Option<Date>, day: Date) -> bool {
    match start {
        None => false,
        Some(s) => {
            let (a, b, d) = (date_days(s), date_days(cursor), date_days(day));
            (a <= d <= b) || (b <= d <= a)
        },
    }
}

impl Calendar {
    /// Open the calendar with the cursor on `seed` and no start chosen.
    pub fn new(seed: Date) -> (r: Self)
        ensures
            r.cursor == seed,
            r.start is None,
    {
        Calendar { cursor: seed, start: None }
    }

    /// Feed a key to the calendar.
    pub fn handle(&mut self, key: KeyEvent) -> (r: CalResult)
        requires
            cal_key_ok(old(self).cursor, key),
        ensures
            (final(self).cursor, final(self).start, r) == cal_step(
                old(self).cursor,
                old(self).start,
                key,
            ),
    {
        proof {
            lemma_date_days_bounds(self.cursor);
        }
        let mut days: i64 = 0;
        let mut months: i32 = 0;
        match key.code {
            KeyCode::Esc => {
                return CalResult::Cancel;
            },
            KeyCode::Enter => {
                match self.start {
                    None => {
                        self.start = Some(self.cursor);
                        return CalResult::Continue;
                    },
                    Some(start) => {
                        if start.to_epoch_days() <= self.cursor.to_epoch_days() {
                            return CalResult::Done { from: start, to: self.cursor };
                        } else {
                            return CalResult::Done { from: self.cursor, to: start };
                        }
                    },
                }
            },
            KeyCode::Left => {
                days = -1;
            },
            KeyCode::Right => {
                days = 1;
            },
            KeyCode::Up => {
                days = -7;
            },
            KeyCode::Down => {
                days = 7;
            },
            KeyCode::PageUp => {
                months = -1;
            },
            KeyCode::PageDown => {
                months = 1;
            },
            KeyCode::Char(c) => {
                if c == 'h' {
                    days = -1;
                } else if c == 'l' {
                    days = 1;
                } else if c == 'k' {
                    days = -7;
                } else if c == 'j' {
                    days = 7;
                } else if c == '[' {
                    months = -1;
                } else if c == ']' {
                    months = 1;
                }
            },
            _ => {},
        }
        if days != 0 {
            self.cursor = self.cursor.add_days(days);
        } else if months != 0 {
            self.cursor = self.cursor.add_months(months);
        }
        CalResult::Continue
    }

    /// Whether `day` lies in the range between the chosen start and the
    /// cursor (inclusive); false before a start is chosen.
    pub fn in_pending_range(&self, day: Date) -> (r: bool)
        ensures
            r == pending_range_has(self.cursor, self.start, day),
    {
        match self.start {
            None => false,
            Some(start) => {
                let a = start.to_epoch_days();
                let b = self.cursor.to_epoch_days();
                let lo = if a <= b { a } else { b };
                let hi = if a <= b { b } else { a };
                let d = day.to_epoch_days();
                d >= lo && d <= hi
            },
        }
    }
}


/// A chosen range is always ordered: its start is on or before its end.
pub proof fn law_range_ordered(cursor: Date, start: Option<Date>, key: KeyEvent)
    ensures
        cal_step(cursor, start, key).2 matches CalResult::Done { from, to } ==> date_days(from) <= date_days(
            to,
        ),
{
}

/// The first Enter only records the start; the second completes the range
/// from the two picked days.
pub proof fn law_enter_twice(cursor: Date, key: KeyEvent)
    requires
        key.code == KeyCode::Enter,
    ensures
        cal_step(cursor, None, key) == (cursor, Some(cursor), CalResult::Continue),
        cal_step(cursor, Some(cursor), key).2 == (CalResult::Done { from: cursor, to: cursor }),
{
}

} // verus!
