//! Work-item domain model: workflow states, work items, calendar dates and
//! their arithmetic, change-date windows, iterations, and the list filter.
use crate::text::{
    all_digits, byte_len, byte_prefix, chars_of, dec, eq_ic, eq_ignore_case, fmt_int_pad, has_prefix, lower_seq, pad0,
    parse_int, parse_nat_upto, parse_signed, parse_u32, prefix_bytes, push_char, push_dec_pad,
    push_int_pad, push_string, split_char, split_on, str_eq, to_lower, trim, trimmed, views,
};
use vstd::prelude::*;

verus! {

/// Colour category of a work item's workflow state.
#[derive(Clone, Copy, Debug, PartialEq, Eq, Structural)]
pub enum WorkItemState {
    New,
    Active,
    Resolved,
    Closed,
}

/// Display label of a state.
pub open spec fn state_label(s: WorkItemState) -> Seq<char> {
    match s {
        WorkItemState::New => "New"@,
        WorkItemState::Active => "Active"@,
        WorkItemState::Resolved => "Resolved"@,
        WorkItemState::Closed => "Closed"@,
    }
}

/// Successor in the New → Active → Resolved → Closed → New cycle.
pub open spec fn state_next(s: WorkItemState) -> WorkItemState {
    match s {
        WorkItemState::New => WorkItemState::Active,
        WorkItemState::Active => WorkItemState::Resolved,
        WorkItemState::Resolved => WorkItemState::Closed,
        WorkItemState::Closed => WorkItemState::New,
    }
}

/// The state whose label is exactly `s`, if any.
pub open spec fn state_from_label(s: Seq<char>) -> Option<WorkItemState> {
    if s == "New"@ {
        Some(WorkItemState::New)
    } else if s == "Active"@ {
        Some(WorkItemState::Active)
    } else if s == "Resolved"@ {
        Some(WorkItemState::Resolved)
    } else if s == "Closed"@ {
        Some(WorkItemState::Closed)
    } else {
        None
    }
}

/// Colour category of an arbitrary process-template state name: matched on
/// the trimmed, ASCII-lower-cased name; unknown names count as active.
pub open spec fn state_category(name: Seq<char>) -> WorkItemState {
    let n = lower_seq(trim(name));
    if n == "new"@ || n == "to do"@ || n == "proposed"@ || n == "approved"@ || n == "open"@ {
        WorkItemState::New
    } else if n == "active"@ || n == "in progress"@ || n == "committed"@ || n == "doing"@
        || n == "started"@ {
        WorkItemState::Active
    } else if n == "resolved"@ || n == "in review"@ || n == "testing"@ {
        WorkItemState::Resolved
    } else if n == "closed"@ || n == "done"@ || n == "completed"@ || n == "removed"@ {
        WorkItemState::Closed
    } else {
        WorkItemState::Active
    }
}

impl WorkItemState {
    pub fn label(&self) -> (r: &'static str)
        ensures
            r@ == state_label(*self),
    {
        match self {
            WorkItemState::New => "New",
            WorkItemState::Active => "Active",
            WorkItemState::Resolved => "Resolved",
            WorkItemState::Closed => "Closed",
        }
    }

    /// Next state in the workflow cycle (wraps around).
    pub fn next(self) -> (r: Self)
        ensures
            r == state_next(self),
    {
        match self {
            WorkItemState::New => WorkItemState::Active,
            WorkItemState::Active => WorkItemState::Resolved,
            WorkItemState::Resolved => WorkItemState::Closed,
            WorkItemState::Closed => WorkItemState::New,
        }
    }

    pub fn from_label(s: &str) -> (r: Option<Self>)
        ensures
            r == state_from_label(s@),
    {
        if str_eq(s, "New") {
            Some(WorkItemState::New)
        } else if str_eq(s, "Active") {
            Some(WorkItemState::Active)
        } else if str_eq(s, "Resolved") {
            Some(WorkItemState::Resolved)
        } else if str_eq(s, "Closed") {
            Some(WorkItemState::Closed)
        } else {
            None
        }
    }

    /// Map an arbitrary process-template state name (e.g. "Committed", "Done",
    /// "To Do") to a colour category.
    pub fn category(name: &str) -> (r: Self)
        ensures
            r == state_category(name@),
    {
        let t = trimmed(name);
        let n = to_lower(t.as_str());
        let n = n.as_str();
        if str_eq(n, "new") || str_eq(n, "to do") || str_eq(n, "proposed") || str_eq(n, "approved")
            || str_eq(n, "open") {
            WorkItemState::New
        } else if str_eq(n, "active") || str_eq(n, "in progress") || str_eq(n, "committed")
            || str_eq(n, "doing") || str_eq(n, "started") {
            WorkItemState::Active
        } else if str_eq(n, "resolved") || str_eq(n, "in review") || str_eq(n, "testing") {
            WorkItemState::Resolved
        } else if str_eq(n, "closed") || str_eq(n, "done") || str_eq(n, "completed") || str_eq(
            n,
            "removed",
        ) {
            WorkItemState::Closed
        } else {
            WorkItemState::Active
        }
    }
}

/// A "Development" link on a work item: a pull request, commit, branch, or an
/// external hyperlink (e.g. a GitHub URL).
#[derive(Clone, Debug)]
pub struct DevLink {
    /// Human label, e.g. "Pull Request", "GitHub", "Commit".
    pub kind: String,
    pub name: String,
    pub url: String,
}

#[derive(Clone, Debug)]
pub struct Comment {
    /// Stable id so a specific comment can be edited.
    pub id: u32,
    pub author: String,
    pub when: String,
    pub text: String,
}

#[derive(Clone, Debug)]
pub struct WorkItem {
    pub id: u32,
    pub title: String,
    /// "User Story", "Task", "Bug", ...
    pub item_type: String,
    pub state: WorkItemState,
    /// Raw server state string (e.g. "Committed", "Done"), shown verbatim.
    pub state_name: String,
    /// Valid states for this item's type/workflow (for the state picker).
    pub available_states: Vec<String>,
    pub assigned_to: String,
    pub iteration: String,
    pub description: String,
    /// Free-form notes (separate from description).
    pub notes: String,
    pub tags: Vec<String>,
    /// Story-point estimate in tenths of a point (`25` is 2.5 points).
    pub story_points: Option<u32>,
    pub parent: Option<u32>,
    pub children: Vec<u32>,
    /// "Development" links: pull requests, commits, branches, external URLs.
    pub dev_links: Vec<DevLink>,
    pub comments: Vec<Comment>,
    /// How many days ago this item was last changed (drives timeframe filter).
    pub changed_days_ago: u32,
    /// Server revision; bumps on every change. Drives conflict detection.
    pub rev: u32,
}

/// The mathematical value of a [`WorkItem`]: every field, with vectors seen
/// as sequences.
pub struct ItemView {
    pub id: u32,
    pub title: String,
    pub item_type: String,
    pub state: WorkItemState,
    pub state_name: String,
    pub available_states: Seq<String>,
    pub assigned_to: String,
    pub iteration: String,
    pub description: String,
    pub notes: String,
    pub tags: Seq<String>,
    pub story_points: Option<u32>,
    pub parent: Option<u32>,
    pub children: Seq<u32>,
    pub dev_links: Seq<DevLink>,
    pub comments: Seq<Comment>,
    pub changed_days_ago: u32,
    pub rev: u32,
}

impl View for WorkItem {
    type V = ItemView;

    open spec fn view(&self) -> ItemView {
        ItemView {
            id: self.id,
            title: self.title,
            item_type: self.item_type,
            state: self.state,
            state_name: self.state_name,
            available_states: self.available_states@,
            assigned_to: self.assigned_to,
            iteration: self.iteration,
            description: self.description,
            notes: self.notes,
            tags: self.tags@,
            story_points: self.story_points,
            parent: self.parent,
            children: self.children@,
            dev_links: self.dev_links@,
            comments: self.comments@,
            changed_days_ago: self.changed_days_ago,
            rev: self.rev,
        }
    }
}

/// A copy of a vector of strings, element for element.
pub fn copy_strings(v: &Vec<String>) -> (r: Vec<String>)
    ensures
        r@ == v@,
{
    let mut out: Vec<String> = Vec::new();
    let mut i: usize = 0;
    while i < v.len()
        invariant
            i <= v.len(),
            out@ == v@.take(i as int),
        decreases v.len() - i,
    {
        out.push(v[i].clone());
        i = i + 1;
        assert(out@ =~= v@.take(i as int));
    }
    assert(v@.take(v.len() as int) =~= v@);
    out
}

/// A copy of a vector of ids.
pub fn copy_ids(v: &Vec<u32>) -> (r: Vec<u32>)
    ensures
        r@ == v@,
{
    let mut out: Vec<u32> = Vec::new();
    let mut i: usize = 0;
    while i < v.len()
        invariant
            i <= v.len(),
            out@ == v@.take(i as int),
        decreases v.len() - i,
    {
        out.push(v[i]);
        i = i + 1;
        assert(out@ =~= v@.take(i as int));
    }
    assert(v@.take(v.len() as int) =~= v@);
    out
}

impl DevLink {
    pub fn copy(&self) -> (r: Self)
        ensures
            r == *self,
    {
        DevLink { kind: self.kind.clone(), name: self.name.clone(), url: self.url.clone() }
    }
}

impl Comment {
    pub fn copy(&self) -> (r: Self)
        ensures
            r == *self,
    {
        Comment {
            id: self.id,
            author: self.author.clone(),
            when: self.when.clone(),
            text: self.text.clone(),
        }
    }
}

impl WorkItem {
    /// A field-for-field copy of this item.
    pub fn copy(&self) -> (r: Self)
        ensures
            r@ == self@,
    {
        let mut links: Vec<DevLink> = Vec::new();
        let mut i: usize = 0;
        while i < self.dev_links.len()
            invariant
                i <= self.dev_links.len(),
                links@ == self.dev_links@.take(i as int),
            decreases self.dev_links.len() - i,
        {
            links.push(self.dev_links[i].copy());
            i = i + 1;
            assert(links@ =~= self.dev_links@.take(i as int));
        }
        assert(self.dev_links@.take(self.dev_links.len() as int) =~= self.dev_links@);
        let mut comments: Vec<Comment> = Vec::new();
        let mut j: usize = 0;
        while j < self.comments.len()
            invariant
                j <= self.comments.len(),
                comments@ == self.comments@.take(j as int),
            decreases self.comments.len() - j,
        {
            comments.push(self.comments[j].copy());
            j = j + 1;
            assert(comments@ =~= self.comments@.take(j as int));
        }
        assert(self.comments@.take(self.comments.len() as int) =~= self.comments@);
        let r = WorkItem {
            id: self.id,
            title: self.title.clone(),
            item_type: self.item_type.clone(),
            state: self.state,
            state_name: self.state_name.clone(),
            available_states: copy_strings(&self.available_states),
            assigned_to: self.assigned_to.clone(),
            iteration: self.iteration.clone(),
            description: self.description.clone(),
            notes: self.notes.clone(),
            tags: copy_strings(&self.tags),
            story_points: self.story_points,
            parent: self.parent,
            children: copy_ids(&self.children),
            dev_links: links,
            comments: comments,
            changed_days_ago: self.changed_days_ago,
            rev: self.rev,
        };
        r
    }
}


/// A plain calendar date (no time/zone), used for custom timeframe ranges and
/// for date arithmetic that the timeframe filter needs.
#[derive(Clone, Copy, Debug, PartialEq, Eq, Structural)]
pub struct Date {
    pub year: i32,
    pub month: u32,
    pub day: u32,
}

/// Days since 1970-01-01 of the proleptic-Gregorian date `y-m-d` (Howard
/// Hinnant's closed form; months outside 1..=12 and days outside the month
/// extend it linearly the same way the formula does).
pub open spec fn epoch_days(y: int, m: int, d: int) -> int {
    let y1 = if m <= 2 { y - 1 } else { y };
    let era = y1 / 400;
    let yoe = y1 - era * 400;
    let mp = if m > 2 { m - 3 } else { m + 9 };
    let doy = (153 * mp + 2) / 5 + d - 1;
    let doe = yoe * 365 + yoe / 4 - yoe / 100 + doy;
    era * 146097 + doe - 719468
}

/// [`epoch_days`] of a [`Date`].
pub open spec fn date_days(d: Date) -> int {
    epoch_days(d.year as int, d.month as int, d.day as int)
}

/// The civil year, month and day of epoch day `z` (inverse of
/// [`epoch_days`]), the year as a mathematical integer.
pub open spec fn civil_ymd(z: int) -> (int, int, int) {
    let z1 = z + 719468;
    let era = z1 / 146097;
    let doe = z1 - era * 146097;
    let yoe = (doe - doe / 1460 + doe / 36524 - doe / 146096) / 365;
    let y = yoe + era * 400;
    let doy = doe - (365 * yoe + yoe / 4 - yoe / 100);
    let mp = (5 * doy + 2) / 153;
    let d = doy - (153 * mp + 2) / 5 + 1;
    let m = if mp < 10 { mp + 3 } else { mp - 9 };
    (if m <= 2 { y + 1 } else { y }, m, d)
}

/// The civil date of epoch day `z` (see [`civil_ymd`]); the year is
/// narrowed to `i32` the way an `as` cast does.
pub open spec fn civil_from_days(z: int) -> Date {
    let (y, m, d) = civil_ymd(z);
    Date { year: y as i32, month: m as u32, day: d as u32 }
}

/// The civil year of epoch day `z` fits an `i32`.
pub open spec fn year_fits(z: int) -> bool {
    i32::MIN <= civil_ymd(z).0 <= i32::MAX
}

/// Epoch days whose civil date can be computed without `i64` overflow.
pub open spec fn days_in_range(z: int) -> bool {
    -9_000_000_000_000_000_000 <= z <= 9_000_000_000_000_000_000
}

/// Weekday of epoch day `z` with Monday = 0 (1970-01-01 was a Thursday).
pub open spec fn weekday_of(z: int) -> int {
    (z % 7 + 3) % 7
}

/// Whether `y` is a Gregorian leap year.
pub open spec fn is_leap(y: int) -> bool {
    (y % 4 == 0 && y % 100 != 0) || y % 400 == 0
}

/// Length of month `m` (1..=12) of year `y`.
pub open spec fn month_len(y: int, m: int) -> int {
    if m == 2 {
        if is_leap(y) {
            29
        } else {
            28
        }
    } else if m == 4 || m == 6 || m == 9 || m == 11 {
        30
    } else {
        31
    }
}

/// The date one month after the first of `d`'s month.
pub open spec fn next_month_first(d: Date) -> (int, int) {
    if d.month == 12 {
        (d.year + 1, 1)
    } else {
        (d.year as int, d.month + 1)
    }
}

/// [`Date::days_in_month`]: the day count from the first of the month to the
/// first of the next, narrowed to `u32`.
pub open spec fn days_in_month_of(d: Date) -> u32 {
    (epoch_days(next_month_first(d).0, next_month_first(d).1, 1) - epoch_days(
        d.year as int,
        d.month as int,
        1,
    )) as u32
}

/// Month arithmetic is free of overflow for `d` shifted by `delta` months.
pub open spec fn add_months_ok(d: Date, delta: int) -> bool {
    let m = (d.month as i32) as int - 1 + delta;
    &&& i32::MIN <= m <= i32::MAX
    &&& i32::MIN <= d.year + m / 12 <= i32::MAX
    &&& (m % 12 == 11 ==> d.year + m / 12 < i32::MAX)
}

/// [`Date::add_months`]: the month shifted by `delta` (carrying into the
/// year) with the day clamped to the target month's length.
pub open spec fn add_months_of(d: Date, delta: int) -> Date {
    let m = (d.month as i32) as int - 1 + delta;
    let y = d.year + m / 12;
    let month = (m % 12 + 1) as u32;
    let dim = days_in_month_of(Date { year: y as i32, month, day: 1 });
    Date { year: y as i32, month, day: if d.day <= dim { d.day } else { dim } }
}

proof fn lemma_epoch_bounds(y: int, m: int, d: int)
    requires
        i32::MIN <= y <= i32::MAX,
        0 <= m <= u32::MAX,
        0 <= d <= u32::MAX,
    ensures
        -0x200_0000_0000 < epoch_days(y, m, d) < 0x200_0000_0000,
{
    let y1 = if m <= 2 { y - 1 } else { y };
    let era = y1 / 400;
    let yoe = y1 - era * 400;
    let mp = if m > 2 { m - 3 } else { m + 9 };
    assert(0 <= yoe < 400);
    assert(-6_000_000 < era < 6_000_000);
    assert(-900_000_000_000 < era * 146097 < 900_000_000_000) by (nonlinear_arith)
        requires
            -6_000_000 < era < 6_000_000,
    ;
    assert(0 <= mp <= 0x1_0000_0009);
    assert(0 <= (153 * mp + 2) / 5 <= 153 * mp + 2);
    assert(0 <= yoe * 365 < 146000) by (nonlinear_arith)
        requires
            0 <= yoe < 400,
    ;
    assert(0 <= yoe / 4 <= 100);
    assert(0 <= yoe / 100 <= 4);
}

/// Every date's epoch-day number lies well inside `i64`.
pub proof fn lemma_date_days_bounds(d: Date)
    ensures
        -0x200_0000_0000 < date_days(d) < 0x200_0000_0000,
{
    lemma_epoch_bounds(d.year as int, d.month as int, d.day as int);
}

/// A month's length is the day count from its first to the next month's
/// first: 28 or 29 for February (29 in leap years), 30 for April, June,
/// September and November, 31 otherwise.
#[verifier::spinoff_prover]
pub proof fn lemma_days_in_month(d: Date)
    requires
        1 <= d.month <= 12,
    ensures
        days_in_month_of(d) == month_len(d.year as int, d.month as int),
{
    let y = d.year as int;
    let m = d.month as int;
    let (ny, nm) = next_month_first(d);
    let diff = epoch_days(ny, nm, 1) - epoch_days(y, m, 1);
    if m == 2 {
        let a = y - 1;
        assert(y == a + 1);
        if y % 400 == 0 {
            assert(y / 400 == a / 400 + 1);
            assert(a % 400 == 399);
        } else {
            assert(y / 400 == a / 400);
            assert(y % 400 == a % 400 + 1);
            let t = a % 400;
            assert((t + 1) / 4 == t / 4 + (if (t + 1) % 4 == 0 { 1int } else { 0 }));
            assert((t + 1) / 100 == t / 100 + (if (t + 1) % 100 == 0 { 1int } else { 0 }));
            assert((y % 4 == 0) == ((t + 1) % 4 == 0));
            assert((y % 100 == 0) == ((t + 1) % 100 == 0));
        }
        assert(diff == month_len(y, m));
    } else {
        assert(diff == month_len(y, m));
    }
}

impl Date {
    pub fn new(year: i32, month: u32, day: u32) -> (r: Self)
        ensures
            r == (Date { year, month, day }),
    {
        Self { year, month, day }
    }

    /// Days since the Unix epoch (Howard Hinnant's days-from-civil algorithm).
    pub fn to_epoch_days(self) -> (r: i64)
        ensures
            r as int == date_days(self),
            -0x200_0000_0000 < r < 0x200_0000_0000,
    {
        proof {
            lemma_epoch_bounds(self.year as int, self.month as int, self.day as int);
        }
        let y: i64 = self.year as i64;
        let m: i64 = self.month as i64;
        let d: i64 = self.day as i64;
        let y: i64 = if m <= 2 { y - 1 } else { y };
        let era: i64 = if y >= 0 { y / 400 } else { 0 - ((399 - y) / 400) };
        proof {
            if y < 0 {
                assert(era as int == (y as int) / 400) by (nonlinear_arith)
                    requires
                        y < 0,
                        era == -((399 - y) / 400),
                ;
            }
        }
        let yoe: i64 = y - era * 400;
        let mp: i64 = if m > 2 { m - 3 } else { m + 9 };
        let doy: i64 = (153 * mp + 2) / 5 + d - 1;
        let doe: i64 = yoe * 365 + yoe / 4 - yoe / 100 + doy;
        era * 146_097 + doe - 719_468
    }

    /// The civil date `z` days after the Unix epoch.
    #[verifier::spinoff_prover]
    #[verifier::rlimit(40)]
    fn from_epoch_days(z: i64) -> (r: Self)
        requires
            days_in_range(z as int),
        ensures
            r == civil_from_days(z as int),
    {
        let z: i64 = z + 719_468;
        let era: i64 = if z >= 0 { z / 146_097 } else { 0 - ((146_096 - z) / 146_097) };
        proof {
            if z < 0 {
                assert(era as int == (z as int) / 146097) by (nonlinear_arith)
                    requires
                        z < 0,
                        era == -((146096 - z) / 146097),
                ;
            }
            assert(0 <= z - era * 146097 < 146097) by (nonlinear_arith)
                requires
                    era == (z as int) / 146097,
            ;
        }
        let doe: i64 = z - era * 146_097;
        let yoe: i64 = (doe - doe / 1460 + doe / 36524 - doe / 146_096) / 365;
        let y: i64 = yoe + era * 400;
        let doy: i64 = doe - (365 * yoe + yoe / 4 - yoe / 100);
        let mp: i64 = (5 * doy + 2) / 153;
        let d: i64 = doy - (153 * mp + 2) / 5 + 1;
        let m: i64 = if mp < 10 { mp + 3 } else { mp - 9 };
        let yy: i64 = if m <= 2 { y + 1 } else { y };
        Self { year: yy as i32, month: m as u32, day: d as u32 }
    }

    /// Today (UTC).
    pub fn today() -> (r: Self)
        ensures
            exists|secs: u64| r == #[trigger] utc_day_of(secs),
    {
        let secs = now_unix();
        let days: i64 = (secs / 86_400) as i64;
        let r = Self::from_epoch_days(days);
        assert(r == utc_day_of(secs));
        r
    }

    /// Parse a leading `YYYY-MM-DD` (ignores any time suffix).
    pub fn from_iso(s: &str) -> (r: Option<Self>)
        ensures
            r == iso_date(s@),
    {
        let v = chars_of(s);
        let date = match prefix_bytes(&v, 10) {
            Some(d) => d,
            None => return None,
        };
        let parts = split_on(&date, '-');
        if parts.len() < 1 {
            return None;
        }
        let year = match parse_int(&parts[0], -2147483648, 2147483647) {
            Some(y) => y,
            None => return None,
        };
        if parts.len() < 2 {
            return None;
        }
        let month = match parse_u32(&parts[1]) {
            Some(m) => m,
            None => return None,
        };
        if parts.len() < 3 {
            return None;
        }
        let day = match parse_u32(&parts[2]) {
            Some(d) => d,
            None => return None,
        };
        Some(Self { year: year as i32, month, day })
    }

    pub fn to_iso(self) -> (r: String)
        ensures
            r@ == iso_of(self),
    {
        let mut s = String::new();
        push_int_pad(&mut s, self.year as i64, 4);
        push_char(&mut s, '-');
        push_dec_pad(&mut s, self.month as u64, 2);
        push_char(&mut s, '-');
        push_dec_pad(&mut s, self.day as u64, 2);
        assert(s@ =~= iso_of(self));
        s
    }

    /// Whole days from `self` until `other` (negative if `other` is earlier).
    pub fn days_until(self, other: Date) -> (r: i64)
        ensures
            r == date_days(other) - date_days(self),
    {
        other.to_epoch_days() - self.to_epoch_days()
    }

    /// This date shifted by `n` days (negative shifts backwards).
    pub fn add_days(self, n: i64) -> (r: Date)
        requires
            days_in_range(date_days(self) + n),
        ensures
            r == civil_from_days(date_days(self) + n),
    {
        Date::from_epoch_days(self.to_epoch_days() + n)
    }

    /// Day of week with Monday = 0 … Sunday = 6.
    pub fn weekday_mon0(self) -> (r: u32)
        ensures
            r == weekday_of(date_days(self)),
            r < 7,
    {
        let e = self.to_epoch_days();
        let r: i64 = if e >= 0 { e % 7 } else { (7 - ((0 - e) % 7)) % 7 };
        proof {
            if e < 0 {
                assert(r == (e as int) % 7) by (nonlinear_arith)
                    requires
                        e < 0,
                        r == (7 - ((-e) % 7)) % 7,
                ;
            }
        }
        ((r as u32) + 3) % 7
    }

    /// The first day of this date's month.
    pub fn first_of_month(self) -> (r: Date)
        ensures
            r == (Date { year: self.year, month: self.month, day: 1 }),
    {
        Date::new(self.year, self.month, 1)
    }

    /// Number of days in this date's month.
    pub fn days_in_month(self) -> (r: u32)
        requires
            self.month < u32::MAX,
            self.month == 12 ==> self.year < i32::MAX,
        ensures
            r == days_in_month_of(self),
    {
        let next = if self.month == 12 {
            Date::new(self.year + 1, 1, 1)
        } else {
            Date::new(self.year, self.month + 1, 1)
        };
        self.first_of_month().days_until(next) as u32
    }

    /// This date with the month shifted by `delta` (clamping the day to the
    /// target month's length).
    pub fn add_months(self, delta: i32) -> (r: Date)
        requires
            add_months_ok(self, delta as int),
        ensures
            r == add_months_of(self, delta as int),
    {
        let m0: i64 = (self.month as i32) as i64 - 1 + delta as i64;
        let q: i64 = if m0 >= 0 { m0 / 12 } else { 0 - ((11 - m0) / 12) };
        proof {
            if m0 < 0 {
                assert(q as int == (m0 as int) / 12) by (nonlinear_arith)
                    requires
                        m0 < 0,
                        q == -((11 - m0) / 12),
                ;
            }
            assert(0 <= m0 - q * 12 < 12) by (nonlinear_arith)
                requires
                    q == (m0 as int) / 12,
            ;
        }
        let rem: i64 = m0 - q * 12;
        let y: i32 = (self.year as i64 + q) as i32;
        let month: u32 = (rem + 1) as u32;
        let dim = Date::new(y, month, 1).days_in_month();
        let day = if self.day <= dim { self.day } else { dim };
        Date::new(y, month, day)
    }
}

#[verifier::external_type_specification]
#[verifier::external_body]
pub struct ExSystemTime(std::time::SystemTime);

#[verifier::external_type_specification]
#[verifier::external_body]
pub struct ExSystemTimeError(std::time::SystemTimeError);

/// `SystemTime::now()`: the system clock's reading (nothing is promised of
/// it).
#[verifier::external_body]
fn clock_now() -> std::time::SystemTime {
    std::time::SystemTime::now()
}

/// `t.duration_since(UNIX_EPOCH)`: how long after the epoch `t` is, or an
/// error when it is before (nothing more is promised).
#[verifier::external_body]
fn since_epoch(t: std::time::SystemTime) -> Result<std::time::Duration, std::time::SystemTimeError> {
    t.duration_since(std::time::UNIX_EPOCH)
}

/// `d.as_secs()`: the whole seconds of a duration (nothing more is promised
/// here).
#[verifier::external_body]
fn whole_secs(d: std::time::Duration) -> u64 {
    d.as_secs()
}

/// Seconds since the Unix epoch from the system clock (0 if the clock reads
/// before the epoch).
pub(crate) fn now_unix() -> u64 {
    match since_epoch(clock_now()) {
        Ok(d) => whole_secs(d),
        Err(_) => 0,
    }
}

/// The UTC calendar day of a Unix timestamp in seconds.
pub open spec fn utc_day_of(secs: u64) -> Date {
    civil_from_days((secs / 86400) as int)
}

/// `format!("{:04}-{:02}-{:02}", year, month, day)`.
pub open spec fn iso_of(d: Date) -> Seq<char> {
    fmt_int_pad(d.year as int, 4) + seq!['-'] + pad0(dec(d.month as nat), 2) + seq!['-'] + pad0(
        dec(d.day as nat),
        2,
    )
}

/// [`Date::from_iso`]: the first ten bytes split on `-` into year, month and
/// day, each parsed as an integer of its field's type.
pub open spec fn iso_date(s: Seq<char>) -> Option<Date> {
    match byte_prefix(s, 10) {
        None => None,
        Some(p) => {
            let parts = split_char(p, '-');
            if parts.len() < 3 {
                None
            } else {
                match (
                    parse_signed(parts[0], i32::MIN as int, i32::MAX as int),
                    parse_nat_upto(parts[1], u32::MAX as nat),
                    parse_nat_upto(parts[2], u32::MAX as nat),
                ) {
                    (Some(y), Some(m), Some(d)) => Some(
                        Date { year: y as i32, month: m as u32, day: d as u32 },
                    ),
                    _ => None,
                }
            }
        },
    }
}

/// Short month name for display (`Jan` … `Dec`); out-of-range months clamp.
pub open spec fn month_name_of(month: u32) -> Seq<char> {
    let m = if month < 1 { 1 } else if month > 12 { 12 } else { month };
    if m == 1 { "Jan"@ } else if m == 2 { "Feb"@ } else if m == 3 { "Mar"@ } else if m == 4 {
        "Apr"@
    } else if m == 5 { "May"@ } else if m == 6 { "Jun"@ } else if m == 7 { "Jul"@ } else if m == 8 {
        "Aug"@
    } else if m == 9 { "Sep"@ } else if m == 10 { "Oct"@ } else if m == 11 { "Nov"@ } else {
        "Dec"@
    }
}

/// Short month name for display (`Jan` … `Dec`).
pub fn month_name(month: u32) -> (r: &'static str)
    ensures
        r@ == month_name_of(month),
{
    let m = if month < 1 { 1 } else if month > 12 { 12 } else { month };
    if m == 1 { "Jan" } else if m == 2 { "Feb" } else if m == 3 { "Mar" } else if m == 4 {
        "Apr"
    } else if m == 5 { "May" } else if m == 6 { "Jun" } else if m == 7 { "Jul" } else if m == 8 {
        "Aug"
    } else if m == 9 { "Sep" } else if m == 10 { "Oct" } else if m == 11 { "Nov" } else {
        "Dec"
    }
}


/// A change-date window for the timeframe filter. `from` and `to` are each
/// optional: a start-only window means "on or after", an end-only window "on or
/// before", and both unset means no constraint (the neutral "All").
#[derive(Clone, Copy, Debug, PartialEq, Eq, Structural)]
pub struct Timeframe {
    pub from: Option<Date>,
    pub to: Option<Date>,
}

impl Default for Timeframe {
    fn default() -> (r: Self)
        ensures
            r == (Timeframe { from: None, to: None }),
    {
        Timeframe { from: None, to: None }
    }
}

/// Status-bar label of a window.
pub open spec fn timeframe_label(t: Timeframe) -> Seq<char> {
    match (t.from, t.to) {
        (None, None) => "All"@,
        (Some(f), None) => "≥ "@ + iso_of(f),
        (None, Some(e)) => "≤ "@ + iso_of(e),
        (Some(f), Some(e)) => iso_of(f) + "…"@ + iso_of(e),
    }
}

/// The epoch day of an item changed `days_ago` days before `today`.
pub open spec fn changed_day(today: Date, days_ago: u32) -> int {
    date_days(civil_from_days(date_days(today) - days_ago))
}

/// Whether an item changed `days_ago` days before `today` falls in `t`.
pub open spec fn timeframe_admits(t: Timeframe, today: Date, days_ago: u32) -> bool {
    let changed = changed_day(today, days_ago);
    &&& (t.from matches Some(f) ==> changed >= date_days(f))
    &&& (t.to matches Some(e) ==> changed <= date_days(e))
}

/// The `[System.ChangedDate]` clause of a window, `None` when unconstrained.
pub open spec fn wiql_clause_of(t: Timeframe) -> Option<Seq<char>> {
    let lo = "[System.ChangedDate] >= '"@;
    let hi = "[System.ChangedDate] <= '"@;
    match (t.from, t.to) {
        (None, None) => None,
        (Some(f), None) => Some(lo + iso_of(f) + "'"@),
        (None, Some(e)) => Some(hi + iso_of(e) + "'"@),
        (Some(f), Some(e)) => Some(lo + iso_of(f) + "'"@ + " AND "@ + hi + iso_of(e) + "'"@),
    }
}

impl Timeframe {
    /// No date constraint (the neutral state — lets the iteration filter own
    /// time filtering instead).
    pub fn is_empty(&self) -> (r: bool)
        ensures
            r == (self.from is None && self.to is None),
    {
        self.from.is_none() && self.to.is_none()
    }

    pub fn label(&self) -> (r: String)
        ensures
            r@ == timeframe_label(*self),
    {
        let mut s = String::new();
        match (self.from, self.to) {
            (None, None) => {
                s.append("All");
            },
            (Some(f), None) => {
                s.append("≥ ");
                push_string(&mut s, &f.to_iso());
            },
            (None, Some(e)) => {
                s.append("≤ ");
                push_string(&mut s, &e.to_iso());
            },
            (Some(f), Some(e)) => {
                push_string(&mut s, &f.to_iso());
                s.append("…");
                push_string(&mut s, &e.to_iso());
            },
        }
        assert(s@ =~= timeframe_label(*self));
        s
    }

    /// True if an item last changed `days_ago` days before `today` falls in
    /// this window.
    pub fn matches_days_ago_on(&self, today: Date, days_ago: u32) -> (r: bool)
        ensures
            r == timeframe_admits(*self, today, days_ago),
    {
        if self.is_empty() {
            return true;
        }
        let changed = today.add_days(-(days_ago as i64)).to_epoch_days();
        if let Some(f) = self.from {
            if changed < f.to_epoch_days() {
                return false;
            }
        }
        if let Some(t) = self.to {
            if changed > t.to_epoch_days() {
                return false;
            }
        }
        true
    }

    /// True if an item last changed `days_ago` days ago falls in this window
    /// (against today's date).
    pub fn matches_days_ago(&self, days_ago: u32) -> (r: bool)
        ensures
            exists|secs: u64| r == timeframe_admits(*self, #[trigger] utc_day_of(secs), days_ago),
    {
        let today = Date::today();
        self.matches_days_ago_on(today, days_ago)
    }

    /// The `[System.ChangedDate]` WIQL clause for this window, or `None` when
    /// empty (no constraint).
    pub fn wiql_clause(&self) -> (r: Option<String>)
        ensures
            match wiql_clause_of(*self) {
                Some(c) => r is Some && r->0@ == c,
                None => r is None,
            },
    {
        let mut s = String::new();
        let mut any = false;
        if let Some(f) = self.from {
            s.append("[System.ChangedDate] >= '");
            push_string(&mut s, &f.to_iso());
            s.append("'");
            any = true;
        }
        if let Some(t) = self.to {
            if any {
                s.append(" AND ");
            }
            s.append("[System.ChangedDate] <= '");
            push_string(&mut s, &t.to_iso());
            s.append("'");
            any = true;
        }
        if any {
            assert(s@ =~= wiql_clause_of(*self)->0);
            Some(s)
        } else {
            None
        }
    }
}

/// A team iteration (sprint): a node in the `System.IterationPath` hierarchy,
/// optionally flagged as the team's current iteration.
#[derive(Clone, Debug)]
pub struct Iteration {
    /// The `System.IterationPath` value (e.g. `Proj\Release 1\Sprint 9`).
    pub path: String,
    /// Short display name (the leaf node, e.g. `Sprint 9`).
    pub name: String,
    /// True for the team's current (active) iteration.
    pub is_current: bool,
}

impl Iteration {
    pub fn copy(&self) -> (r: Self)
        ensures
            r == *self,
    {
        Iteration { path: self.path.clone(), name: self.name.clone(), is_current: self.is_current }
    }
}

/// The full filter applied to the assigned-items query: a timeframe window plus
/// an optional set of iteration paths (empty = all iterations) and work-item
/// types (empty = all types).
#[derive(Clone, Debug)]
pub struct WorkItemFilter {
    pub timeframe: Timeframe,
    /// Selected iteration paths; empty means "no iteration constraint".
    pub iterations: Vec<String>,
    /// Selected work-item types (e.g. "User Story", "Feature"); empty means
    /// "no type constraint".
    pub item_types: Vec<String>,
}

impl Default for WorkItemFilter {
    fn default() -> (r: Self)
        ensures
            r.timeframe == (Timeframe { from: None, to: None }),
            r.iterations@.len() == 0,
            r.item_types@.len() == 0,
    {
        WorkItemFilter { timeframe: Timeframe::default(), iterations: Vec::new(), item_types: Vec::new() }
    }
}

/// UNDER semantics: the item's iteration is the selected node or lies below it.
pub open spec fn iteration_under(item: Seq<char>, sel: Seq<char>) -> bool {
    item == sel || has_prefix(item, sel.push('\\')) || has_prefix(item, sel.push('/'))
}

/// Whether `f` admits `item` on the day `today`: timeframe window, then type
/// (ASCII case-insensitive), then iteration (UNDER semantics).
pub open spec fn filter_admits(f: WorkItemFilter, today: Date, item: ItemView) -> bool {
    &&& timeframe_admits(f.timeframe, today, item.changed_days_ago)
    &&& (f.item_types@.len() == 0 || exists|i: int|
        0 <= i < f.item_types@.len() && eq_ic(#[trigger] f.item_types@[i]@, item.item_type@))
    &&& (f.iterations@.len() == 0 || exists|i: int|
        0 <= i < f.iterations@.len() && iteration_under(item.iteration@, #[trigger] f.iterations@[i]@))
}

/// The work-item types the type-filter menu offers, in display order.
pub open spec fn work_item_type_names() -> Seq<Seq<char>> {
    seq!["Task"@, "User Story"@, "Feature"@, "Capability"@, "Epic"@]
}

/// The types checked by default (only User Stories and Features).
pub open spec fn default_type_names() -> Seq<Seq<char>> {
    seq!["User Story"@, "Feature"@]
}

/// The work-item types the type-filter menu offers, in display order.
pub fn work_item_types() -> (r: Vec<String>)
    ensures
        r@.len() == 5,
        forall|i: int| 0 <= i < 5 ==> #[trigger] r@[i]@ == work_item_type_names()[i],
{
    let mut v: Vec<String> = Vec::new();
    v.push(String::from_str("Task"));
    v.push(String::from_str("User Story"));
    v.push(String::from_str("Feature"));
    v.push(String::from_str("Capability"));
    v.push(String::from_str("Epic"));
    v
}

/// The types checked by default (only User Stories and Features).
pub fn default_work_item_types() -> (r: Vec<String>)
    ensures
        r@.len() == 2,
        forall|i: int| 0 <= i < 2 ==> #[trigger] r@[i]@ == default_type_names()[i],
{
    let mut v: Vec<String> = Vec::new();
    v.push(String::from_str("User Story"));
    v.push(String::from_str("Feature"));
    v
}

fn iteration_matches(item: &str, sel: &str) -> (r: bool)
    ensures
        r == iteration_under(item@, sel@),
{
    if str_eq(item, sel) {
        return true;
    }
    let mut a = String::from_str(sel);
    push_char(&mut a, '\\');
    let mut b = String::from_str(sel);
    push_char(&mut b, '/');
    crate::text::starts_with(item, a.as_str()) || crate::text::starts_with(item, b.as_str())
}

impl WorkItemFilter {
    /// True if `item` passes the timeframe, iteration, and type constraints on
    /// the day `today`.
    pub fn matches_on(&self, today: Date, item: &WorkItem) -> (r: bool)
        ensures
            r == filter_admits(*self, today, item@),
    {
        if !self.timeframe.matches_days_ago_on(today, item.changed_days_ago) {
            return false;
        }
        if self.item_types.len() > 0 {
            let mut found = false;
            let mut i: usize = 0;
            while i < self.item_types.len()
                invariant
                    i <= self.item_types@.len(),
                    found == exists|j: int|
                        0 <= j < i && eq_ic(#[trigger] self.item_types@[j]@, item.item_type@),
                decreases self.item_types.len() - i,
            {
                if eq_ignore_case(self.item_types[i].as_str(), item.item_type.as_str()) {
                    found = true;
                }
                i = i + 1;
            }
            if !found {
                return false;
            }
        }
        if self.iterations.len() == 0 {
            return true;
        }
        let mut j: usize = 0;
        while j < self.iterations.len()
            invariant
                j <= self.iterations@.len(),
                timeframe_admits(self.timeframe, today, item.changed_days_ago),
                self.item_types@.len() == 0 || exists|i: int|
                    0 <= i < self.item_types@.len() && eq_ic(
                        #[trigger] self.item_types@[i]@,
                        item.item_type@,
                    ),
                forall|k: int|
                    0 <= k < j ==> !iteration_under(item.iteration@, #[trigger] self.iterations@[k]@),
            decreases self.iterations.len() - j,
        {
            if iteration_matches(item.iteration.as_str(), self.iterations[j].as_str()) {
                return true;
            }
            j = j + 1;
        }
        false
    }

    /// True if `item` passes the timeframe, iteration, and type constraints
    /// (against today's date). Used by the in-memory backend; the real backend
    /// filters server-side.
    pub fn matches(&self, item: &WorkItem) -> (r: bool)
        ensures
            exists|secs: u64| r == filter_admits(*self, #[trigger] utc_day_of(secs), item@),
    {
        let today = Date::today();
        self.matches_on(today, item)
    }

    /// Field-by-field equality of two filters.
    pub fn same_as(&self, other: &WorkItemFilter) -> (r: bool)
        ensures
            r == (self.timeframe == other.timeframe && views(self.iterations@) == views(
                other.iterations@,
            ) && views(self.item_types@) == views(other.item_types@)),
    {
        self.timeframe == other.timeframe && strings_eq(&self.iterations, &other.iterations)
            && strings_eq(&self.item_types, &other.item_types)
    }
}


/// Element-wise equality of two string vectors.
pub fn strings_eq(a: &Vec<String>, b: &Vec<String>) -> (r: bool)
    ensures
        r == (views(a@) == views(b@)),
{
    if a.len() != b.len() {
        assert(views(a@).len() != views(b@).len());
        return false;
    }
    let mut i: usize = 0;
    while i < a.len()
        invariant
            a.len() == b.len(),
            i <= a.len(),
            forall|j: int| 0 <= j < i ==> a@[j]@ == b@[j]@,
        decreases a.len() - i,
    {
        if !str_eq(a[i].as_str(), b[i].as_str()) {
            assert(views(a@)[i as int] != views(b@)[i as int]);
            return false;
        }
        i = i + 1;
    }
    assert(views(a@) =~= views(b@));
    true
}

// ---------------------------------------------------------------------------
// Laws
// ---------------------------------------------------------------------------

/// Stepping the workflow state four times comes back to where it started,
/// and each step changes the state.
pub proof fn law_state_cycle(s: WorkItemState)
    ensures
        state_next(state_next(state_next(state_next(s)))) == s,
        state_next(s) != s,
{
}

/// A state's label reads back as that state.
pub proof fn law_state_label_round_trip(s: WorkItemState)
    ensures
        state_from_label(state_label(s)) == Some(s),
{
    reveal_strlit("New");
    reveal_strlit("Active");
    reveal_strlit("Resolved");
    reveal_strlit("Closed");
    assert("New"@.len() == 3 && "Active"@.len() == 6 && "Resolved"@.len() == 8 && "Closed"@.len() == 6);
    assert("Active"@[0] == 'A' && "Closed"@[0] == 'C');
}

/// Weekdays repeat every seven days and lie in `0..7` (Monday = 0).
pub proof fn law_weekday_period(z: int)
    ensures
        weekday_of(z + 7) == weekday_of(z),
        0 <= weekday_of(z) < 7,
{
}

/// Shifting a valid date by months lands on a valid date: the month stays in
/// `1..=12` and the day is clamped into the target month.
pub proof fn law_add_months_valid(d: Date, delta: int)
    requires
        1 <= d.month <= 12,
        1 <= d.day,
        add_months_ok(d, delta),
    ensures
        1 <= add_months_of(d, delta).month <= 12,
        1 <= add_months_of(d, delta).day <= month_len(
            add_months_of(d, delta).year as int,
            add_months_of(d, delta).month as int,
        ),
        add_months_of(d, delta).day <= d.day,
{
    let r = add_months_of(d, delta);
    let m = (d.month as i32) as int - 1 + delta;
    assert(0 <= m % 12 < 12);
    lemma_days_in_month(Date { year: r.year, month: r.month, day: 1 });
}

/// The empty window admits every change date, and has no query clause and
/// the label "All".
pub proof fn law_empty_window(today: Date, days_ago: u32)
    ensures
        timeframe_admits(Timeframe { from: None, to: None }, today, days_ago),
        wiql_clause_of(Timeframe { from: None, to: None }) is None,
        timeframe_label(Timeframe { from: None, to: None }) == "All"@,
{
}

/// A window with a bound always has a query clause.
pub proof fn law_bounded_window_has_clause(t: Timeframe)
    requires
        t.from is Some || t.to is Some,
    ensures
        wiql_clause_of(t) is Some,
{
}


/// A filter with no window, no iterations and no types admits every item.
pub proof fn law_open_filter_admits_all(f: WorkItemFilter, today: Date, item: ItemView)
    requires
        f.timeframe == (Timeframe { from: None, to: None }),
        f.iterations@.len() == 0,
        f.item_types@.len() == 0,
    ensures
        filter_admits(f, today, item),
{
}

/// An ISO text of digits and dashes takes one byte per character.
proof fn lemma_iso_parts(a: Seq<char>, b: Seq<char>, c: Seq<char>)
    requires
        all_digits(a),
        all_digits(b),
        all_digits(c),
    ensures
        !a.contains('-') && !b.contains('-') && !c.contains('-'),
        byte_len(a + seq!['-'] + b + seq!['-'] + c) == a.len() + b.len() + c.len() + 2,
        split_char(a + seq!['-'] + b + seq!['-'] + c, '-') == seq![a, b, c],
{
    assert(!a.contains('-')) by {
        if a.contains('-') {
            let k = choose|k: int| 0 <= k < a.len() && a[k] == '-';
            assert(48 <= (a[k] as u32));
        }
    }
    assert(!b.contains('-')) by {
        if b.contains('-') {
            let k = choose|k: int| 0 <= k < b.len() && b[k] == '-';
            assert(48 <= (b[k] as u32));
        }
    }
    assert(!c.contains('-')) by {
        if c.contains('-') {
            let k = choose|k: int| 0 <= k < c.len() && c[k] == '-';
            assert(48 <= (c[k] as u32));
        }
    }
    let s = a + seq!['-'] + b + seq!['-'] + c;
    assert forall|i: int| 0 <= i < s.len() implies (#[trigger] s[i] as u32) < 0x80 by {
        if i < a.len() {
            assert(s[i] == a[i]);
        } else if i == a.len() {
            assert(s[i] == '-');
        } else if i < a.len() + 1 + b.len() {
            assert(s[i] == b[i - a.len() - 1]);
        } else if i == a.len() + 1 + b.len() {
            assert(s[i] == '-');
        } else {
            assert(s[i] == c[i - a.len() - b.len() - 2]);
        }
    }
    crate::text::lemma_ascii_byte_len(s);
    crate::text::lemma_split_none(a, '-');
    crate::text::lemma_split_append(a, '-', b);
    crate::text::lemma_split_append(a + seq!['-'] + b, '-', c);
    assert(seq![a].push(b).push(c) =~= seq![a, b, c]);
}

/// Reading the ISO text of a date (a year from 0 to 9999, a month from 1 to
/// 12, a day from 1 to 31) gives the date back, whatever follows the first
/// ten characters (such as a time of day).
pub proof fn law_iso_round_trip(d: Date, rest: Seq<char>)
    requires
        0 <= d.year <= 9999,
        1 <= d.month <= 12,
        1 <= d.day <= 31,
    ensures
        iso_date(iso_of(d) + rest) == Some(d),
        iso_date(iso_of(d)) == Some(d),
{
    let y = d.year as nat;
    crate::text::lemma_dec(y);
    crate::text::lemma_dec(d.month as nat);
    crate::text::lemma_dec(d.day as nat);
    crate::text::lemma_pad_dec(y, 4);
    crate::text::lemma_pad_dec(d.month as nat, 2);
    crate::text::lemma_pad_dec(d.day as nat, 2);
    let a = pad0(dec(y), 4);
    let b = pad0(dec(d.month as nat), 2);
    let c = pad0(dec(d.day as nat), 2);
    assert(fmt_int_pad(d.year as int, 4) == a);
    assert(iso_of(d) == a + seq!['-'] + b + seq!['-'] + c);
    lemma_iso_parts(a, b, c);
    crate::text::lemma_byte_prefix_of(iso_of(d), rest, 10);
    crate::text::lemma_byte_prefix_of(iso_of(d), Seq::empty(), 10);
    assert(iso_of(d) + Seq::<char>::empty() =~= iso_of(d));
    assert(48 <= (a[0] as u32) && 48 <= (b[0] as u32) && 48 <= (c[0] as u32));
    assert(parse_signed(a, i32::MIN as int, i32::MAX as int) == Some(d.year as int));
    assert(parse_nat_upto(b, u32::MAX as nat) == Some(d.month as nat));
    assert(parse_nat_upto(c, u32::MAX as nat) == Some(d.day as nat));
}

/// A text shorter than ten bytes holds no date.
pub proof fn law_short_text_no_date(s: Seq<char>)
    requires
        byte_len(s) < 10,
    ensures
        iso_date(s) is None,
{
    crate::text::lemma_no_byte_prefix(s, 10);
}

/// Within an era (day `doe` of a 400-year cycle starting on 1 March), the
/// year, day of year, shifted month and day that the civil algorithm reads
/// are in range and add back up to `doe`.
proof fn lemma_civil_in_era(doe: int)
    requires
        0 <= doe < 146097,
    ensures
        ({
            let yoe = (doe - doe / 1460 + doe / 36524 - doe / 146096) / 365;
            let doy = doe - (365 * yoe + yoe / 4 - yoe / 100);
            let mp = (5 * doy + 2) / 153;
            let dd = doy - (153 * mp + 2) / 5 + 1;
            &&& 0 <= yoe <= 399
            &&& 0 <= doy <= 365
            &&& 0 <= mp <= 11
            &&& 1 <= dd <= 31
            &&& dd <= shifted_month_len(mp)
            &&& (mp == 11 && dd == 29 ==> era_year_leap(yoe))
        }),
{
}

/// The civil date of epoch day `z` is a real date whose epoch day is `z`
/// again, for every epoch day whose year fits an `i32`.
#[verifier::spinoff_prover]
#[verifier::rlimit(50)]
pub proof fn law_days_round_trip(z: int)
    requires
        year_fits(z),
    ensures
        date_days(civil_from_days(z)) == z,
        valid_date(civil_from_days(z)),
{
    let z1 = z + 719468;
    let era = z1 / 146097;
    let doe = z1 - era * 146097;
    lemma_civil_in_era(doe);
    let yoe = (doe - doe / 1460 + doe / 36524 - doe / 146096) / 365;
    let y = yoe + era * 400;
    let doy = doe - (365 * yoe + yoe / 4 - yoe / 100);
    let mp = (5 * doy + 2) / 153;
    let dd = doy - (153 * mp + 2) / 5 + 1;
    let m = if mp < 10 { mp + 3 } else { mp - 9 };
    let yy = if m <= 2 { y + 1 } else { y };
    assert(civil_ymd(z) == (yy, m, dd));
    let c = civil_from_days(z);
    assert(c.year as int == yy && c.month as int == m && c.day as int == dd);
    let y1 = if m <= 2 { yy - 1 } else { yy };
    assert(y1 == y);
    assert(y1 / 400 == era);
    assert(y1 - (y1 / 400) * 400 == yoe);
    let mp2 = if m > 2 { m - 3 } else { m + 9 };
    assert(mp2 == mp);
    assert(epoch_days(yy, m, dd) == era * 146097 + doe - 719468);
    if mp == 11 && dd == 29 {
        assert(yy == era * 400 + yoe + 1);
        assert(yy % 4 == (yoe + 1) % 4);
        assert(yy % 100 == (yoe + 1) % 100);
        assert(yy % 400 == (yoe + 1) % 400);
        assert(is_leap(yy));
    }
    assert(dd <= month_len(yy, m));
}

/// Whether the year of era index `yoe` (counted from 1 March) ends with a
/// 29 February.
pub open spec fn era_year_leap(yoe: int) -> bool {
    (yoe + 1) % 4 == 0 && ((yoe + 1) % 100 != 0 || yoe == 399)
}

/// A day of the era's year `yoe` (within its length) lies in the era, and
/// the civil algorithm reads year `yoe` back from it.
proof fn lemma_era_year(yoe: int, doy: int)
    requires
        0 <= yoe <= 399,
        0 <= doy <= 364 + (if era_year_leap(yoe) { 1int } else { 0 }),
    ensures
        ({
            let doe = 365 * yoe + yoe / 4 - yoe / 100 + doy;
            &&& 0 <= doe < 146097
            &&& (doe - doe / 1460 + doe / 36524 - doe / 146096) / 365 == yoe
        }),
{
}

/// The length of month `mp` of a year counted from March (`mp` 0 is March,
/// 11 is February, given 29 days here).
pub open spec fn shifted_month_len(mp: int) -> int {
    if mp == 11 {
        29
    } else {
        (153 * (mp + 1) + 2) / 5 - (153 * mp + 2) / 5
    }
}

/// The civil algorithm reads month `mp` back from any of its days.
proof fn lemma_shifted_month(mp: int, d: int)
    requires
        0 <= mp <= 11,
        1 <= d <= shifted_month_len(mp),
    ensures
        (5 * ((153 * mp + 2) / 5 + d - 1) + 2) / 153 == mp,
{
}
/// A real calendar date: a month from 1 to 12 and a day within it.
pub open spec fn valid_date(d: Date) -> bool {
    1 <= d.month <= 12 && 1 <= d.day <= month_len(d.year as int, d.month as int)
}

/// The civil date of a real date's epoch day is that date.
#[verifier::spinoff_prover]
#[verifier::rlimit(50)]
pub proof fn law_date_round_trip(d: Date)
    requires
        valid_date(d),
    ensures
        civil_from_days(date_days(d)) == d,
        civil_ymd(date_days(d)).0 == d.year,
{
    let yy = d.year as int;
    let m = d.month as int;
    let day = d.day as int;
    let y1 = if m <= 2 { yy - 1 } else { yy };
    let era = y1 / 400;
    let yoe = y1 - era * 400;
    let mp = if m > 2 { m - 3 } else { m + 9 };
    let doy = (153 * mp + 2) / 5 + day - 1;
    assert(0 <= yoe <= 399);
    // The day fits its month, counted from March.
    assert(day <= shifted_month_len(mp));
    lemma_shifted_month(mp, day);
    // Only 29 February (the last day of the era's year) needs a leap year.
    if mp == 11 && day == 29 {
        assert(is_leap(yy));
        assert(yy == era * 400 + yoe + 1);
        assert(yy % 4 == (yoe + 1) % 4);
        assert(yy % 100 == (yoe + 1) % 100);
        assert(yy % 400 == (yoe + 1) % 400);
        assert(era_year_leap(yoe));
    }
    assert(doy <= 364 + (if era_year_leap(yoe) { 1int } else { 0 }));
    lemma_era_year(yoe, doy);
    let doe = 365 * yoe + yoe / 4 - yoe / 100 + doy;
    let z = date_days(d);
    assert(z == era * 146097 + doe - 719468);
    let z1 = z + 719468;
    assert(z1 / 146097 == era);
    assert(z1 - era * 146097 == doe);
    let c = civil_from_days(z);
    assert(c.month as int == m);
    assert(c.day as int == day);
    assert(c.year as int == yy);
}
/// Shifting a real date by `n` days (what [`Date::add_days`] returns)
/// moves its epoch day by `n`; a shift by 0 and a shift back undo nothing
/// and everything; two shifts compose; and [`Date::days_until`] the shifted
/// date is `n` (wherever the shifted years fit an `i32`).
pub proof fn law_add_days(d: Date, n: int, m: int)
    requires
        valid_date(d),
        year_fits(date_days(d) + n),
        year_fits(date_days(d) + n + m),
    ensures
        date_days(civil_from_days(date_days(d) + n)) == date_days(d) + n,
        civil_from_days(date_days(d) + 0) == d,
        civil_from_days(date_days(civil_from_days(date_days(d) + n)) + (-n)) == d,
        civil_from_days(date_days(civil_from_days(date_days(d) + n)) + m) == civil_from_days(date_days(d) + (n + m)),
        date_days(civil_from_days(date_days(d) + n)) - date_days(d) == n,
{
    law_days_round_trip(date_days(d) + n);
    law_date_round_trip(d);
    assert(date_days(d) + n + (-n) == date_days(d));
    assert(date_days(d) + n + m == date_days(d) + (n + m));
}

/// The type and iteration selections are "any of": an item whose type equals
/// one of the selected types (ignoring ASCII case) fares as if no type were
/// selected, and one under any selected iteration fares as if no iteration
/// were selected; with a selection and no match it is hidden. Whatever the
/// selections, an item outside the timeframe is hidden.
pub proof fn law_filter_selections_are_any_of(
    f: WorkItemFilter,
    no_types: WorkItemFilter,
    no_iterations: WorkItemFilter,
    today: Date,
    item: ItemView,
)
    requires
        no_types.timeframe == f.timeframe,
        no_types.iterations@ == f.iterations@,
        no_types.item_types@.len() == 0,
        no_iterations.timeframe == f.timeframe,
        no_iterations.item_types@ == f.item_types@,
        no_iterations.iterations@.len() == 0,
    ensures
        forall|i: int|
            0 <= i < f.item_types@.len() && eq_ic(#[trigger] f.item_types@[i]@, item.item_type@)
                ==> (filter_admits(f, today, item) == filter_admits(no_types, today, item)),
        f.item_types@.len() > 0 && (forall|i: int|
            0 <= i < f.item_types@.len() ==> !eq_ic(#[trigger] f.item_types@[i]@, item.item_type@))
            ==> !filter_admits(f, today, item),
        forall|i: int|
            0 <= i < f.iterations@.len() && iteration_under(item.iteration@, #[trigger] f.iterations@[i]@)
                ==> (filter_admits(f, today, item) == filter_admits(no_iterations, today, item)),
        f.iterations@.len() > 0 && (forall|i: int|
            0 <= i < f.iterations@.len() ==> !iteration_under(item.iteration@, #[trigger] f.iterations@[i]@))
            ==> !filter_admits(f, today, item),
        !timeframe_admits(f.timeframe, today, item.changed_days_ago) ==> !filter_admits(f, today, item),
{
}

} // verus!
