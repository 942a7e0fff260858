//! Floating fuzzy multi-select for the iteration (sprint) filter. Type to
//! fuzzy-filter; navigate with `^n`/`^p` or the arrow keys; toggle which
//! iterations to show with Tab or Space; submit with Enter. The list stays in
//! chronological order and the cursor starts on the current iteration so the
//! next/previous sprint is one keystroke away.
use crate::api::models::{copy_strings, Iteration};
use crate::text::views;
use crate::ui::fuzzy::{key_views, lemma_ranking_in_bounds, rank, ranked};
use crate::ui::input::{input_step, KeyCode, KeyEvent, TextInput};
use crate::ui::select::{
    cursor_down, cursor_up, has_entry, has_same, step_down, step_up, toggle_entry, toggled,
};
use vstd::prelude::*;

verus! {

pub struct IterationPicker {
    /// All known iterations (the option list).
    pub options: Vec<Iteration>,
    /// Selected iteration paths (the working set to apply).
    pub selected: Vec<String>,
    pub input: TextInput,
    pub cursor: usize,
}

/// Each iteration is matched on its short name and on its full path.
pub open spec fn iteration_keys(opts: Seq<Iteration>) -> Seq<Seq<Seq<char>>> {
    opts.map_values(|it: Iteration| seq![it.name@, it.path@])
}

/// The iterations matching `query`, best first (all, in order, for a blank
/// query).
pub open spec fn iteration_matches(opts: Seq<Iteration>, query: Seq<char>) -> Seq<Iteration> {
    ranked(iteration_keys(opts), query).map_values(|i: usize| opts[i as int])
}

/// Position of the first current iteration.
pub open spec fn current_index(opts: Seq<Iteration>) -> Option<int>
    decreases opts.len(),
{
    if opts.len() == 0 {
        None
    } else if opts[0].is_current {
        Some(0)
    } else {
        match current_index(opts.drop_first()) {
            Some(i) => Some(i + 1),
            None => None,
        }
    }
}

/// Where the cursor starts: on the first current iteration, else the top.
pub open spec fn start_cursor(opts: Seq<Iteration>) -> int {
    match current_index(opts) {
        Some(i) => i,
        None => 0,
    }
}

/// The selection after toggling the highlighted match (if any).
pub open spec fn toggle_at(
    opts: Seq<Iteration>,
    sel: Seq<Seq<char>>,
    query: Seq<char>,
    cursor: int,
) -> Seq<Seq<char>> {
    let m = iteration_matches(opts, query);
    if 0 <= cursor < m.len() {
        toggled(sel, m[cursor].path@, false)
    } else {
        sel
    }
}

/// What a key does to the picker: new selection, query text, text cursor,
/// list cursor, and the outcome (`Some(true)` apply, `Some(false)` cancel,
/// `None` stay open).
pub open spec fn iteration_step(
    opts: Seq<Iteration>,
    sel: Seq<Seq<char>>,
    text: Seq<char>,
    pos: int,
    cursor: int,
    key: KeyEvent,
) -> (Seq<Seq<char>>, Seq<char>, int, int, Option<bool>) {
    let up = (sel, text, pos, step_up(cursor), None::<bool>);
    let down = (
        sel,
        text,
        pos,
        step_down(cursor, iteration_matches(opts, text).len() as int),
        None::<bool>,
    );
    let toggle = (toggle_at(opts, sel, text, cursor), text, pos, cursor, None::<bool>);
    let edit = {
        let (t, p, handled) = input_step(text, pos, key);
        (sel, t, p, if handled { 0 } else { cursor }, None::<bool>)
    };
    match key.code {
        KeyCode::Esc => (sel, text, pos, cursor, Some(false)),
        KeyCode::Up => up,
        KeyCode::Down => down,
        KeyCode::Tab => toggle,
        KeyCode::Enter => (sel, text, pos, cursor, Some(true)),
        KeyCode::Char(c) => if c == 'p' && key.ctrl {
            up
        } else if c == 'n' && key.ctrl {
            down
        } else if c == ' ' {
            toggle
        } else {
            edit
        },
        _ => edit,
    }
}

proof fn lemma_current_index(opts: Seq<Iteration>, i: int)
    requires
        0 <= i <= opts.len(),
        forall|j: int| 0 <= j < i ==> !(#[trigger] opts[j]).is_current,
    ensures
        i < opts.len() && opts[i].is_current ==> current_index(opts) == Some(i),
        i == opts.len() ==> current_index(opts) is None,
    decreases i,
{
    if i > 0 {
        let t = opts.drop_first();
        assert forall|j: int| 0 <= j < i - 1 implies !(#[trigger] t[j]).is_current by {
            assert(t[j] == opts[j + 1]);
        }
        lemma_current_index(t, i - 1);
    }
}

/// The first current iteration's position, or 0.
fn find_current(opts: &Vec<Iteration>) -> (r: usize)
    ensures
        r as int == start_cursor(opts@),
{
    let mut i: usize = 0;
    while i < opts.len()
        invariant
            i <= opts@.len(),
            forall|j: int| 0 <= j < i ==> !(#[trigger] opts@[j]).is_current,
        decreases opts.len() - i,
    {
        if opts[i].is_current {
            proof {
                lemma_current_index(opts@, i as int);
            }
            return i;
        }
        i = i + 1;
    }
    proof {
        lemma_current_index(opts@, i as int);
    }
    0
}

/// The name and path of each iteration, as candidate strings.
fn iteration_key_lists(opts: &Vec<Iteration>) -> (r: Vec<Vec<String>>)
    ensures
        key_views(r@) == iteration_keys(opts@),
{
    let mut out: Vec<Vec<String>> = Vec::new();
    let mut i: usize = 0;
    while i < opts.len()
        invariant
            i <= opts@.len(),
            key_views(out@) == iteration_keys(opts@.take(i as int)),
        decreases opts.len() - i,
    {
        let mut two: Vec<String> = Vec::new();
        let a = opts[i].name.clone();
        let b = opts[i].path.clone();
        two.push(a);
        two.push(b);
        assert(two@.map_values(|s: String| s@) =~= seq![opts@[i as int].name@, opts@[i as int].path@]);
        let ghost before = out@;
        out.push(two);
        assert(key_views(out@) =~= key_views(before).push(
            seq![opts@[i as int].name@, opts@[i as int].path@],
        ));
        i = i + 1;
        assert(opts@.take(i as int) =~= opts@.take(i - 1).push(opts@[i - 1]));
        assert(key_views(out@) =~= iteration_keys(opts@.take(i as int)));
    }
    assert(opts@.take(opts.len() as int) =~= opts@);
    out
}

impl IterationPicker {
    /// A picker over `options` (kept in their given, chronological order) with
    /// `selected` ticked, an empty query, and the cursor on the current
    /// iteration (the top row if none is current).
    pub fn new(options: Vec<Iteration>, selected: Vec<String>) -> (r: Self)
        ensures
            r.options@ == options@,
            r.selected@ == selected@,
            r.input.text() == Seq::<char>::empty(),
            r.input.pos() == 0,
            r.cursor as int == start_cursor(options@),
    {
        let cursor = find_current(&options);
        IterationPicker { options, selected, input: TextInput::empty(), cursor }
    }

    /// Replace the option list (when the iterations finish loading while the
    /// picker is open). Keeps the selection and query; puts the cursor on the
    /// current iteration when there were no options before, else keeps it
    /// within the new list.
    pub fn refresh_options(&mut self, options: Vec<Iteration>)
        ensures
            final(self).options@ == options@,
            final(self).selected@ == old(self).selected@,
            final(self).input.text() == old(self).input.text(),
            final(self).input.pos() == old(self).input.pos(),
            final(self).cursor as int == if old(self).options@.len() == 0 {
                start_cursor(options@)
            } else {
                let max = if options@.len() >= 1 { options@.len() - 1 } else { 0 };
                if old(self).cursor <= max {
                    old(self).cursor as int
                } else {
                    max
                }
            },
    {
        let was_empty = self.options.len() == 0;
        self.options = options;
        if was_empty {
            self.cursor = find_current(&self.options);
        } else {
            let n = self.options.len();
            let max = if n >= 1 { n - 1 } else { 0 };
            if self.cursor > max {
                self.cursor = max;
            }
        }
    }

    /// Iterations matching the current query, ranked by fuzzy score (matched
    /// on both the short name and the full path).
    pub fn matches(&self) -> (r: Vec<Iteration>)
        ensures
            r@ == iteration_matches(self.options@, self.input.text()),
    {
        let keys = iteration_key_lists(&self.options);
        let query = self.input.value();
        let idx = rank(&keys, query.as_str());
        proof {
            lemma_ranking_in_bounds(key_views(keys@), query@, idx@);
        }
        let mut out: Vec<Iteration> = Vec::new();
        let mut i: usize = 0;
        while i < idx.len()
            invariant
                i <= idx@.len(),
                idx@ == ranked(iteration_keys(self.options@), self.input.text()),
                forall|k: int| 0 <= k < idx@.len() ==> (#[trigger] idx@[k]) < self.options@.len(),
                out@ == idx@.take(i as int).map_values(|j: usize| self.options@[j as int]),
            decreases idx.len() - i,
        {
            out.push(self.options[idx[i]].copy());
            i = i + 1;
            assert(out@ =~= idx@.take(i as int).map_values(|j: usize| self.options@[j as int]));
        }
        assert(idx@.take(idx.len() as int) =~= idx@);
        out
    }

    /// Whether `path` is among the selected iteration paths.
    pub fn is_selected(&self, path: &str) -> (r: bool)
        ensures
            r == has_entry(views(self.selected@), path@, false),
    {
        has_same(&self.selected, path, false)
    }

    /// Remove `path` from the selection if present, else add it.
    fn toggle(&mut self, path: &str)
        ensures
            final(self).options@ == old(self).options@,
            views(final(self).selected@) == toggled(views(old(self).selected@), path@, false),
            final(self).input.text() == old(self).input.text(),
            final(self).input.pos() == old(self).input.pos(),
            final(self).cursor == old(self).cursor,
    {
        toggle_entry(&mut self.selected, path, false);
    }

    /// Handle a key. Returns `Some(true)` to apply, `Some(false)` to cancel,
    /// `None` to stay open.
    pub fn handle(&mut self, key: KeyEvent) -> (r: Option<bool>)
        ensures
            final(self).options@ == old(self).options@,
            (
                views(final(self).selected@),
                final(self).input.text(),
                final(self).input.pos(),
                final(self).cursor as int,
                r,
            ) == iteration_step(
                old(self).options@,
                views(old(self).selected@),
                old(self).input.text(),
                old(self).input.pos(),
                old(self).cursor as int,
                key,
            ),
    {
        let ctrl = key.ctrl;
        let mut up = false;
        let mut down = false;
        let mut toggle = false;
        let mut edit = false;
        match key.code {
            KeyCode::Esc => {
                return Some(false);
            },
            KeyCode::Enter => {
                return Some(true);
            },
            KeyCode::Up => {
                up = true;
            },
            KeyCode::Down => {
                down = true;
            },
            KeyCode::Tab => {
                toggle = true;
            },
            KeyCode::Char(c) => {
                if c == 'p' && ctrl {
                    up = true;
                } else if c == 'n' && ctrl {
                    down = true;
                } else if c == ' ' {
                    toggle = true;
                } else {
                    edit = true;
                }
            },
            _ => {
                edit = true;
            },
        }
        if up {
            self.cursor = cursor_up(self.cursor);
        } else if down {
            let n = self.matches().len();
            self.cursor = cursor_down(self.cursor, n);
        } else if toggle {
            let m = self.matches();
            if self.cursor < m.len() {
                let path = m[self.cursor].path.clone();
                self.toggle(path.as_str());
            }
        } else {
            if self.input.handle(key) {
                self.cursor = 0;
            }
        }
        None
    }

    /// The committed value: the selected iteration paths.
    pub fn value(&self) -> (r: Vec<String>)
        ensures
            r@ == self.selected@,
    {
        copy_strings(&self.selected)
    }
}

} // verus!
