//! Floating multi-select for the work-item *type* filter (Task / User Story /
//! Feature / Capability / Epic). Navigate with `^n`/`^p` (or arrows), toggle
//! with Space/Enter, and apply with Tab (when the query is empty). While
//! searching, Tab/`^y` autocomplete the highlighted type into the query.
use crate::api::models::copy_strings;
use crate::text::{is_blank, trim, views};
use crate::ui::fuzzy::{fuzzy_filtered, rank_strings};
use crate::ui::input::{input_step, KeyCode, KeyEvent, TextInput};
use crate::ui::select::{
    cursor_down, cursor_up, has_entry, has_same, step_down, step_up, toggle_entry, toggled,
};
use vstd::prelude::*;

verus! {

pub struct TypeFilter {
    /// All selectable work-item types (the option list).
    pub options: Vec<String>,
    /// Selected type names (the working set to apply).
    pub selected: Vec<String>,
    pub input: TextInput,
    pub cursor: usize,
}

/// What a key does to the type filter: new selection, query text, text
/// cursor, list cursor, and the outcome (`Some(true)` apply, `Some(false)`
/// cancel, `None` stay open).
pub open spec fn type_step(
    opts: Seq<Seq<char>>,
    sel: Seq<Seq<char>>,
    text: Seq<char>,
    pos: int,
    cursor: int,
    key: KeyEvent,
) -> (Seq<Seq<char>>, Seq<char>, int, int, Option<bool>) {
    let m = fuzzy_filtered(opts, text);
    let searching = trim(text).len() != 0;
    let stay = (sel, text, pos, cursor, None::<bool>);
    let up = (sel, text, pos, step_up(cursor), None::<bool>);
    let down = (sel, text, pos, step_down(cursor, m.len() as int), None::<bool>);
    let complete = if 0 <= cursor < m.len() {
        (sel, m[cursor], m[cursor].len() as int, 0, None::<bool>)
    } else {
        stay
    };
    let toggle = if 0 <= cursor < m.len() {
        (toggled(sel, m[cursor], true), text, pos, cursor, None::<bool>)
    } else {
        stay
    };
    let edit = {
        let (t, p, handled) = input_step(text, pos, key);
        (sel, t, p, if handled { 0 } else { cursor }, None::<bool>)
    };
    match key.code {
        KeyCode::Esc => (sel, text, pos, cursor, Some(false)),
        KeyCode::Up => up,
        KeyCode::Down => down,
        KeyCode::Tab => if searching {
            complete
        } else {
            (sel, text, pos, cursor, Some(true))
        },
        KeyCode::Enter => toggle,
        KeyCode::Char(c) => if c == 'p' && key.ctrl {
            up
        } else if c == 'n' && key.ctrl {
            down
        } else if c == 'y' && key.ctrl && searching {
            complete
        } else if c == ' ' {
            toggle
        } else {
            edit
        },
        _ => edit,
    }
}

impl TypeFilter {
    /// A filter over `options` with `selected` ticked, an empty query and the
    /// cursor on the first row.
    pub fn new(options: Vec<String>, selected: Vec<String>) -> (r: Self)
        ensures
            r.options@ == options@,
            r.selected@ == selected@,
            r.input.text() == Seq::<char>::empty(),
            r.input.pos() == 0,
            r.cursor == 0,
    {
        TypeFilter { options, selected, input: TextInput::empty(), cursor: 0 }
    }

    /// Types matching the current query, ranked by fuzzy score.
    pub fn matches(&self) -> (r: Vec<String>)
        ensures
            views(r@) == fuzzy_filtered(views(self.options@), self.input.text()),
    {
        let query = self.input.value();
        rank_strings(&self.options, query.as_str())
    }

    /// Whether `name` is selected (ignoring ASCII case).
    pub fn is_selected(&self, name: &str) -> (r: bool)
        ensures
            r == has_entry(views(self.selected@), name@, true),
    {
        has_same(&self.selected, name, true)
    }

    /// Remove `name` (ignoring ASCII case) from the selection if present,
    /// else add it.
    fn toggle(&mut self, name: &str)
        ensures
            final(self).options@ == old(self).options@,
            views(final(self).selected@) == toggled(views(old(self).selected@), name@, true),
            final(self).input.text() == old(self).input.text(),
            final(self).input.pos() == old(self).input.pos(),
            final(self).cursor == old(self).cursor,
    {
        toggle_entry(&mut self.selected, name, true);
    }

    /// Handle a key. Returns `Some(true)` to apply, `Some(false)` to cancel,
    /// `None` to stay open.
    pub fn handle(&mut self, key: KeyEvent) -> (r: Option<bool>)
        ensures
            final(self).options@ == old(self).options@,
            (
                views(final(self).selected@),
                final(self).input.text(),
                final(self).input.pos(),
                final(self).cursor as int,
                r,
            ) == type_step(
                views(old(self).options@),
                views(old(self).selected@),
                old(self).input.text(),
                old(self).input.pos(),
                old(self).cursor as int,
                key,
            ),
    {
        let ctrl = key.ctrl;
        let query = self.input.value();
        let searching = !is_blank(query.as_str());
        let mut up = false;
        let mut down = false;
        let mut complete = false;
        let mut toggle = false;
        match key.code {
            KeyCode::Esc => {
                return Some(false);
            },
            KeyCode::Up => {
                up = true;
            },
            KeyCode::Down => {
                down = true;
            },
            KeyCode::Tab => {
                if searching {
                    complete = true;
                } else {
                    return Some(true);
                }
            },
            KeyCode::Enter => {
                toggle = true;
            },
            KeyCode::Char(c) => {
                if c == 'p' && ctrl {
                    up = true;
                } else if c == 'n' && ctrl {
                    down = true;
                } else if c == 'y' && ctrl && searching {
                    complete = true;
                } else if c == ' ' {
                    toggle = true;
                }
            },
            _ => {},
        }
        if up {
            self.cursor = cursor_up(self.cursor);
        } else if down {
            let n = self.matches().len();
            self.cursor = cursor_down(self.cursor, n);
        } else if complete {
            let m = self.matches();
            if self.cursor < m.len() {
                assert(m@[self.cursor as int]@ == views(m@)[self.cursor as int]);
                self.input = TextInput::new(m[self.cursor].as_str());
                self.cursor = 0;
            }
        } else if toggle {
            let m = self.matches();
            if self.cursor < m.len() {
                assert(m@[self.cursor as int]@ == views(m@)[self.cursor as int]);
                let name = m[self.cursor].clone();
                self.toggle(name.as_str());
            }
        } else {
            if self.input.handle(key) {
                self.cursor = 0;
            }
        }
        None
    }

    /// The committed value: the selected type names.
    pub fn value(&self) -> (r: Vec<String>)
        ensures
            r@ == self.selected@,
    {
        copy_strings(&self.selected)
    }
}

} // verus!
