//! fzf-style chooser: a text input on top that fuzzy-filters a list of
//! options. Used by the first-run wizard (organisation / project selection)
//! and by any other "pick one of N" flow.
use crate::text::views;
use crate::ui::fuzzy::{fuzzy_filtered, rank_strings};
use crate::ui::input::{input_step, KeyCode, KeyEvent, TextInput};
use crate::ui::select::{cursor_down, cursor_up, step_down, step_up};
use vstd::prelude::*;

verus! {

pub struct Picker {
    pub input: TextInput,
    pub options: Vec<String>,
    pub selected: usize,
}

/// The options of a picker holding `options` whose query is `query`, best
/// match first.
pub open spec fn picker_matches(options: Seq<String>, query: Seq<char>) -> Seq<Seq<char>> {
    fuzzy_filtered(views(options), query)
}

/// What a key does to a picker: the new query text, cursor in the text, row
/// selection, and whether the key was handled.
pub open spec fn picker_step(
    options: Seq<String>,
    text: Seq<char>,
    pos: int,
    selected: int,
    key: KeyEvent,
) -> (Seq<char>, int, int, bool) {
    match key.code {
        KeyCode::Up => (text, pos, step_up(selected), true),
        KeyCode::Down => (
            text,
            pos,
            step_down(selected, picker_matches(options, text).len() as int),
            true,
        ),
        _ => {
            let (t, p, handled) = input_step(text, pos, key);
            (t, p, if handled { 0 } else { selected }, handled)
        },
    }
}

impl Picker {
    /// A picker over `options` with an empty query and the first row selected.
    pub fn new(options: Vec<String>) -> (r: Self)
        ensures
            r.options@ == options@,
            r.selected == 0,
            r.input.text() == Seq::<char>::empty(),
            r.input.pos() == 0,
    {
        Picker { input: TextInput::empty(), options, selected: 0 }
    }

    /// Replace the options, clearing the query and selecting the first row.
    pub fn set_options(&mut self, options: Vec<String>)
        ensures
            final(self).options@ == options@,
            final(self).selected == 0,
            final(self).input.text() == Seq::<char>::empty(),
            final(self).input.pos() == 0,
    {
        self.options = options;
        self.selected = 0;
        self.input = TextInput::empty();
    }

    /// Options matching the current query, ranked by fuzzy score.
    pub fn matches(&self) -> (r: Vec<String>)
        ensures
            views(r@) == picker_matches(self.options@, self.input.text()),
    {
        let query = self.input.value();
        rank_strings(&self.options, query.as_str())
    }

    /// The selected match, if the selection lies within the matches.
    pub fn current(&self) -> (r: Option<String>)
        ensures
            match r {
                Some(s) => self.selected < picker_matches(self.options@, self.input.text()).len()
                    && s@ == picker_matches(self.options@, self.input.text())[self.selected as int],
                None => self.selected >= picker_matches(self.options@, self.input.text()).len(),
            },
    {
        let m = self.matches();
        if self.selected < m.len() {
            let s = m[self.selected].clone();
            assert(s@ == views(m@)[self.selected as int]);
            Some(s)
        } else {
            None
        }
    }

    /// Handle a key; returns true if it was handled (movement or editing).
    pub fn handle(&mut self, key: KeyEvent) -> (r: bool)
        ensures
            final(self).options@ == old(self).options@,
            (final(self).input.text(), final(self).input.pos(), final(self).selected as int, r)
                == picker_step(
                old(self).options@,
                old(self).input.text(),
                old(self).input.pos(),
                old(self).selected as int,
                key,
            ),
    {
        match key.code {
            KeyCode::Up => {
                self.selected = cursor_up(self.selected);
                true
            },
            KeyCode::Down => {
                let n = self.matches().len();
                self.selected = cursor_down(self.selected, n);
                true
            },
            _ => {
                let handled = self.input.handle(key);
                if handled {
                    self.selected = 0;
                }
                handled
            },
        }
    }
}

} // verus!
