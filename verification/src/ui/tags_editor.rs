//! Floating editor for a work item's tags. Fuzzy-filter the project's known
//! tags, toggle membership, and add brand-new tags by typing them. The result
//! is committed as a single pending edit to the `tags` field on save.
use crate::text::{
    dedup_seq, dedup_strings, is_blank, join, join_strings, lex_leq, sort_strings, trim, trimmed,
    views,
};
use crate::ui::fuzzy::{fuzzy_filtered, rank_strings};
use crate::ui::input::{input_step, KeyCode, KeyEvent, TextInput};
use crate::ui::select::{
    cursor_down, cursor_up, has_entry, has_same, step_down, step_up, toggle_entry, toggled,
};
use vstd::prelude::*;

verus! {

pub struct TagsEditor {
    /// The item's currently selected tags (the working set to commit).
    pub selected: Vec<String>,
    /// All tags known to the project, for fuzzy autocomplete.
    pub known: Vec<String>,
    pub input: TextInput,
    pub cursor: usize,
}

/// `known` extended, in order, by each tag of `sel` that it does not already
/// hold (ignoring ASCII case).
pub open spec fn with_missing(known: Seq<Seq<char>>, sel: Seq<Seq<char>>) -> Seq<Seq<char>>
    decreases sel.len(),
{
    if sel.len() == 0 {
        known
    } else {
        let k = with_missing(known, sel.drop_last());
        if has_entry(k, sel.last(), true) {
            k
        } else {
            k.push(sel.last())
        }
    }
}

/// The option list of an editor opened on `sel` with the project's `known`
/// tags: both together, sorted, without duplicates.
pub open spec fn tag_options(known: Seq<Seq<char>>, sel: Seq<Seq<char>>) -> Seq<Seq<char>> {
    dedup_seq(with_missing(known, sel).sort_by(lex_leq()))
}

/// What a key does to the editor: new selection, known tags, query text,
/// text cursor, list cursor, and the outcome (`Some(true)` commit,
/// `Some(false)` cancel, `None` stay open).
pub open spec fn tags_step(
    known: Seq<Seq<char>>,
    sel: Seq<Seq<char>>,
    text: Seq<char>,
    pos: int,
    cursor: int,
    key: KeyEvent,
) -> (Seq<Seq<char>>, Seq<Seq<char>>, Seq<char>, int, int, Option<bool>) {
    let m = fuzzy_filtered(known, text);
    let searching = trim(text).len() != 0;
    let stay = (sel, known, text, pos, cursor, None::<bool>);
    let up = (sel, known, text, pos, step_up(cursor), None::<bool>);
    let down = (sel, known, text, pos, step_down(cursor, m.len() as int), None::<bool>);
    let complete = if 0 <= cursor < m.len() {
        (sel, known, m[cursor], m[cursor].len() as int, 0, None::<bool>)
    } else {
        stay
    };
    let q = trim(text);
    let enter = if 0 <= cursor < m.len() {
        (toggled(sel, m[cursor], true), known, text, pos, cursor, None::<bool>)
    } else if q.len() == 0 {
        stay
    } else {
        let known2 = if has_entry(known, q, true) {
            known
        } else {
            known.push(q).sort_by(lex_leq())
        };
        (toggled(sel, q, true), known2, Seq::<char>::empty(), 0, 0, None::<bool>)
    };
    let edit = {
        let (t, p, handled) = input_step(text, pos, key);
        (sel, known, t, p, if handled { 0 } else { cursor }, None::<bool>)
    };
    match key.code {
        KeyCode::Esc => (sel, known, text, pos, cursor, Some(false)),
        KeyCode::Up => up,
        KeyCode::Down => down,
        KeyCode::Tab => if searching {
            complete
        } else {
            (sel, known, text, pos, cursor, Some(true))
        },
        KeyCode::Enter => enter,
        KeyCode::Char(c) => if c == 'p' && key.ctrl {
            up
        } else if c == 'n' && key.ctrl {
            down
        } else if c == 'y' && key.ctrl && searching {
            complete
        } else {
            edit
        },
        _ => edit,
    }
}

impl TagsEditor {
    /// An editor for `selected`; the option list is `known` plus any selected
    /// tag it lacks, sorted and without duplicates.
    pub fn new(selected: Vec<String>, known: Vec<String>) -> (r: Self)
        ensures
            r.selected@ == selected@,
            views(r.known@) == tag_options(views(known@), views(selected@)),
            r.input.text() == Seq::<char>::empty(),
            r.input.pos() == 0,
            r.cursor == 0,
    {
        let mut known = known;
        let ghost k0 = views(known@);
        let mut i: usize = 0;
        while i < selected.len()
            invariant
                i <= selected@.len(),
                views(known@) == with_missing(k0, views(selected@.take(i as int))),
            decreases selected.len() - i,
        {
            proof {
                assert(views(selected@.take(i + 1)).drop_last() =~= views(selected@.take(i as int)));
            }
            if !has_same(&known, selected[i].as_str(), true) {
                let t = selected[i].clone();
                known.push(t);
                assert(views(known@) =~= with_missing(k0, views(selected@.take(i + 1))));
            }
            i = i + 1;
        }
        assert(selected@.take(selected.len() as int) =~= selected@);
        let known = sort_strings(known);
        let known = dedup_strings(known);
        TagsEditor { selected, known, input: TextInput::empty(), cursor: 0 }
    }

    /// Known tags matching the current query, ranked by fuzzy score.
    pub fn matches(&self) -> (r: Vec<String>)
        ensures
            views(r@) == fuzzy_filtered(views(self.known@), self.input.text()),
    {
        let query = self.input.value();
        rank_strings(&self.known, query.as_str())
    }

    /// Whether `tag` is selected (ignoring ASCII case).
    pub fn is_selected(&self, tag: &str) -> (r: bool)
        ensures
            r == has_entry(views(self.selected@), tag@, true),
    {
        has_same(&self.selected, tag, true)
    }

    /// Remove `tag` (ignoring ASCII case) from the selection if present, else
    /// add it.
    fn toggle(&mut self, tag: &str)
        ensures
            final(self).known@ == old(self).known@,
            views(final(self).selected@) == toggled(views(old(self).selected@), tag@, true),
            final(self).input.text() == old(self).input.text(),
            final(self).input.pos() == old(self).input.pos(),
            final(self).cursor == old(self).cursor,
    {
        toggle_entry(&mut self.selected, tag, true);
    }

    /// Handle a key. Returns `Some(true)` to commit, `Some(false)` to cancel,
    /// `None` to stay open.
    pub fn handle(&mut self, key: KeyEvent) -> (r: Option<bool>)
        ensures
            (
                views(final(self).selected@),
                views(final(self).known@),
                final(self).input.text(),
                final(self).input.pos(),
                final(self).cursor as int,
                r,
            ) == tags_step(
                views(old(self).known@),
                views(old(self).selected@),
                old(self).input.text(),
                old(self).input.pos(),
                old(self).cursor as int,
                key,
            ),
    {
        let ctrl = key.ctrl;
        let query = self.input.value();
        let searching = !is_blank(query.as_str());
        let mut up = false;
        let mut down = false;
        let mut complete = false;
        let mut enter = false;
        match key.code {
            KeyCode::Esc => {
                return Some(false);
            },
            KeyCode::Up => {
                up = true;
            },
            KeyCode::Down => {
                down = true;
            },
            KeyCode::Tab => {
                if searching {
                    complete = true;
                } else {
                    return Some(true);
                }
            },
            KeyCode::Enter => {
                enter = true;
            },
            KeyCode::Char(c) => {
                if c == 'p' && ctrl {
                    up = true;
                } else if c == 'n' && ctrl {
                    down = true;
                } else if c == 'y' && ctrl && searching {
                    complete = true;
                }
            },
            _ => {},
        }
        if up {
            self.cursor = cursor_up(self.cursor);
        } else if down {
            let n = self.matches().len();
            self.cursor = cursor_down(self.cursor, n);
        } else if complete {
            let m = self.matches();
            if self.cursor < m.len() {
                assert(m@[self.cursor as int]@ == views(m@)[self.cursor as int]);
                self.input = TextInput::new(m[self.cursor].as_str());
                self.cursor = 0;
            }
        } else if enter {
            let m = self.matches();
            if self.cursor < m.len() {
                assert(m@[self.cursor as int]@ == views(m@)[self.cursor as int]);
                let tag = m[self.cursor].clone();
                self.toggle(tag.as_str());
            } else {
                let q = trimmed(query.as_str());
                if q.as_str().unicode_len() > 0 {
                    if !has_same(&self.known, q.as_str(), true) {
                        let mut known = Vec::new();
                        std::mem::swap(&mut known, &mut self.known);
                        let ghost before = views(known@);
                        known.push(q.clone());
                        assert(views(known@) =~= before.push(q@));
                        self.known = sort_strings(known);
                    }
                    self.toggle(q.as_str());
                    self.input = TextInput::empty();
                    self.cursor = 0;
                }
            }
        } else {
            if self.input.handle(key) {
                self.cursor = 0;
            }
        }
        None
    }

    /// The committed value: the selected tags joined with `", "`.
    pub fn value(&self) -> (r: String)
        ensures
            r@ == join(views(self.selected@), ", "@),
    {
        join_strings(&self.selected, ", ")
    }
}

} // verus!
