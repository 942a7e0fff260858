//! Keyboard events as the library sees them, and a small single-line text
//! input with Emacs-style editing bindings, reused by every in-app editable
//! field (config edit, fuzzy help, pickers).
//!
//! Bindings: C-a/C-e (home/end), C-f/C-b (char fwd/back), M-f/M-b (word),
//! C-d (delete fwd), Backspace/C-h (delete back), C-k (kill to end),
//! C-u (kill to start), C-w (delete word back).
use crate::text::{chars_of, string_of};
use vstd::prelude::*;

verus! {

/// The key of a key press.
#[derive(Clone, Copy, Debug, PartialEq, Eq, Structural)]
pub enum KeyCode {
    Char(char),
    Enter,
    Esc,
    Tab,
    BackTab,
    Backspace,
    Delete,
    Left,
    Right,
    Up,
    Down,
    Home,
    End,
    PageUp,
    PageDown,
    /// Any other key (function keys, media keys, …).
    Other,
}

/// A key press with its modifier state.
#[derive(Clone, Copy, Debug, PartialEq, Eq, Structural)]
pub struct KeyEvent {
    pub code: KeyCode,
    pub ctrl: bool,
    pub alt: bool,
    pub shift: bool,
}

impl KeyEvent {
    /// A key pressed without modifiers.
    pub fn plain(code: KeyCode) -> (r: Self)
        ensures
            r == (KeyEvent { code, ctrl: false, alt: false, shift: false }),
    {
        KeyEvent { code, ctrl: false, alt: false, shift: false }
    }

    /// A character pressed with Control.
    pub fn ctrl(c: char) -> (r: Self)
        ensures
            r == (KeyEvent { code: KeyCode::Char(c), ctrl: true, alt: false, shift: false }),
    {
        KeyEvent { code: KeyCode::Char(c), ctrl: true, alt: false, shift: false }
    }

    /// A character pressed with Alt.
    pub fn alt(c: char) -> (r: Self)
        ensures
            r == (KeyEvent { code: KeyCode::Char(c), ctrl: false, alt: true, shift: false }),
    {
        KeyEvent { code: KeyCode::Char(c), ctrl: false, alt: true, shift: false }
    }
}

/// `char::is_alphanumeric` (Unicode `Alphabetic` or `Numeric`).
pub uninterp spec fn alnum(c: char) -> bool;

/// `char::is_alphanumeric`.
#[verifier::external_body]
fn is_alphanumeric(c: char) -> (r: bool)
    ensures
        r == alnum(c),
{
    c.is_alphanumeric()
}

/// A character that belongs to a word for word motions.
pub open spec fn word_char(c: char) -> bool {
    alnum(c) || c == '_'
}

/// Move left from `i` over characters whose wordness is `word`.
pub open spec fn skip_left(s: Seq<char>, i: int, word: bool) -> int
    decreases i,
{
    if 0 < i <= s.len() && word_char(s[i - 1]) == word {
        skip_left(s, i - 1, word)
    } else {
        i
    }
}

/// Move right from `i` over characters whose wordness is `word`.
pub open spec fn skip_right(s: Seq<char>, i: int, word: bool) -> int
    decreases s.len() - i,
{
    if 0 <= i < s.len() && word_char(s[i]) == word {
        skip_right(s, i + 1, word)
    } else {
        i
    }
}

/// Start of the word before the cursor.
pub open spec fn prev_word_of(s: Seq<char>, c: int) -> int {
    skip_left(s, skip_left(s, c, false), true)
}

/// End of the word after the cursor.
pub open spec fn next_word_of(s: Seq<char>, c: int) -> int {
    skip_right(s, skip_right(s, c, false), true)
}

proof fn lemma_skip_left(s: Seq<char>, i: int, word: bool)
    requires
        0 <= i <= s.len(),
    ensures
        0 <= skip_left(s, i, word) <= i,
    decreases i,
{
    if 0 < i && word_char(s[i - 1]) == word {
        lemma_skip_left(s, i - 1, word);
    }
}

proof fn lemma_skip_right(s: Seq<char>, i: int, word: bool)
    requires
        0 <= i <= s.len(),
    ensures
        i <= skip_right(s, i, word) <= s.len(),
    decreases s.len() - i,
{
    if i < s.len() && word_char(s[i]) == word {
        lemma_skip_right(s, i + 1, word);
    }
}

/// The text and cursor after deleting the character before the cursor.
pub open spec fn backspace_of(s: Seq<char>, c: int) -> (Seq<char>, int) {
    if c > 0 {
        (s.remove(c - 1), c - 1)
    } else {
        (s, c)
    }
}

/// One editing step of a text input holding `s` with the cursor at `c`: the
/// new text, the new cursor, and whether the key was consumed.
pub open spec fn input_step(s: Seq<char>, c: int, k: KeyEvent) -> (Seq<char>, int, bool) {
    let n = s.len() as int;
    match k.code {
        KeyCode::Char(ch) => {
            if ch == 'a' && k.ctrl {
                (s, 0, true)
            } else if ch == 'e' && k.ctrl {
                (s, n, true)
            } else if ch == 'f' && k.ctrl {
                (s, if c + 1 <= n { c + 1 } else { n }, true)
            } else if ch == 'b' && k.ctrl {
                (s, if c >= 1 { c - 1 } else { 0 }, true)
            } else if ch == 'f' && k.alt {
                (s, next_word_of(s, c), true)
            } else if ch == 'b' && k.alt {
                (s, prev_word_of(s, c), true)
            } else if ch == 'd' && k.ctrl {
                (if c < n { s.remove(c) } else { s }, c, true)
            } else if ch == 'k' && k.ctrl {
                (s.take(c), c, true)
            } else if ch == 'u' && k.ctrl {
                (s.skip(c), 0, true)
            } else if ch == 'w' && k.ctrl {
                (s.take(prev_word_of(s, c)) + s.skip(c), prev_word_of(s, c), true)
            } else if ch == 'h' && k.ctrl {
                (backspace_of(s, c).0, backspace_of(s, c).1, true)
            } else if !k.ctrl && !k.alt {
                (s.insert(c, ch), c + 1, true)
            } else {
                (s, c, false)
            }
        },
        KeyCode::Left => (s, if c >= 1 { c - 1 } else { 0 }, true),
        KeyCode::Right => (s, if c + 1 <= n { c + 1 } else { n }, true),
        KeyCode::Home => (s, 0, true),
        KeyCode::End => (s, n, true),
        KeyCode::Backspace => (backspace_of(s, c).0, backspace_of(s, c).1, true),
        KeyCode::Delete => (if c < n { s.remove(c) } else { s }, c, true),
        _ => (s, c, false),
    }
}

/// Remove the characters in `[a, b)`.
fn copy_chars(v: &Vec<char>) -> (r: Vec<char>)
    ensures
        r@ == v@,
{
    let mut out: Vec<char> = Vec::new();
    let mut i: usize = 0;
    while i < v.len()
        invariant
            i <= v.len(),
            out@ == v@.take(i as int),
        decreases v.len() - i,
    {
        out.push(v[i]);
        i = i + 1;
        assert(out@ =~= v@.take(i as int));
    }
    assert(v@.take(v.len() as int) =~= v@);
    out
}

fn cut_range(v: &Vec<char>, a: usize, b: usize) -> (r: Vec<char>)
    requires
        a <= b <= v@.len(),
    ensures
        r@ == v@.take(a as int) + v@.skip(b as int),
{
    let mut out: Vec<char> = Vec::new();
    let mut i: usize = 0;
    while i < v.len()
        invariant
            a <= b <= v@.len(),
            i <= v@.len(),
            out@ == v@.take(if i < a { i as int } else { a as int }) + v@.subrange(
                if i < b { b as int } else { i as int },
                if i < b { b as int } else { i as int },
            ).add(if i > b { v@.subrange(b as int, i as int) } else { Seq::empty() }),
        decreases v.len() - i,
    {
        if i < a || i >= b {
            out.push(v[i]);
        }
        i += 1;
        assert(out@ =~= v@.take(if i < a { i as int } else { a as int })
            + v@.subrange(
            if i < b { b as int } else { i as int },
            if i < b { b as int } else { i as int },
        ).add(if i > b { v@.subrange(b as int, i as int) } else { Seq::empty() }));
    }
    assert(out@ =~= v@.take(a as int) + v@.skip(b as int));
    out
}

#[derive(Debug)]
pub struct TextInput {
    chars: Vec<char>,
    cursor: usize,
}

impl Clone for TextInput {
    fn clone(&self) -> (r: Self)
        ensures
            r.text() == self.text(),
            r.pos() == self.pos(),
    {
        proof {
            use_type_invariant(self);
        }
        TextInput { chars: copy_chars(&self.chars), cursor: self.cursor }
    }
}

impl TextInput {
    /// The text held.
    pub closed spec fn text(&self) -> Seq<char> {
        self.chars@
    }

    /// The cursor position (a character index, at most the text length).
    pub closed spec fn pos(&self) -> int {
        self.cursor as int
    }

    /// The cursor lies within the text.
    #[verifier::type_invariant]
    spec fn cursor_in_text(&self) -> bool {
        self.cursor <= self.chars@.len()
    }

    /// An input holding `initial` with the cursor at its end.
    pub fn new(initial: &str) -> (r: Self)
        ensures
            r.text() == initial@,
            r.pos() == initial@.len(),
    {
        let chars = chars_of(initial);
        let cursor = chars.len();
        Self { chars, cursor }
    }

    /// An empty input.
    pub fn empty() -> (r: Self)
        ensures
            r.text() == Seq::<char>::empty(),
            r.pos() == 0,
    {
        Self { chars: Vec::new(), cursor: 0 }
    }

    pub fn value(&self) -> (r: String)
        ensures
            r@ == self.text(),
    {
        string_of(&self.chars)
    }

    /// The cursor position.
    pub fn cursor(&self) -> (r: usize)
        ensures
            r as int == self.pos(),
            r <= self.text().len(),
    {
        proof {
            use_type_invariant(self);
        }
        self.cursor
    }

    pub fn clear(&mut self)
        ensures
            final(self).text() == Seq::<char>::empty(),
            final(self).pos() == 0,
    {
        *self = TextInput::empty();
    }

    fn is_word(c: char) -> (r: bool)
        ensures
            r == word_char(c),
    {
        is_alphanumeric(c) || c == '_'
    }

    fn prev_word(&self) -> (r: usize)
        ensures
            r as int == prev_word_of(self.text(), self.pos()),
            r <= self.cursor,
    {
        proof {
            use_type_invariant(self);
        }
        let mut i = self.cursor;
        while i > 0 && !Self::is_word(self.chars[i - 1])
            invariant
                i <= self.cursor <= self.chars@.len(),
                skip_left(self.chars@, i as int, false) == skip_left(
                    self.chars@,
                    self.cursor as int,
                    false,
                ),
            decreases i,
        {
            i -= 1;
        }
        let ghost mid = i;
        while i > 0 && Self::is_word(self.chars[i - 1])
            invariant
                i <= mid <= self.cursor <= self.chars@.len(),
                mid == skip_left(self.chars@, self.cursor as int, false),
                skip_left(self.chars@, i as int, true) == skip_left(self.chars@, mid as int, true),
            decreases i,
        {
            i -= 1;
        }
        i
    }

    fn next_word(&self) -> (r: usize)
        ensures
            r as int == next_word_of(self.text(), self.pos()),
            self.cursor <= r <= self.chars@.len(),
    {
        proof {
            use_type_invariant(self);
        }
        let n = self.chars.len();
        let mut i = self.cursor;
        while i < n && !Self::is_word(self.chars[i])
            invariant
                n == self.chars@.len(),
                self.cursor <= i <= n,
                skip_right(self.chars@, i as int, false) == skip_right(
                    self.chars@,
                    self.cursor as int,
                    false,
                ),
            decreases n - i,
        {
            i += 1;
        }
        let ghost mid = i;
        while i < n && Self::is_word(self.chars[i])
            invariant
                n == self.chars@.len(),
                self.cursor <= mid <= i <= n,
                mid == skip_right(self.chars@, self.cursor as int, false),
                skip_right(self.chars@, i as int, true) == skip_right(self.chars@, mid as int, true),
            decreases n - i,
        {
            i += 1;
        }
        i
    }

    fn backspace(&mut self)
        ensures
            (final(self).text(), final(self).pos()) == backspace_of(old(self).text(), old(self).pos()),
    {
        proof {
            use_type_invariant(&*self);
        }
        if self.cursor > 0 {
            let mut v = copy_chars(&self.chars);
            let c = self.cursor - 1;
            v.remove(c);
            *self = TextInput { chars: v, cursor: c };
        }
    }

    /// Handle a key; returns true if it was consumed as text editing.
    /// Callers handle navigation/submit keys (Enter, Esc, Tab) themselves.
    pub fn handle(&mut self, key: KeyEvent) -> (r: bool)
        ensures
            (final(self).text(), final(self).pos(), r) == input_step(
                old(self).text(),
                old(self).pos(),
                key,
            ),
    {
        proof {
            use_type_invariant(&*self);
        }
        let ctrl = key.ctrl;
        let alt = key.alt;
        let n = self.chars.len();
        proof {
            lemma_skip_left(self.chars@, self.cursor as int, false);
            lemma_skip_left(self.chars@, skip_left(self.chars@, self.cursor as int, false), true);
            lemma_skip_right(self.chars@, self.cursor as int, false);
            lemma_skip_right(self.chars@, skip_right(self.chars@, self.cursor as int, false), true);
        }
        match key.code {
            KeyCode::Char(ch) => {
                if ch == 'a' && ctrl {
                    self.cursor = 0;
                } else if ch == 'e' && ctrl {
                    self.cursor = n;
                } else if ch == 'f' && ctrl {
                    self.cursor = if self.cursor < n { self.cursor + 1 } else { n };
                } else if ch == 'b' && ctrl {
                    self.cursor = if self.cursor >= 1 { self.cursor - 1 } else { 0 };
                } else if ch == 'f' && alt {
                    self.cursor = self.next_word();
                } else if ch == 'b' && alt {
                    self.cursor = self.prev_word();
                } else if ch == 'd' && ctrl {
                    if self.cursor < n {
                        let mut v = copy_chars(&self.chars);
                        v.remove(self.cursor);
                        *self = TextInput { chars: v, cursor: self.cursor };
                    }
                } else if ch == 'k' && ctrl {
                    let c = self.cursor;
                    let v = cut_range(&self.chars, c, n);
                    *self = TextInput { chars: v, cursor: c };
                    assert(self.chars@ =~= old(self).chars@.take(old(self).cursor as int));
                } else if ch == 'u' && ctrl {
                    let c = self.cursor;
                    let rest = cut_range(&self.chars, 0, c);
                    *self = TextInput { chars: rest, cursor: 0 };
                    assert(self.chars@ =~= old(self).chars@.skip(c as int));
                } else if ch == 'w' && ctrl {
                    let start = self.prev_word();
                    let c = self.cursor;
                    let rest = cut_range(&self.chars, start, c);
                    *self = TextInput { chars: rest, cursor: start };
                } else if ch == 'h' && ctrl {
                    self.backspace();
                } else if !ctrl && !alt {
                    let mut v = copy_chars(&self.chars);
                    v.insert(self.cursor, ch);
                    assert(self.cursor < v.len());
                    *self = TextInput { chars: v, cursor: self.cursor + 1 };
                } else {
                    return false;
                }
            },
            KeyCode::Left => {
                self.cursor = if self.cursor >= 1 { self.cursor - 1 } else { 0 };
            },
            KeyCode::Right => {
                self.cursor = if self.cursor < n { self.cursor + 1 } else { n };
            },
            KeyCode::Home => {
                self.cursor = 0;
            },
            KeyCode::End => {
                self.cursor = n;
            },
            KeyCode::Backspace => {
                self.backspace();
            },
            KeyCode::Delete => {
                if self.cursor < n {
                    let mut v = copy_chars(&self.chars);
                    v.remove(self.cursor);
                    *self = TextInput { chars: v, cursor: self.cursor };
                }
            },
            _ => {
                return false;
            },
        }
        true
    }
}


/// Typing a character and then pressing Backspace gives back the text and
/// cursor as they were.
pub proof fn law_type_then_backspace(s: Seq<char>, c: int, ch: char)
    requires
        0 <= c <= s.len(),
    ensures
        ({
            let (t, p, h) = input_step(s, c, KeyEvent { code: KeyCode::Char(ch), ctrl: false, alt: false, shift: false });
            &&& h
            &&& t == s.insert(c, ch)
            &&& p == c + 1
            &&& input_step(t, p, KeyEvent { code: KeyCode::Backspace, ctrl: false, alt: false, shift: false }) == (s, c, true)
        }),
{
    let t = s.insert(c, ch);
    assert(t.remove(c) =~= s);
}

/// Every key leaves the cursor within the text.
pub proof fn law_cursor_within_text(s: Seq<char>, c: int, k: KeyEvent)
    requires
        0 <= c <= s.len(),
    ensures
        0 <= input_step(s, c, k).1 <= input_step(s, c, k).0.len(),
{
    lemma_skip_left(s, c, false);
    lemma_skip_left(s, skip_left(s, c, false), true);
    lemma_skip_right(s, c, false);
    lemma_skip_right(s, skip_right(s, c, false), true);
}

} // verus!
