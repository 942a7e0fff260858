//! The "yank" menu for copying a work item's details to the clipboard. Opened
//! with `y` while a work item is focused; the second key selects what to copy:
//!   yy → summary (title)        yl → hyperlink (markdown link)
//!   yn → number (#id)           yv → verbose (full details)
//! Esc cancels.
use crate::api::models::WorkItem;
use crate::text::{dec, owned, push_dec};
use vstd::prelude::*;

verus! {

/// What a yank produces.
#[derive(Clone, Copy, Debug, PartialEq, Eq, Structural)]
pub enum YankKind {
    /// The work item's title.
    Summary,
    /// A markdown hyperlink to the item in the web UI.
    Hyperlink,
    /// The item's number (`#id`).
    Number,
    /// A multi-line dump of the item's key fields.
    Verbose,
}

/// A single selectable entry in the yank menu.
#[derive(Clone, Copy, Debug)]
pub struct YankEntry {
    /// The key (the second `y…` keystroke) that triggers this entry.
    pub key: char,
    pub label: &'static str,
    pub kind: YankKind,
}

/// The key and kind of each menu entry, in display order.
pub open spec fn yank_table() -> Seq<(char, YankKind)> {
    seq![
        ('y', YankKind::Summary),
        ('l', YankKind::Hyperlink),
        ('n', YankKind::Number),
        ('v', YankKind::Verbose),
    ]
}

/// The kind that the second keystroke `key` selects.
pub open spec fn yank_kind_of(key: char) -> Option<YankKind> {
    if key == 'y' {
        Some(YankKind::Summary)
    } else if key == 'l' {
        Some(YankKind::Hyperlink)
    } else if key == 'n' {
        Some(YankKind::Number)
    } else if key == 'v' {
        Some(YankKind::Verbose)
    } else {
        None
    }
}

/// The yank menu's entries, in display order.
pub fn yank_entries() -> (r: Vec<YankEntry>)
    ensures
        r@.len() == yank_table().len(),
        forall|i: int| 0 <= i < r@.len() ==> (#[trigger] r@[i]).key == yank_table()[i].0 && r@[i].kind
            == yank_table()[i].1,
{
    let mut v: Vec<YankEntry> = Vec::new();
    v.push(YankEntry { key: 'y', label: "summary (title)", kind: YankKind::Summary });
    v.push(YankEntry { key: 'l', label: "hyperlink (markdown link)", kind: YankKind::Hyperlink });
    v.push(YankEntry { key: 'n', label: "number (#id)", kind: YankKind::Number });
    v.push(YankEntry { key: 'v', label: "verbose (full details)", kind: YankKind::Verbose });
    v
}

/// Modal state for the yank menu: the work item it was opened on.
pub struct YankMenu {
    pub id: u32,
    pub title: String,
}

impl YankMenu {
    pub fn new(id: u32, title: String) -> (r: Self)
        ensures
            r.id == id,
            r.title@ == title@,
    {
        YankMenu { id, title }
    }

    /// The kind that the second keystroke selects: the first menu entry with
    /// that key.
    pub fn kind_for(key: char) -> (r: Option<YankKind>)
        ensures
            r == yank_kind_of(key),
    {
        let entries = yank_entries();
        let mut i: usize = 0;
        while i < entries.len()
            invariant
                i <= entries@.len(),
                entries@.len() == yank_table().len(),
                forall|k: int| 0 <= k < entries@.len() ==> (#[trigger] entries@[k]).key == yank_table()[k].0
                    && entries@[k].kind == yank_table()[k].1,
                forall|k: int| 0 <= k < i ==> (#[trigger] yank_table()[k]).0 != key,
            decreases entries.len() - i,
        {
            if entries[i].key == key {
                return Some(entries[i].kind);
            }
            i = i + 1;
        }
        None
    }
}


/// Every menu entry's key selects that entry's kind, and the keys are
/// distinct.
pub proof fn law_entries_select_their_kind()
    ensures
        forall|i: int| 0 <= i < yank_table().len() ==> yank_kind_of(#[trigger] yank_table()[i].0) == Some(yank_table()[i].1),
        forall|i: int, j: int| 0 <= i < j < yank_table().len() ==> #[trigger] yank_table()[i].0 != #[trigger] yank_table()[j].0,
{
}

/// The text a yank copies from `w`, whose web address is `url` when known:
/// the title; a markdown link `[#id title](url)` (plain `#id title` without
/// an address); the number `#id`; or the key fields, one per line.
pub open spec fn yank_text_of(kind: YankKind, w: WorkItem, url: Option<Seq<char>>) -> Seq<char> {
    let number = "#"@ + dec(w.id as nat);
    match kind {
        YankKind::Summary => w.title@,
        YankKind::Number => number,
        YankKind::Hyperlink => match url {
            Some(u) => "["@ + number + " "@ + w.title@ + "]("@ + u + ")"@,
            None => number + " "@ + w.title@,
        },
        YankKind::Verbose => number + " "@ + w.title@ + "\nType: "@ + w.item_type@ + "\nState: "@ + w.state_name@
            + "\nAssigned to: "@ + w.assigned_to@ + "\nIteration: "@ + w.iteration@ + match url {
            Some(u) => "\n"@ + u,
            None => Seq::empty(),
        },
    }
}

/// The text a yank copies (see [`yank_text_of`]).
pub fn yank_text(kind: YankKind, w: &WorkItem, url: Option<&str>) -> (r: String)
    ensures
        r@ == yank_text_of(
            kind,
            *w,
            match url {
                Some(u) => Some(u@),
                None => None,
            },
        ),
{
    let mut number = owned("#");
    push_dec(&mut number, w.id as u64);
    match kind {
        YankKind::Summary => w.title.clone(),
        YankKind::Number => number,
        YankKind::Hyperlink => match url {
            Some(u) => {
                let mut s = owned("[");
                s.append(number.as_str());
                s.append(" ");
                s.append(w.title.as_str());
                s.append("](");
                s.append(u);
                s.append(")");
                s
            },
            None => {
                let mut s = number;
                s.append(" ");
                s.append(w.title.as_str());
                s
            },
        },
        YankKind::Verbose => {
            let mut s = number;
            s.append(" ");
            s.append(w.title.as_str());
            s.append("\nType: ");
            s.append(w.item_type.as_str());
            s.append("\nState: ");
            s.append(w.state_name.as_str());
            s.append("\nAssigned to: ");
            s.append(w.assigned_to.as_str());
            s.append("\nIteration: ");
            s.append(w.iteration.as_str());
            match url {
                Some(u) => {
                    s.append("\n");
                    s.append(u);
                },
                None => {},
            }
            s
        },
    }
}

} // verus!
