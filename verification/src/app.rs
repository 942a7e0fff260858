//! Application state that does not touch the terminal: tabs and panes, the
//! editable fields, pending (un-pushed) edits and their conflict check, the
//! in-pane fuzzy filter, and the background push.
use crate::api::azure::{replace_all, replace_str};
use crate::api::models::{timeframe_label, Iteration, Timeframe, WorkItem};
use crate::api::{CallView, WorkItemClient};
use crate::config::Config;
use crate::text::{
    chars_of, dec, has_prefix, has_sub, is_blank, join, join_strings, lemma_join_part, occurs_at, owned,
    push_dec, starts_with, str_eq, string_of, trim, trimmed, views,
};
use crate::ui::fuzzy::fuzzy_hit;
use crate::keys::{binding_view, binding_views, Action, Binding, Context};
use crate::ui::input::{input_step, KeyCode, KeyEvent, TextInput};
use crate::ui::picker::Picker;
use vstd::prelude::*;

pub use crate::ui::tree::{TreeRow, TreeState};

verus! {

/// The top-level tabs.
#[derive(Clone, Copy, Debug, PartialEq, Eq, Structural)]
pub enum Tab {
    Tree,
    WorkItems,
    Detail,
    Config,
}

impl Default for Tab {
    /// The landing tab: Work Items.
    fn default() -> (r: Self)
        ensures
            r == Tab::WorkItems,
    {
        Tab::WorkItems
    }
}

/// The tab bar's order: Work Items, Detail, Tree, Config.
pub open spec fn tab_order() -> Seq<Tab> {
    seq![Tab::WorkItems, Tab::Detail, Tab::Tree, Tab::Config]
}

/// A tab's title.
pub open spec fn tab_title(t: Tab) -> Seq<char> {
    match t {
        Tab::Tree => "Tree"@,
        Tab::WorkItems => "Work Items"@,
        Tab::Detail => "Detail"@,
        Tab::Config => "Config"@,
    }
}

impl Tab {
    pub fn title(&self) -> (r: &'static str)
        ensures
            r@ == tab_title(*self),
    {
        match self {
            Tab::Tree => "Tree",
            Tab::WorkItems => "Work Items",
            Tab::Detail => "Detail",
            Tab::Config => "Config",
        }
    }

    /// Position of the tab in the tab bar.
    pub fn index(&self) -> (r: usize)
        ensures
            r < tab_order().len(),
            tab_order()[r as int] == *self,
    {
        match self {
            Tab::WorkItems => 0,
            Tab::Detail => 1,
            Tab::Tree => 2,
            Tab::Config => 3,
        }
    }
}

/// Which sub-window has focus inside the Detail view; `l`/`h` cycle through
/// them.
#[derive(Clone, Copy, Debug, PartialEq, Eq, Structural)]
pub enum DetailFocus {
    /// Consolidated item-info pane; Enter opens the floating field editor.
    Info,
    Description,
    Notes,
    Comments,
    Relations,
}

/// The cycling order of the Detail panes.
pub open spec fn focus_order() -> Seq<DetailFocus> {
    seq![
        DetailFocus::Info,
        DetailFocus::Description,
        DetailFocus::Notes,
        DetailFocus::Comments,
        DetailFocus::Relations,
    ]
}

/// Position of a pane in [`focus_order`].
pub open spec fn focus_index(f: DetailFocus) -> int {
    match f {
        DetailFocus::Info => 0,
        DetailFocus::Description => 1,
        DetailFocus::Notes => 2,
        DetailFocus::Comments => 3,
        DetailFocus::Relations => 4,
    }
}

impl DetailFocus {
    /// The pane `delta` steps along the cycle (wrapping both ways).
    pub fn step(self, delta: isize) -> (r: Self)
        ensures
            r == focus_order()[(focus_index(self) + delta) % 5],
    {
        let i: i128 = match self {
            DetailFocus::Info => 0,
            DetailFocus::Description => 1,
            DetailFocus::Notes => 2,
            DetailFocus::Comments => 3,
            DetailFocus::Relations => 4,
        };
        let d: i128 = delta as i128;
        let k: i128 = ((i + d) % 5 + 5) % 5;
        assert(k == (focus_index(self) + delta) % 5);
        if k == 0 {
            DetailFocus::Info
        } else if k == 1 {
            DetailFocus::Description
        } else if k == 2 {
            DetailFocus::Notes
        } else if k == 3 {
            DetailFocus::Comments
        } else {
            DetailFocus::Relations
        }
    }
}

/// How an editable field is edited inside the floating field editor.
#[derive(Clone, Copy, Debug, PartialEq, Eq, Structural)]
pub enum FieldKind {
    /// Single-line value, edited inline with the text input.
    Line,
    /// Long text, edited in `$EDITOR`.
    Multiline,
    /// Enum cycled in place (the workflow state).
    State,
    /// Tags, edited in the floating fuzzy tags editor.
    Tags,
}

/// One editable field: its key, its label, and how it is edited.
#[derive(Clone, Copy, Debug)]
pub struct EditField {
    pub key: &'static str,
    pub label: &'static str,
    pub kind: FieldKind,
}

/// The editable fields (key, label, kind), generic across item types.
pub open spec fn editable_table() -> Seq<(Seq<char>, Seq<char>, FieldKind)> {
    seq![
        ("title"@, "Title"@, FieldKind::Line),
        ("state"@, "State"@, FieldKind::State),
        ("assignee"@, "Assignee"@, FieldKind::Line),
        ("iteration"@, "Iteration"@, FieldKind::Line),
        ("tags"@, "Tags"@, FieldKind::Tags),
        ("description"@, "Description"@, FieldKind::Multiline),
        ("notes"@, "Notes"@, FieldKind::Multiline),
    ]
}

/// The editable fields, in display order (see [`editable_table`]).
pub fn editable_fields() -> (r: Vec<EditField>)
    ensures
        r@.len() == editable_table().len(),
        forall|i: int|
            0 <= i < r@.len() ==> (#[trigger] r@[i]).key@ == editable_table()[i].0 && r@[i].label@
                == editable_table()[i].1 && r@[i].kind == editable_table()[i].2,
{
    let mut v: Vec<EditField> = Vec::new();
    v.push(EditField { key: "title", label: "Title", kind: FieldKind::Line });
    v.push(EditField { key: "state", label: "State", kind: FieldKind::State });
    v.push(EditField { key: "assignee", label: "Assignee", kind: FieldKind::Line });
    v.push(EditField { key: "iteration", label: "Iteration", kind: FieldKind::Line });
    v.push(EditField { key: "tags", label: "Tags", kind: FieldKind::Tags });
    v.push(EditField { key: "description", label: "Description", kind: FieldKind::Multiline });
    v.push(EditField { key: "notes", label: "Notes", kind: FieldKind::Multiline });
    v
}

/// The config fields editable on the Config tab, in order.
pub open spec fn config_field_names() -> Seq<Seq<char>> {
    seq!["org_url"@, "project"@, "team"@, "account"@]
}

/// The config fields editable on the Config tab (see [`config_field_names`]).
pub fn config_fields() -> (r: Vec<&'static str>)
    ensures
        r@.len() == 4,
        forall|i: int| 0 <= i < 4 ==> #[trigger] r@[i]@ == config_field_names()[i],
{
    let mut v: Vec<&'static str> = Vec::new();
    v.push("org_url");
    v.push("project");
    v.push("team");
    v.push("account");
    v
}

/// Floating editor for an item's fields, opened from the Info pane.
pub struct InfoEditor {
    pub id: u32,
    pub selected: usize,
    /// `Some` while inline-editing the selected single-line field.
    pub editing: Option<TextInput>,
}

#[derive(Clone, Copy, Debug, PartialEq, Eq, Structural)]
pub enum Mode {
    Normal,
    Insert,
}

/// First-run setup: pick an organisation, then a project.
pub struct WizardState {
    pub step: usize,
    pub org: Picker,
    pub project: Picker,
}

/// In-progress edit of a config field.
pub struct ConfigEdit {
    pub selected: usize,
    pub buffer: TextInput,
}

/// A request for the main loop to suspend the terminal UI and open `$EDITOR`.
pub enum EditorRequest {
    Field { field: &'static str, initial: String },
    /// Resolving a conflict by hand-merging in the editor.
    Merge { id: u32, field: &'static str },
    Comment,
    /// Editing an existing comment (last write wins).
    EditComment { comment_id: u32, initial: String },
}

/// A local edit not yet pushed to the server. `base` is the server value
/// taken as the common ancestor (captured at the first edit).
pub struct PendingEdit {
    pub field: &'static str,
    pub base: String,
    pub base_rev: u32,
    pub value: String,
}

/// A local, un-pushed comment change, held until the user pushes.
pub enum PendingComment {
    /// A new comment to add on push.
    Add { author: String, text: String },
    /// An edit to an existing comment.
    Edit { comment_id: u32, text: String },
    /// Deletion of an existing comment.
    Delete { comment_id: u32 },
}

/// One field whose local edit diverged from a newer server value.
pub struct FieldConflict {
    pub field: &'static str,
    pub base: String,
    pub local: String,
    pub remote: String,
}

/// The resolution menu: shown when a push detects genuine divergence.
pub struct Resolution {
    pub id: u32,
    pub conflicts: Vec<FieldConflict>,
    /// Highlighted conflicting field (for per-field merge).
    pub selected: usize,
}

/// Live-feed status of one field of the open item.
#[derive(Clone, Copy, Debug, PartialEq, Eq, Structural)]
pub enum FieldStatus {
    /// Changed upstream and clashing with a pending edit.
    Conflicted,
    /// Updated upstream with no conflict (latest content adopted).
    Updated,
}

/// Fuzzy help popup state.
pub struct HelpState {
    pub input: TextInput,
    pub selected: usize,
}

/// A key that leaves the help popup.
#[derive(Clone, Copy, Debug, PartialEq, Eq, Structural)]
pub enum HelpExit {
    /// Close the popup.
    Close,
    /// Close the popup and run the highlighted binding's action.
    Run(Action),
}

/// What a key does in the help popup listing `shown`, with query `text`
/// (cursor `pos`) and row `sel` highlighted: the new query, cursor, row, and
/// whether the popup is left. Esc closes; Down/Ctrl-n and Up/Ctrl-p move the
/// highlight (clamped); while a query is typed, Tab or Ctrl-y copy the
/// highlighted binding's description into the query; Enter runs the
/// highlighted binding; other keys edit the query (the highlight returns to
/// the top when they change it).
pub open spec fn help_step(
    text: Seq<char>,
    pos: int,
    sel: int,
    shown: Seq<(Seq<char>, Seq<char>, Context, Action)>,
    key: KeyEvent,
) -> (Seq<char>, int, int, Option<HelpExit>) {
    let n = shown.len() as int;
    let last = if n > 0 { n - 1 } else { 0 };
    let searching = trim(text).len() != 0;
    if key.code == KeyCode::Esc {
        (text, pos, sel, Some(HelpExit::Close))
    } else if key.code == KeyCode::Down || (key.code == KeyCode::Char('n') && key.ctrl) {
        (text, pos, if sel + 1 < last { sel + 1 } else { last }, None)
    } else if key.code == KeyCode::Up || (key.code == KeyCode::Char('p') && key.ctrl) {
        (text, pos, if sel > 0 { sel - 1 } else { 0 }, None)
    } else if searching && (key.code == KeyCode::Tab || (key.code == KeyCode::Char('y') && key.ctrl)) {
        if 0 <= sel < n {
            (shown[sel].1, shown[sel].1.len() as int, 0, None)
        } else {
            (text, pos, sel, None)
        }
    } else if key.code == KeyCode::Enter {
        if 0 <= sel < n {
            (text, pos, sel, Some(HelpExit::Run(shown[sel].3)))
        } else {
            (text, pos, sel, None)
        }
    } else {
        let (t, p, handled) = input_step(text, pos, key);
        (t, p, if handled { 0 } else { sel }, None)
    }
}

impl HelpState {
    pub fn new() -> (r: Self)
        ensures
            r.input.text() == Seq::<char>::empty(),
            r.selected == 0,
    {
        HelpState { input: TextInput::empty(), selected: 0 }
    }

    /// A key in the help popup, which lists `matches` (see [`help_step`]).
    pub fn handle(&mut self, key: KeyEvent, matches: &Vec<Binding>) -> (r: Option<HelpExit>)
        ensures
            (final(self).input.text(), final(self).input.pos(), final(self).selected as int, r) == help_step(
                old(self).input.text(),
                old(self).input.pos(),
                old(self).selected as int,
                binding_views(matches@),
                key,
            ),
    {
        let n = matches.len();
        let last: usize = if n > 0 { n - 1 } else { 0 };
        let ghost shown = binding_views(matches@);
        if key.code == KeyCode::Esc {
            return Some(HelpExit::Close);
        }
        if key.code == KeyCode::Down || (key.code == KeyCode::Char('n') && key.ctrl) {
            self.selected = if self.selected < last { self.selected + 1 } else { last };
            return None;
        }
        if key.code == KeyCode::Up || (key.code == KeyCode::Char('p') && key.ctrl) {
            self.selected = if self.selected > 0 { self.selected - 1 } else { 0 };
            return None;
        }
        let text = self.input.value();
        let searching = !is_blank(text.as_str());
        if searching && (key.code == KeyCode::Tab || (key.code == KeyCode::Char('y') && key.ctrl)) {
            if self.selected < n {
                let b = matches[self.selected];
                assert(shown[self.selected as int] == binding_view(b));
                self.input = TextInput::new(b.desc);
                self.selected = 0;
            }
            return None;
        }
        if key.code == KeyCode::Enter {
            if self.selected < n {
                let b = matches[self.selected];
                assert(shown[self.selected as int] == binding_view(b));
                return Some(HelpExit::Run(b.action));
            }
            return None;
        }
        if self.input.handle(key) {
            self.selected = 0;
        }
        None
    }
}

// ---------------------------------------------------------------------------
// The in-pane fuzzy filter
// ---------------------------------------------------------------------------

/// An fzf-style filter: committed query "tags" (all of which must match)
/// plus a live input while a new one is typed. Opened with `/`.
pub struct FuzzyFilter {
    pub tags: Vec<String>,
    /// `Some` while the search bar is capturing input.
    pub input: Option<TextInput>,
}

/// The query terms in effect: the committed tags, then the live input when
/// it is not blank.
pub open spec fn filter_terms(tags: Seq<String>, input: Option<TextInput>) -> Seq<Seq<char>> {
    match input {
        Some(i) => if trim(i.text()).len() != 0 {
            views(tags).push(i.text())
        } else {
            views(tags)
        },
        None => views(tags),
    }
}

impl FuzzyFilter {
    /// No tags, search bar closed.
    pub fn new() -> (r: Self)
        ensures
            r.tags@.len() == 0,
            r.input is None,
    {
        FuzzyFilter { tags: Vec::new(), input: None }
    }

    /// True while the search bar is open and capturing keys.
    pub fn searching(&self) -> (r: bool)
        ensures
            r == self.input is Some,
    {
        self.input.is_some()
    }

    /// True if anything filters the list (a committed tag or a non-blank live
    /// input).
    pub fn active(&self) -> (r: bool)
        ensures
            r == (self.tags@.len() > 0 || (self.input matches Some(i) && trim(i.text()).len() != 0)),
    {
        if self.tags.len() > 0 {
            return true;
        }
        match &self.input {
            Some(i) => {
                let v = i.value();
                !is_blank(v.as_str())
            },
            None => false,
        }
    }

    /// All query terms in effect (see [`filter_terms`]).
    pub fn terms(&self) -> (r: Vec<String>)
        ensures
            views(r@) == filter_terms(self.tags@, self.input),
    {
        let mut t = crate::api::models::copy_strings(&self.tags);
        match &self.input {
            Some(inp) => {
                let v = inp.value();
                if !is_blank(v.as_str()) {
                    let ghost before = t@;
                    t.push(v);
                    assert(views(t@) =~= views(before).push(inp.text()));
                }
            },
            None => {},
        }
        t
    }

    /// True if `hay` fuzzy-matches every term in effect (AND semantics).
    pub fn matches(&self, hay: &str) -> (r: bool)
        ensures
            r == forall|k: int|
                0 <= k < filter_terms(self.tags@, self.input).len() ==> fuzzy_hit(
                    hay@,
                    #[trigger] filter_terms(self.tags@, self.input)[k],
                ),
    {
        let terms = self.terms();
        let mut k: usize = 0;
        while k < terms.len()
            invariant
                k <= terms@.len(),
                views(terms@) == filter_terms(self.tags@, self.input),
                forall|j: int| 0 <= j < k ==> fuzzy_hit(hay@, #[trigger] views(terms@)[j]),
            decreases terms.len() - k,
        {
            if !crate::ui::fuzzy::matches(hay, terms[k].as_str()) {
                assert(!fuzzy_hit(hay@, views(terms@)[k as int]));
                return false;
            }
            k = k + 1;
        }
        true
    }

    /// Open the search bar (keeping a live input that is already open).
    pub fn open(&mut self)
        ensures
            final(self).tags@ == old(self).tags@,
            match old(self).input {
                Some(i) => final(self).input matches Some(j) && j.text() == i.text() && j.pos() == i.pos(),
                None => final(self).input matches Some(j) && j.text() == Seq::<char>::empty() && j.pos()
                    == 0,
            },
    {
        if self.input.is_none() {
            self.input = Some(TextInput::empty());
        }
    }

    /// Commit the live input (trimmed, when not blank) as a tag and close the
    /// search bar.
    pub fn commit(&mut self)
        ensures
            final(self).input is None,
            views(final(self).tags@) == match old(self).input {
                Some(i) => if trim(i.text()).len() != 0 {
                    views(old(self).tags@).push(trim(i.text()))
                } else {
                    views(old(self).tags@)
                },
                None => views(old(self).tags@),
            },
    {
        let ghost before = self.tags@;
        match &self.input {
            Some(inp) => {
                let v = inp.value();
                let t = trimmed(v.as_str());
                if t.as_str().unicode_len() > 0 {
                    self.tags.push(t);
                    assert(views(self.tags@) =~= views(before).push(trim(inp.text())));
                }
            },
            None => {},
        }
        self.input = None;
    }

    /// Close the search bar, dropping the live input.
    pub fn cancel(&mut self)
        ensures
            final(self).input is None,
            final(self).tags@ == old(self).tags@,
    {
        self.input = None;
    }

    /// True when there is no live input or it is empty.
    pub fn input_is_empty(&self) -> (r: bool)
        ensures
            r == match self.input {
                Some(i) => i.text().len() == 0,
                None => true,
            },
    {
        match &self.input {
            Some(i) => i.value().as_str().unicode_len() == 0,
            None => true,
        }
    }
}

// ---------------------------------------------------------------------------
// Pending edits and the push
// ---------------------------------------------------------------------------

/// An editable field of a work item as display text: tags joined with
/// `", "`, and the description for any other field name.
pub open spec fn field_value_of(w: WorkItem, field: Seq<char>) -> Seq<char> {
    if field == "title"@ {
        w.title@
    } else if field == "state"@ {
        w.state_name@
    } else if field == "assignee"@ {
        w.assigned_to@
    } else if field == "iteration"@ {
        w.iteration@
    } else if field == "tags"@ {
        join(views(w.tags@), ", "@)
    } else if field == "notes"@ {
        w.notes@
    } else {
        w.description@
    }
}

/// Read any editable field of a work item as a display string (see
/// [`field_value_of`]).
pub fn item_field_value(w: &WorkItem, field: &str) -> (r: String)
    ensures
        r@ == field_value_of(*w, field@),
{
    if str_eq(field, "title") {
        w.title.clone()
    } else if str_eq(field, "state") {
        w.state_name.clone()
    } else if str_eq(field, "assignee") {
        w.assigned_to.clone()
    } else if str_eq(field, "iteration") {
        w.iteration.clone()
    } else if str_eq(field, "tags") {
        join_strings(&w.tags, ", ")
    } else if str_eq(field, "notes") {
        w.notes.clone()
    } else {
        w.description.clone()
    }
}

/// A pending edit genuinely diverged on the server: the server moved on
/// (another revision) and its value differs from both the base and the
/// local edit.
pub open spec fn diverged(remote: WorkItem, p: PendingEdit) -> bool {
    let rv = field_value_of(remote, p.field@);
    remote.rev != p.base_rev && rv != p.base@ && rv != p.value@
}

/// The conflicts of `pending` against the server's `remote` item, in order:
/// field, base, local value, server value.
pub open spec fn conflicts_of(remote: WorkItem, pending: Seq<PendingEdit>) -> Seq<
    (Seq<char>, Seq<char>, Seq<char>, Seq<char>),
>
    decreases pending.len(),
{
    if pending.len() == 0 {
        Seq::empty()
    } else {
        let r = conflicts_of(remote, pending.drop_last());
        let p = pending.last();
        if diverged(remote, p) {
            r.push((p.field@, p.base@, p.value@, field_value_of(remote, p.field@)))
        } else {
            r
        }
    }
}

/// The field, base, local and server values of each conflict.
pub open spec fn conflict_views(cs: Seq<FieldConflict>) -> Seq<(Seq<char>, Seq<char>, Seq<char>, Seq<char>)> {
    cs.map_values(|c: FieldConflict| (c.field@, c.base@, c.local@, c.remote@))
}

/// The pending edits that diverged from the server's `remote` item.
pub fn detect_conflicts(remote: &WorkItem, pending: &Vec<PendingEdit>) -> (r: Vec<FieldConflict>)
    ensures
        conflict_views(r@) == conflicts_of(*remote, pending@),
{
    let mut out: Vec<FieldConflict> = Vec::new();
    let mut i: usize = 0;
    while i < pending.len()
        invariant
            i <= pending@.len(),
            conflict_views(out@) == conflicts_of(*remote, pending@.take(i as int)),
        decreases pending.len() - i,
    {
        let p = &pending[i];
        assert(pending@.take(i + 1).drop_last() =~= pending@.take(i as int));
        let remote_val = item_field_value(remote, p.field);
        if remote.rev != p.base_rev && !str_eq(remote_val.as_str(), p.base.as_str()) && !str_eq(
            remote_val.as_str(),
            p.value.as_str(),
        ) {
            let ghost before = out@;
            out.push(
                FieldConflict { field: p.field, base: p.base.clone(), local: p.value.clone(), remote: remote_val },
            );
            assert(conflict_views(out@) =~= conflict_views(before).push(
                (p.field@, p.base@, p.value@, field_value_of(*remote, p.field@)),
            ));
        }
        i = i + 1;
    }
    assert(pending@.take(pending.len() as int) =~= pending@);
    out
}

/// The result of a push.
pub enum PushOutcome {
    /// The server diverged: nothing was uploaded; the edits come back for
    /// resolution.
    Conflicts {
        id: u32,
        conflicts: Vec<FieldConflict>,
        pending: Vec<PendingEdit>,
        comments: Vec<PendingComment>,
    },
    /// Uploaded `total` change(s), `failed` of which errored.
    Done { id: u32, total: usize, failed: usize },
    /// The pre-flight fetch failed; the edits come back to be restored.
    Error { message: String, pending: Vec<PendingEdit>, comments: Vec<PendingComment> },
}

/// A backend write, ready to be made.
pub enum ClientCall {
    /// `update_field(id, field, value)`.
    UpdateField { id: u32, field: &'static str, value: String },
    /// `add_comment(id, author, text)`.
    AddComment { id: u32, author: String, text: String },
    /// `update_comment(id, comment_id, text)`.
    UpdateComment { id: u32, comment_id: u32, text: String },
    /// `delete_comment(id, comment_id)`.
    DeleteComment { id: u32, comment_id: u32 },
}

/// The write a call makes, by its arguments.
pub open spec fn call_view(c: ClientCall) -> CallView {
    match c {
        ClientCall::UpdateField { id, field, value } => CallView::UpdateField(id, field@, value@),
        ClientCall::AddComment { id, author, text } => CallView::AddComment(id, author@, text@),
        ClientCall::UpdateComment { id, comment_id, text } => CallView::UpdateComment(id, comment_id, text@),
        ClientCall::DeleteComment { id, comment_id } => CallView::DeleteComment(id, comment_id),
    }
}

/// The writes of a sequence of calls.
pub open spec fn call_views(cs: Seq<ClientCall>) -> Seq<CallView> {
    cs.map_values(|c: ClientCall| call_view(c))
}

/// The write that uploads a pending comment change of item `id`.
pub open spec fn comment_call(id: u32, c: PendingComment) -> CallView {
    match c {
        PendingComment::Add { author, text } => CallView::AddComment(id, author@, text@),
        PendingComment::Edit { comment_id, text } => CallView::UpdateComment(id, comment_id, text@),
        PendingComment::Delete { comment_id } => CallView::DeleteComment(id, comment_id),
    }
}

/// The writes that upload the changes of item `id`: each pending field edit
/// in order, then each comment change in order.
pub open spec fn plan_of(id: u32, pending: Seq<PendingEdit>, comments: Seq<PendingComment>) -> Seq<CallView> {
    pending.map_values(|p: PendingEdit| CallView::UpdateField(id, p.field@, p.value@)) + comments.map_values(
        |c: PendingComment| comment_call(id, c),
    )
}

/// How many of `oks` are `false`.
pub open spec fn count_false(oks: Seq<bool>) -> nat
    decreases oks.len(),
{
    if oks.len() == 0 {
        0
    } else {
        count_false(oks.drop_last()) + if oks.last() {
            0nat
        } else {
            1nat
        }
    }
}

/// The calls of a write log.
pub open spec fn log_calls(log: Seq<(CallView, bool)>) -> Seq<CallView> {
    log.map_values(|e: (CallView, bool)| e.0)
}

/// The successes of a write log.
pub open spec fn log_oks(log: Seq<(CallView, bool)>) -> Seq<bool> {
    log.map_values(|e: (CallView, bool)| e.1)
}

/// From write log `before` to `after`, exactly the writes of `plan` were
/// made, in order, and `failed` of them failed.
pub open spec fn uploaded(before: Seq<(CallView, bool)>, after: Seq<(CallView, bool)>, plan: Seq<CallView>, failed: nat) -> bool {
    &&& after.len() == before.len() + plan.len()
    &&& after.take(before.len() as int) == before
    &&& log_calls(after.skip(before.len() as int)) == plan
    &&& failed == count_false(log_oks(after.skip(before.len() as int)))
}

/// The writes that upload the changes of item `id` (see [`plan_of`]).
pub fn push_plan(id: u32, pending: &Vec<PendingEdit>, comments: &Vec<PendingComment>) -> (r: Vec<ClientCall>)
    ensures
        call_views(r@) == plan_of(id, pending@, comments@),
{
    let ghost fields = pending@.map_values(|p: PendingEdit| CallView::UpdateField(id, p.field@, p.value@));
    let ghost notes = comments@.map_values(|c: PendingComment| comment_call(id, c));
    let mut out: Vec<ClientCall> = Vec::new();
    let mut i: usize = 0;
    while i < pending.len()
        invariant
            i <= pending@.len(),
            fields == pending@.map_values(|p: PendingEdit| CallView::UpdateField(id, p.field@, p.value@)),
            out@.len() == i,
            call_views(out@) == fields.take(i as int),
        decreases pending.len() - i,
    {
        let p = &pending[i];
        let value = p.value.clone();
        assert(value@ == p.value@);
        let ghost before = out@;
        out.push(ClientCall::UpdateField { id, field: p.field, value });
        assert(out@ == before.push(out@[i as int]));
        assert(call_view(out@[i as int]) == fields[i as int]);
        i = i + 1;
        assert(call_views(out@) =~= fields.take(i as int));
    }
    assert(fields.take(pending.len() as int) =~= fields);
    let mut j: usize = 0;
    while j < comments.len()
        invariant
            j <= comments@.len(),
            fields.len() == pending@.len(),
            notes == comments@.map_values(|c: PendingComment| comment_call(id, c)),
            out@.len() == pending@.len() + j,
            call_views(out@) == fields + notes.take(j as int),
        decreases comments.len() - j,
    {
        let call = match &comments[j] {
            PendingComment::Add { author, text } => ClientCall::AddComment { id, author: author.clone(), text: text.clone() },
            PendingComment::Edit { comment_id, text } => ClientCall::UpdateComment {
                id,
                comment_id: *comment_id,
                text: text.clone(),
            },
            PendingComment::Delete { comment_id } => ClientCall::DeleteComment { id, comment_id: *comment_id },
        };
        assert(call_view(call) == notes[j as int]);
        let ghost before = out@;
        out.push(call);
        assert(out@ == before.push(call));
        assert(call_views(out@) =~= call_views(before).push(call_view(call)));
        assert(notes.take(j + 1) =~= notes.take(j as int).push(notes[j as int]));
        assert(fields + notes.take(j + 1) =~= (fields + notes.take(j as int)).push(notes[j as int]));
        j = j + 1;
    }
    assert(notes.take(comments.len() as int) =~= notes);
    out
}

/// How many of `oks` are `false` (see [`count_false`]).
pub fn tally(oks: &Vec<bool>) -> (r: usize)
    ensures
        r == count_false(oks@),
        r <= oks@.len(),
{
    let mut n: usize = 0;
    let mut i: usize = 0;
    while i < oks.len()
        invariant
            i <= oks@.len(),
            n == count_false(oks@.take(i as int)),
            n <= i,
        decreases oks.len() - i,
    {
        assert(oks@.take(i + 1).drop_last() =~= oks@.take(i as int));
        if !oks[i] {
            n = n + 1;
        }
        i = i + 1;
    }
    assert(oks@.take(oks.len() as int) =~= oks@);
    n
}

/// Make one write and say whether it succeeded.
fn perform<C: WorkItemClient>(client: &mut C, call: &ClientCall) -> (ok: bool)
    ensures
        final(client).writes() == old(client).writes().push((call_view(*call), ok)),
{
    match call {
        ClientCall::UpdateField { id, field, value } => client.update_field(*id, field, value.as_str()).is_ok(),
        ClientCall::AddComment { id, author, text } => client.add_comment(*id, author.as_str(), text.as_str()).is_ok(),
        ClientCall::UpdateComment { id, comment_id, text } => client.update_comment(
            *id,
            *comment_id,
            text.as_str(),
        ).is_ok(),
        ClientCall::DeleteComment { id, comment_id } => client.delete_comment(*id, *comment_id).is_ok(),
    }
}

/// Two items that look the same conflict with the same pending edits.
proof fn lemma_conflicts_same_view(a: WorkItem, b: WorkItem, pending: Seq<PendingEdit>)
    requires
        a@ == b@,
    ensures
        conflicts_of(a, pending) == conflicts_of(b, pending),
    decreases pending.len(),
{
    assert(a.title@ == b.title@ && a.state_name@ == b.state_name@ && a.assigned_to@ == b.assigned_to@);
    assert(a.iteration@ == b.iteration@ && a.notes@ == b.notes@ && a.description@ == b.description@);
    assert(a.tags@ == b.tags@);
    if pending.len() > 0 {
        lemma_conflicts_same_view(a, b, pending.drop_last());
        let f = pending.last().field@;
        assert(field_value_of(a, f) == field_value_of(b, f));
    }
}

/// Push the pending changes of item `id`. Unless `force`, the item is
/// fetched first: a failed fetch stops with its error message, and pending
/// edits that diverged on the server stop with those conflicts; in both cases
/// nothing is written. Otherwise every pending field edit and then every
/// comment change is written in order (see [`plan_of`]), and the outcome
/// counts the writes that failed.
pub fn run_push<C: WorkItemClient>(
    client: &mut C,
    id: u32,
    pending: Vec<PendingEdit>,
    comments: Vec<PendingComment>,
    force: bool,
) -> (r: PushOutcome)
    requires
        pending@.len() + comments@.len() <= usize::MAX,
    ensures
        ({
            let before = old(client).writes();
            let after = final(client).writes();
            let plan = plan_of(id, pending@, comments@);
            let done = r matches PushOutcome::Done { id: rid, total, failed } && rid == id && total == plan.len()
                && failed <= total && uploaded(before, after, plan, failed as nat);
            if force {
                done
            } else {
                match old(client).fetched(id) {
                    Err(m) => r matches PushOutcome::Error { message, pending: p2, comments: c2 } && message@ == m
                        && p2@ == pending@ && c2@ == comments@ && after == before,
                    Ok(remote) => if conflicts_of(remote, pending@).len() > 0 {
                        r matches PushOutcome::Conflicts { id: rid, conflicts, pending: p2, comments: c2 } && rid == id
                            && conflict_views(conflicts@) == conflicts_of(remote, pending@) && p2@ == pending@ && c2@
                            == comments@ && after == before
                    } else {
                        done
                    },
                }
            }
        }),
{
    if !force {
        match client.get(id) {
            Err(e) => {
                return PushOutcome::Error { message: e.message, pending, comments };
            },
            Ok(remote) => {
                let conflicts = detect_conflicts(&remote, &pending);
                proof {
                    match client.fetched(id) {
                        Ok(v) => lemma_conflicts_same_view(remote, v, pending@),
                        Err(_) => {},
                    }
                }
                if conflicts.len() > 0 {
                    return PushOutcome::Conflicts { id, conflicts, pending, comments };
                }
            },
        }
    }
    let plan = push_plan(id, &pending, &comments);
    let ghost want = plan_of(id, pending@, comments@);
    let ghost before = client.writes();
    let mut oks: Vec<bool> = Vec::new();
    let mut i: usize = 0;
    while i < plan.len()
        invariant
            i <= plan@.len(),
            call_views(plan@) == want,
            oks@.len() == i,
            client.writes().len() == before.len() + i,
            client.writes().take(before.len() as int) == before,
            log_calls(client.writes().skip(before.len() as int)) == want.take(i as int),
            log_oks(client.writes().skip(before.len() as int)) == oks@,
        decreases plan.len() - i,
    {
        let ghost w0 = client.writes();
        let ok = perform(client, &plan[i]);
        oks.push(ok);
        i = i + 1;
        proof {
            let w1 = client.writes();
            assert(w1 == w0.push((call_view(plan@[i - 1]), ok)));
            assert(w1.take(before.len() as int) =~= w0.take(before.len() as int));
            assert(w1.skip(before.len() as int) =~= w0.skip(before.len() as int).push((call_view(plan@[i - 1]), ok)));
            assert(log_calls(w1.skip(before.len() as int)) =~= want.take(i as int));
            assert(log_oks(w1.skip(before.len() as int)) =~= oks@);
        }
    }
    assert(want.take(plan.len() as int) =~= want);
    let failed = tally(&oks);
    PushOutcome::Done { id, total: plan.len(), failed }
}

/// What a read gives back after the backend stored a field: the value
/// written, for the plain-text fields and the state; for tags, the written
/// list as stored (split on commas, trimmed, empties dropped) joined back
/// with `", "`.
pub proof fn law_update_then_read(o: WorkItem, n: WorkItem, field: Seq<char>, value: Seq<char>)
    requires
        crate::api::mock::editable_field(field),
        crate::api::mock::field_updated(o, n, field, value),
    ensures
        field == "tags"@ ==> field_value_of(n, field) == join(crate::text::comma_list(value), ", "@),
        field != "tags"@ ==> field_value_of(n, field) == value,
{
    crate::api::mock::lemma_field_names_distinct();
}

/// Edits made against the server's current revision never conflict.
pub proof fn law_same_revision_no_conflict(remote: WorkItem, pending: Seq<PendingEdit>)
    requires
        forall|i: int| 0 <= i < pending.len() ==> (#[trigger] pending[i]).base_rev == remote.rev,
    ensures
        conflicts_of(remote, pending).len() == 0,
    decreases pending.len(),
{
    if pending.len() > 0 {
        assert forall|i: int| 0 <= i < pending.drop_last().len() implies (#[trigger] pending.drop_last()[i]).base_rev
            == remote.rev by {
            assert(pending.drop_last()[i] == pending[i]);
        }
        law_same_revision_no_conflict(remote, pending.drop_last());
    }
}

/// An edit that left the field as it was on the server, or that the server
/// already carries, never conflicts.
pub proof fn law_agreeing_edit_no_conflict(remote: WorkItem, p: PendingEdit)
    requires
        field_value_of(remote, p.field@) == p.base@ || field_value_of(remote, p.field@) == p.value@,
    ensures
        !diverged(remote, p),
{
}


// ---------------------------------------------------------------------------
// Links, labels and the filtered list
// ---------------------------------------------------------------------------

/// `s` without its trailing `c` characters (`trim_end_matches(c)`).
pub open spec fn strip_trailing(s: Seq<char>, c: char) -> Seq<char>
    decreases s.len(),
{
    if s.len() > 0 && s.last() == c {
        strip_trailing(s.drop_last(), c)
    } else {
        s
    }
}

/// The web UI address of work items, up to the id: the organisation (a
/// bare name becomes `https://dev.azure.com/<name>`; a URL is kept, without
/// trailing slashes), then the project with spaces as `%20` when one is set,
/// then `/_workitems/edit/`; `None` without an organisation.
pub open spec fn web_url_prefix_of(org_url: Seq<char>, project: Seq<char>) -> Option<Seq<char>> {
    let org = strip_trailing(trim(org_url), '/');
    if org.len() == 0 {
        None
    } else {
        let base = if has_prefix(org, "http://"@) || has_prefix(org, "https://"@) {
            org
        } else {
            "https://dev.azure.com/"@ + org
        };
        let p = trim(project);
        if p.len() == 0 {
            Some(base + "/_workitems/edit/"@)
        } else {
            Some(base + "/"@ + replace_all(p, " "@, "%20"@) + "/_workitems/edit/"@)
        }
    }
}

/// The web UI address of work item `id` (see [`web_url_prefix_of`]).
pub open spec fn web_url_of(org_url: Seq<char>, project: Seq<char>, id: u32) -> Option<Seq<char>> {
    match web_url_prefix_of(org_url, project) {
        Some(prefix) => Some(prefix + dec(id as nat)),
        None => None,
    }
}

/// The web UI address of work items up to the id (see
/// [`web_url_prefix_of`]), as the HTML report links its nodes.
pub fn work_item_url_prefix(org_url: &str, project: &str) -> (r: Option<String>)
    ensures
        match web_url_prefix_of(org_url@, project@) {
            Some(u) => r matches Some(s) && s@ == u,
            None => r is None,
        },
{
    let t = trimmed(org_url);
    let v = chars_of(t.as_str());
    let mut n = v.len();
    assert(v@.take(v.len() as int) =~= v@);
    while n > 0 && v[n - 1] == '/'
        invariant
            n <= v@.len(),
            strip_trailing(v@.take(n as int), '/') == strip_trailing(v@, '/'),
        decreases n,
    {
        assert(v@.take(n as int).drop_last() =~= v@.take(n - 1));
        n = n - 1;
    }
    assert(v@.take(v.len() as int) =~= v@);
    let mut org_chars: Vec<char> = Vec::new();
    let mut i: usize = 0;
    while i < n
        invariant
            i <= n <= v@.len(),
            org_chars@ == v@.take(i as int),
        decreases n - i,
    {
        org_chars.push(v[i]);
        i = i + 1;
        assert(org_chars@ =~= v@.take(i as int));
    }
    let org = string_of(&org_chars);
    if org.as_str().unicode_len() == 0 {
        return None;
    }
    let mut url = if starts_with(org.as_str(), "http://") || starts_with(org.as_str(), "https://") {
        org
    } else {
        let mut b = owned("https://dev.azure.com/");
        b.append(org.as_str());
        b
    };
    let p = trimmed(project);
    if p.as_str().unicode_len() == 0 {
        url.append("/_workitems/edit/");
    } else {
        url.append("/");
        let enc = replace_str(p.as_str(), " ", "%20");
        url.append(enc.as_str());
        url.append("/_workitems/edit/");
    }
    Some(url)
}


/// Browser URL for a work item in the Azure DevOps web UI (see
/// [`web_url_of`]).
pub fn work_item_web_url(org_url: &str, project: &str, id: u32) -> (r: Option<String>)
    ensures
        match web_url_of(org_url@, project@, id) {
            Some(u) => r matches Some(s) && s@ == u,
            None => r is None,
        },
{
    match work_item_url_prefix(org_url, project) {
        Some(mut url) => {
            push_dec(&mut url, id as u64);
            Some(url)
        },
        None => None,
    }
}

/// The last segment of an iteration path (after the last `\` or `/`).
pub open spec fn last_segment(path: Seq<char>) -> Seq<char>
    decreases path.len(),
{
    if path.len() == 0 {
        path
    } else if path.last() == '\\' || path.last() == '/' {
        Seq::empty()
    } else {
        last_segment(path.drop_last()).push(path.last())
    }
}

/// Position of the first iteration whose path is `path`.
pub open spec fn iteration_with_path(its: Seq<Iteration>, path: Seq<char>) -> Option<int>
    decreases its.len(),
{
    if its.len() == 0 {
        None
    } else if its[0].path@ == path {
        Some(0)
    } else {
        match iteration_with_path(its.drop_first(), path) {
            Some(i) => Some(i + 1),
            None => None,
        }
    }
}

/// Status-bar label of the iteration filter: all, the one sprint's name
/// (from the known iterations, else the path's last segment), or a count.
pub open spec fn iteration_label_of(selected: Seq<Seq<char>>, its: Seq<Iteration>) -> Seq<char> {
    if selected.len() == 0 {
        "iter:all"@
    } else if selected.len() == 1 {
        "iter:"@ + match iteration_with_path(its, selected[0]) {
            Some(i) => its[i].name@,
            None => last_segment(selected[0]),
        }
    } else {
        "iter:"@ + dec(selected.len()) + " sprints"@
    }
}

/// Status-bar label of the type filter.
pub open spec fn type_label_of(types: Seq<Seq<char>>) -> Seq<char> {
    if types.len() == 0 {
        "type:all"@
    } else if types.len() == 1 {
        "type:"@ + types[0]
    } else {
        "type:"@ + dec(types.len()) + " types"@
    }
}

proof fn lemma_iteration_with_path(its: Seq<Iteration>, path: Seq<char>, i: int)
    requires
        0 <= i <= its.len(),
        forall|j: int| 0 <= j < i ==> (#[trigger] its[j]).path@ != path,
    ensures
        i < its.len() && its[i].path@ == path ==> iteration_with_path(its, path) == Some(i),
        i == its.len() ==> iteration_with_path(its, path) is None,
    decreases i,
{
    if i > 0 {
        let t = its.drop_first();
        assert forall|j: int| 0 <= j < i - 1 implies (#[trigger] t[j]).path@ != path by {
            assert(t[j] == its[j + 1]);
        }
        lemma_iteration_with_path(t, path, i - 1);
    }
}

/// The part of `path` after its last `\` or `/`.
fn last_segment_of(path: &str) -> (r: String)
    ensures
        r@ == last_segment(path@),
{
    let v = chars_of(path);
    let mut start: usize = v.len();
    assert(v@.take(v.len() as int) =~= v@);
    assert(v@ + v@.skip(v.len() as int) =~= v@);
    while start > 0 && v[start - 1] != '\\' && v[start - 1] != '/'
        invariant
            start <= v@.len(),
            last_segment(v@) == last_segment(v@.take(start as int)) + v@.skip(start as int),
        decreases start,
    {
        assert(v@.take(start as int).drop_last() =~= v@.take(start - 1));
        assert(v@.skip(start - 1) =~= seq![v@[start - 1]] + v@.skip(start as int));
        assert(last_segment(v@.take(start as int)) == last_segment(v@.take(start - 1)).push(v@[start - 1]));
        assert(last_segment(v@.take(start - 1)).push(v@[start - 1]) + v@.skip(start as int) =~= last_segment(
            v@.take(start - 1),
        ) + v@.skip(start - 1));
        start = start - 1;
    }
    assert(last_segment(v@.take(start as int)) =~= Seq::<char>::empty()) by {
        if start > 0 {
            assert(v@.take(start as int).last() == v@[start - 1]);
        }
    }
    let mut out: Vec<char> = Vec::new();
    let mut i: usize = start;
    while i < v.len()
        invariant
            start <= i <= v@.len(),
            out@ == v@.subrange(start as int, i as int),
        decreases v.len() - i,
    {
        out.push(v[i]);
        i = i + 1;
        assert(out@ =~= v@.subrange(start as int, i as int));
    }
    assert(out@ =~= v@.skip(start as int));
    assert(last_segment(v@) =~= out@);
    string_of(&out)
}

/// Short status-bar label summarising the iteration filter.
pub fn iteration_filter_label(selected: &Vec<String>, iterations: &Vec<Iteration>) -> (r: String)
    ensures
        r@ == iteration_label_of(views(selected@), iterations@),
{
    let n = selected.len();
    if n == 0 {
        return owned("iter:all");
    }
    if n == 1 {
        let path = selected[0].as_str();
        let mut k: usize = 0;
        while k < iterations.len() && !str_eq(iterations[k].path.as_str(), path)
            invariant
                k <= iterations@.len(),
                forall|j: int| 0 <= j < k ==> (#[trigger] iterations@[j]).path@ != path@,
            decreases iterations.len() - k,
        {
            k = k + 1;
        }
        proof {
            lemma_iteration_with_path(iterations@, path@, k as int);
        }
        let mut s = owned("iter:");
        if k < iterations.len() {
            s.append(iterations[k].name.as_str());
        } else {
            let seg = last_segment_of(path);
            s.append(seg.as_str());
        }
        return s;
    }
    let mut s = owned("iter:");
    push_dec(&mut s, n as u64);
    s.append(" sprints");
    s
}

/// The status-bar label of the time filter: the iteration filter when
/// sprints are selected (the two are mutually exclusive), else the window.
pub fn time_filter_label(selected: &Vec<String>, iterations: &Vec<Iteration>, timeframe: Timeframe) -> (r:
    String)
    ensures
        r@ == if selected@.len() > 0 {
            iteration_label_of(views(selected@), iterations@)
        } else {
            "tf:"@ + timeframe_label(timeframe)
        },
{
    if selected.len() > 0 {
        iteration_filter_label(selected, iterations)
    } else {
        let mut s = owned("tf:");
        let l = timeframe.label();
        s.append(l.as_str());
        s
    }
}

/// Short status-bar label summarising the type filter.
pub fn type_filter_label(types: &Vec<String>) -> (r: String)
    ensures
        r@ == type_label_of(views(types@)),
{
    let n = types.len();
    if n == 0 {
        owned("type:all")
    } else if n == 1 {
        let mut s = owned("type:");
        s.append(types[0].as_str());
        s
    } else {
        let mut s = owned("type:");
        push_dec(&mut s, n as u64);
        s.append(" types");
        s
    }
}

/// The text a work item is fuzzy-matched against: `#id type title tags`.
pub open spec fn haystack_of(w: WorkItem) -> Seq<char> {
    "#"@ + dec(w.id as nat) + " "@ + w.item_type@ + " "@ + w.title@ + " "@ + join(views(w.tags@), " "@)
}

/// The text a work item is fuzzy-matched against (see [`haystack_of`]).
pub fn item_haystack(w: &WorkItem) -> (r: String)
    ensures
        r@ == haystack_of(*w),
{
    let mut s = owned("#");
    push_dec(&mut s, w.id as u64);
    s.append(" ");
    s.append(w.item_type.as_str());
    s.append(" ");
    s.append(w.title.as_str());
    s.append(" ");
    let t = join_strings(&w.tags, " ");
    s.append(t.as_str());
    s
}

/// The items that pass filter `f`: each term must fuzzy-match the item's
/// haystack.
pub open spec fn passes(f: FuzzyFilter, w: WorkItem) -> bool {
    forall|k: int|
        0 <= k < filter_terms(f.tags@, f.input).len() ==> fuzzy_hit(
            haystack_of(w),
            #[trigger] filter_terms(f.tags@, f.input)[k],
        )
}

/// The filter is in effect (a committed tag or a non-blank live input).
pub open spec fn filter_on(f: FuzzyFilter) -> bool {
    f.tags@.len() > 0 || (f.input matches Some(i) && trim(i.text()).len() != 0)
}

/// The positions of the items of `items` that show in a pane with filter
/// `f`, in order (every position when no filter is in effect).
pub open spec fn visible_of(items: Seq<WorkItem>, f: FuzzyFilter) -> Seq<usize>
    decreases items.len(),
{
    if items.len() == 0 {
        Seq::empty()
    } else {
        let r = visible_of(items.drop_last(), f);
        if !filter_on(f) || passes(f, items.last()) {
            r.push((items.len() - 1) as usize)
        } else {
            r
        }
    }
}

/// Indices into `items` of the items that pass the pane's fuzzy filter, in
/// order (all of them when no filter is in effect).
pub fn visible_item_indices(items: &Vec<WorkItem>, filter: &FuzzyFilter) -> (r: Vec<usize>)
    ensures
        r@ == visible_of(items@, *filter),
{
    let active = filter.active();
    let mut out: Vec<usize> = Vec::new();
    let mut i: usize = 0;
    while i < items.len()
        invariant
            i <= items@.len(),
            active == filter_on(*filter),
            out@ == visible_of(items@.take(i as int), *filter),
        decreases items.len() - i,
    {
        let keep = if !active {
            true
        } else {
            let h = item_haystack(&items[i]);
            filter.matches(h.as_str())
        };
        assert(items@.take(i + 1).drop_last() =~= items@.take(i as int));
        assert(keep == (!filter_on(*filter) || passes(*filter, items@[i as int])));
        if keep {
            out.push(i);
        }
        i = i + 1;
    }
    assert(items@.take(items.len() as int) =~= items@);
    out
}

/// A list selection kept within `n` rows: none for an empty list, else the
/// old position (the top when there was none) clamped to the last row.
pub open spec fn clamp_sel(sel: Option<usize>, n: nat) -> Option<usize> {
    if n == 0 {
        None
    } else {
        let p = match sel {
            Some(p) => p as int,
            None => 0,
        };
        Some((if p <= n - 1 { p } else { n - 1 }) as usize)
    }
}

/// Keep a list selection within `n` rows (see [`clamp_sel`]).
pub fn clamp_selection(sel: Option<usize>, n: usize) -> (r: Option<usize>)
    ensures
        r == clamp_sel(sel, n as nat),
{
    if n == 0 {
        None
    } else {
        let p = match sel {
            Some(p) => p,
            None => 0,
        };
        Some(if p <= n - 1 { p } else { n - 1 })
    }
}

/// `x` clamped into `[lo, hi]`.
pub open spec fn clamp_int(x: int, lo: int, hi: int) -> int {
    if x < lo {
        lo
    } else if x > hi {
        hi
    } else {
        x
    }
}

/// Position `cur` moved by `delta`, kept within `n > 0` rows.
pub fn step_within(cur: usize, delta: isize, n: usize) -> (r: usize)
    requires
        n > 0,
    ensures
        r == clamp_int(cur + delta, 0, n - 1),
{
    let x: i128 = cur as i128 + delta as i128;
    let hi: i128 = n as i128 - 1;
    if x < 0 {
        0
    } else if x > hi {
        n - 1
    } else {
        x as usize
    }
}

/// Row `target` kept within `n > 0` rows.
pub fn target_within(target: isize, n: usize) -> (r: usize)
    requires
        n > 0,
    ensures
        r == clamp_int(target as int, 0, n - 1),
{
    if target < 0 {
        0
    } else if target as i128 > n as i128 - 1 {
        n - 1
    } else {
        target as usize
    }
}

/// Position `cur` moved by `delta` around a cycle of `n > 0` entries.
pub fn cycle_within(cur: usize, delta: isize, n: usize) -> (r: usize)
    requires
        n > 0,
    ensures
        r == (cur + delta) % (n as int),
        r < n,
{
    let m: i128 = n as i128;
    let x: i128 = cur as i128 + delta as i128;
    let y: i128 = if x >= 0 {
        x % m
    } else {
        let k: i128 = (0 - x) % m;
        if k == 0 {
            0
        } else {
            m - k
        }
    };
    proof {
        let xi = x as int;
        let mi = m as int;
        if xi < 0 {
            let k = (-xi) % mi;
            assert(0 <= k < mi);
            let q = (-xi) / mi;
            assert(-xi == q * mi + k) by (nonlinear_arith)
                requires
                    mi > 0,
                    q == (-xi) / mi,
                    k == (-xi) % mi,
            ;
            if k == 0 {
                assert(xi == (-q) * mi) by (nonlinear_arith)
                    requires
                        -xi == q * mi + k,
                        k == 0,
                ;
                vstd::arithmetic::div_mod::lemma_mod_multiples_basic(-q, mi);
            } else {
                assert(xi == (-q - 1) * mi + (mi - k)) by (nonlinear_arith)
                    requires
                        -xi == q * mi + k,
                ;
                vstd::arithmetic::div_mod::lemma_mod_multiples_vanish(-q - 1, mi - k, mi);
                vstd::arithmetic::div_mod::lemma_small_mod((mi - k) as nat, mi as nat);
            }
        }
    }
    y as usize
}


// ---------------------------------------------------------------------------
// Pending edits, comment changes, live-feed markers and resolutions
// ---------------------------------------------------------------------------

/// The field, base, base revision and value of each pending edit.
pub open spec fn pending_views(ps: Seq<PendingEdit>) -> Seq<(Seq<char>, Seq<char>, u32, Seq<char>)> {
    ps.map_values(|p: PendingEdit| (p.field@, p.base@, p.base_rev, p.value@))
}

/// Position of the first pending edit of `field`.
pub open spec fn first_pending(ps: Seq<(Seq<char>, Seq<char>, u32, Seq<char>)>, field: Seq<char>) -> Option<int>
    decreases ps.len(),
{
    if ps.len() == 0 {
        None
    } else if ps[0].0 == field {
        Some(0)
    } else {
        match first_pending(ps.drop_first(), field) {
            Some(i) => Some(i + 1),
            None => None,
        }
    }
}

pub proof fn lemma_first_pending(ps: Seq<(Seq<char>, Seq<char>, u32, Seq<char>)>, field: Seq<char>, i: int)
    requires
        0 <= i <= ps.len(),
        forall|j: int| 0 <= j < i ==> (#[trigger] ps[j]).0 != field,
    ensures
        i < ps.len() && ps[i].0 == field ==> first_pending(ps, field) == Some(i),
        i == ps.len() ==> first_pending(ps, field) is None,
    decreases i,
{
    if i > 0 {
        let t = ps.drop_first();
        assert forall|j: int| 0 <= j < i - 1 implies (#[trigger] t[j]).0 != field by {
            assert(t[j] == ps[j + 1]);
        }
        lemma_first_pending(t, field, i - 1);
    }
}

/// Pending edits of another field than `field`.
pub open spec fn other_field(field: Seq<char>) -> spec_fn((Seq<char>, Seq<char>, u32, Seq<char>)) -> bool {
    |p: (Seq<char>, Seq<char>, u32, Seq<char>)| p.0 != field
}

/// The pending edits after recording `value` for `field` of the open item
/// `item`: an edit back to the server value drops the field's pending edit;
/// otherwise the field's edit takes the new value, or a new edit is added
/// with the server value and revision as its base.
pub open spec fn pending_after(
    ps: Seq<(Seq<char>, Seq<char>, u32, Seq<char>)>,
    item: WorkItem,
    field: Seq<char>,
    value: Seq<char>,
) -> Seq<(Seq<char>, Seq<char>, u32, Seq<char>)> {
    let base = field_value_of(item, field);
    if value == base {
        ps.filter(other_field(field))
    } else {
        match first_pending(ps, field) {
            Some(i) => ps.update(i, (ps[i].0, ps[i].1, ps[i].2, value)),
            None => ps.push((field, base, item.rev, value)),
        }
    }
}

/// Record a local edit of `field` without pushing it (see
/// [`pending_after`]); returns false when the value equals the server's.
pub fn set_pending(pending: &mut Vec<PendingEdit>, item: &WorkItem, field: &'static str, value: String) -> (r:
    bool)
    ensures
        pending_views(final(pending)@) == pending_after(pending_views(old(pending)@), *item, field@, value@),
        r == (value@ != field_value_of(*item, field@)),
{
    let base = item_field_value(item, field);
    let ghost ps = pending_views(pending@);
    if str_eq(value.as_str(), base.as_str()) {
        let mut kept: Vec<PendingEdit> = Vec::new();
        let mut old_p: Vec<PendingEdit> = Vec::new();
        std::mem::swap(&mut old_p, pending);
        let mut i: usize = 0;
        while i < old_p.len()
            invariant
                i <= old_p@.len(),
                pending_views(old_p@) == ps,
                pending_views(kept@) == ps.take(i as int).filter(
                    other_field(field@),
                ),
            decreases old_p.len() - i,
        {
            proof {
                reveal(Seq::filter);
                assert(ps.take(i + 1).drop_last() =~= ps.take(i as int));
            }
            let e = &old_p[i];
            if !str_eq(e.field, field) {
                let ghost before = pending_views(kept@);
                kept.push(PendingEdit { field: e.field, base: e.base.clone(), base_rev: e.base_rev, value: e.value.clone() });
                assert(pending_views(kept@) =~= before.push(ps[i as int]));
            }
            i = i + 1;
        }
        assert(ps.take(old_p.len() as int) =~= ps);
        *pending = kept;
        return false;
    }
    let mut k: usize = 0;
    while k < pending.len() && !str_eq(pending[k].field, field)
        invariant
            k <= pending@.len(),
            ps == pending_views(pending@),
            forall|j: int| 0 <= j < k ==> (#[trigger] ps[j]).0 != field@,
        decreases pending.len() - k,
    {
        k = k + 1;
    }
    proof {
        lemma_first_pending(ps, field@, k as int);
    }
    if k < pending.len() {
        let e = pending.remove(k);
        pending.insert(k, PendingEdit { field: e.field, base: e.base, base_rev: e.base_rev, value });
        assert(pending_views(pending@) =~= ps.update(k as int, (ps[k as int].0, ps[k as int].1, ps[k as int].2, value@)));
    } else {
        pending.push(PendingEdit { field, base, base_rev: item.rev, value });
        assert(pending_views(pending@) =~= ps.push((field@, field_value_of(*item, field@), item.rev, value@)));
    }
    true
}

/// The value the user sees for `field`: the first pending edit's value, else
/// the open item's value (empty without an open item).
pub open spec fn effective_of(ps: Seq<(Seq<char>, Seq<char>, u32, Seq<char>)>, current: Option<WorkItem>, field: Seq<char>) -> Seq<char> {
    match first_pending(ps, field) {
        Some(i) => ps[i].3,
        None => match current {
            Some(w) => field_value_of(w, field),
            None => Seq::empty(),
        },
    }
}

/// The value the user sees for `field` (see [`effective_of`]).
pub fn effective_field_value(pending: &Vec<PendingEdit>, current: &Option<WorkItem>, field: &str) -> (r: String)
    ensures
        r@ == effective_of(pending_views(pending@), *current, field@),
{
    let ghost ps = pending_views(pending@);
    let mut k: usize = 0;
    while k < pending.len() && !str_eq(pending[k].field, field)
        invariant
            k <= pending@.len(),
            ps == pending_views(pending@),
            forall|j: int| 0 <= j < k ==> (#[trigger] ps[j]).0 != field@,
        decreases pending.len() - k,
    {
        k = k + 1;
    }
    proof {
        lemma_first_pending(ps, field@, k as int);
    }
    if k < pending.len() {
        return pending[k].value.clone();
    }
    match current {
        Some(w) => item_field_value(w, field),
        None => String::new(),
    }
}

/// The key of the editable field named `field`.
pub fn static_field_key(field: &str) -> (r: Option<&'static str>)
    ensures
        match r {
            Some(k) => k@ == field@ && exists|i: int| 0 <= i < editable_table().len() && #[trigger] editable_table()[i].0 == field@,
            None => forall|i: int| 0 <= i < editable_table().len() ==> #[trigger] editable_table()[i].0 != field@,
        },
{
    let fields = editable_fields();
    let mut i: usize = 0;
    while i < fields.len()
        invariant
            i <= fields@.len(),
            fields@.len() == editable_table().len(),
            forall|k: int| 0 <= k < fields@.len() ==> (#[trigger] fields@[k]).key@ == editable_table()[k].0,
            forall|k: int| 0 <= k < i ==> #[trigger] editable_table()[k].0 != field@,
        decreases fields.len() - i,
    {
        if str_eq(fields[i].key, field) {
            assert(editable_table()[i as int].0 == field@);
            return Some(fields[i].key);
        }
        i = i + 1;
    }
    None
}

/// The text of the last pending edit of comment `id`, if any.
pub open spec fn comment_edit_of(cs: Seq<PendingComment>, id: u32) -> Option<Seq<char>>
    decreases cs.len(),
{
    if cs.len() == 0 {
        None
    } else {
        match cs.last() {
            PendingComment::Edit { comment_id, text } => if comment_id == id {
                Some(text@)
            } else {
                comment_edit_of(cs.drop_last(), id)
            },
            _ => comment_edit_of(cs.drop_last(), id),
        }
    }
}

/// Overlay text for an existing comment with an un-pushed local edit (the
/// latest one).
pub fn pending_comment_edit(cs: &Vec<PendingComment>, id: u32) -> (r: Option<String>)
    ensures
        match comment_edit_of(cs@, id) {
            Some(t) => r matches Some(s) && s@ == t,
            None => r is None,
        },
{
    let mut i: usize = cs.len();
    assert(cs@.take(i as int) =~= cs@);
    while i > 0
        invariant
            i <= cs@.len(),
            comment_edit_of(cs@, id) == comment_edit_of(cs@.take(i as int), id),
        decreases i,
    {
        assert(cs@.take(i as int).drop_last() =~= cs@.take(i - 1));
        match &cs[i - 1] {
            PendingComment::Edit { comment_id, text } => {
                if *comment_id == id {
                    return Some(text.clone());
                }
            },
            _ => {},
        }
        i = i - 1;
    }
    None
}

/// The author and text of each newly added comment, in order.
pub open spec fn added_comments_of(cs: Seq<PendingComment>) -> Seq<(Seq<char>, Seq<char>)>
    decreases cs.len(),
{
    if cs.len() == 0 {
        Seq::empty()
    } else {
        match cs.last() {
            PendingComment::Add { author, text } => added_comments_of(cs.drop_last()).push((author@, text@)),
            _ => added_comments_of(cs.drop_last()),
        }
    }
}

/// Un-pushed, newly added comments (author, text).
pub fn pending_added_comments(cs: &Vec<PendingComment>) -> (r: Vec<(String, String)>)
    ensures
        r@.map_values(|p: (String, String)| (p.0@, p.1@)) == added_comments_of(cs@),
{
    let mut out: Vec<(String, String)> = Vec::new();
    let mut i: usize = 0;
    while i < cs.len()
        invariant
            i <= cs@.len(),
            out@.map_values(|p: (String, String)| (p.0@, p.1@)) == added_comments_of(cs@.take(i as int)),
        decreases cs.len() - i,
    {
        assert(cs@.take(i + 1).drop_last() =~= cs@.take(i as int));
        match &cs[i] {
            PendingComment::Add { author, text } => {
                let ghost before = out@;
                out.push((author.clone(), text.clone()));
                assert(out@.map_values(|p: (String, String)| (p.0@, p.1@)) =~= before.map_values(
                    |p: (String, String)| (p.0@, p.1@),
                ).push((author@, text@)));
            },
            _ => {},
        }
        i = i + 1;
    }
    assert(cs@.take(cs.len() as int) =~= cs@);
    out
}

/// Comment `id` is marked for deletion.
pub open spec fn delete_pending(cs: Seq<PendingComment>, id: u32) -> bool {
    exists|i: int| 0 <= i < cs.len() && ((#[trigger] cs[i]) matches PendingComment::Delete { comment_id } && comment_id == id)
}

/// Whether comment `id` is marked for deletion on the next push.
pub fn pending_comment_deleted(cs: &Vec<PendingComment>, id: u32) -> (r: bool)
    ensures
        r == delete_pending(cs@, id),
{
    let mut i: usize = 0;
    while i < cs.len()
        invariant
            i <= cs@.len(),
            forall|j: int| 0 <= j < i ==> !((#[trigger] cs@[j]) matches PendingComment::Delete { comment_id } && comment_id == id),
        decreases cs.len() - i,
    {
        match &cs[i] {
            PendingComment::Delete { comment_id } => {
                if *comment_id == id {
                    return true;
                }
            },
            _ => {},
        }
        i = i + 1;
    }
    false
}

/// The change does not concern comment `id` as a deletion (`del`) or as an
/// edit (`!del`).
pub open spec fn other_than(c: PendingComment, id: u32, del: bool) -> bool {
    if del {
        !(c matches PendingComment::Delete { comment_id } && comment_id == id)
    } else {
        !(c matches PendingComment::Edit { comment_id, .. } && comment_id == id)
    }
}

/// The changes of `cs` other than those of comment `id` of one kind.
pub open spec fn without_changes(cs: Seq<PendingComment>, id: u32, del: bool) -> Seq<PendingComment>
    decreases cs.len(),
{
    if cs.len() == 0 {
        Seq::empty()
    } else if other_than(cs.last(), id, del) {
        without_changes(cs.drop_last(), id, del).push(cs.last())
    } else {
        without_changes(cs.drop_last(), id, del)
    }
}

/// The changes of `cs` without those of comment `id` of one kind.
fn drop_changes(cs: Vec<PendingComment>, id: u32, del: bool) -> (r: Vec<PendingComment>)
    ensures
        r@ == without_changes(cs@, id, del),
{
    let ghost all = cs@;
    let mut rest = cs;
    let mut out: Vec<PendingComment> = Vec::new();
    let ghost mut done: Seq<PendingComment> = Seq::empty();
    while rest.len() > 0
        invariant
            all == done + rest@,
            out@ == without_changes(done, id, del),
        decreases rest.len(),
    {
        let c = rest.remove(0);
        let keep = match &c {
            PendingComment::Delete { comment_id } => !(del && *comment_id == id),
            PendingComment::Edit { comment_id, .. } => !(!del && *comment_id == id),
            PendingComment::Add { .. } => true,
        };
        proof {
            assert(done.push(c).drop_last() =~= done);
            assert(all =~= done.push(c) + rest@);
            done = done.push(c);
        }
        if keep {
            out.push(c);
        }
    }
    assert(done =~= all);
    out
}

/// Toggle the deletion mark of comment `id`: a marked comment is unmarked;
/// otherwise its pending edits are discarded and it is marked. Returns
/// whether the comment is now marked.
pub fn toggle_comment_delete(cs: &mut Vec<PendingComment>, id: u32) -> (marked: bool)
    ensures
        marked == !delete_pending(old(cs)@, id),
        marked ==> final(cs)@ == without_changes(old(cs)@, id, false).push(
            PendingComment::Delete { comment_id: id },
        ),
        !marked ==> final(cs)@ == without_changes(old(cs)@, id, true),
{
    let was = pending_comment_deleted(cs, id);
    let mut current: Vec<PendingComment> = Vec::new();
    std::mem::swap(&mut current, cs);
    if was {
        *cs = drop_changes(current, id, true);
        false
    } else {
        let mut kept = drop_changes(current, id, false);
        kept.push(PendingComment::Delete { comment_id: id });
        *cs = kept;
        true
    }
}

proof fn lemma_first_pending_none(ps: Seq<(Seq<char>, Seq<char>, u32, Seq<char>)>, field: Seq<char>)
    requires
        forall|i: int| 0 <= i < ps.len() ==> (#[trigger] ps[i]).0 != field,
    ensures
        first_pending(ps, field) is None,
{
    lemma_first_pending(ps, field, ps.len() as int);
}

proof fn lemma_first_pending_absent(ps: Seq<(Seq<char>, Seq<char>, u32, Seq<char>)>, field: Seq<char>)
    requires
        first_pending(ps, field) is None,
    ensures
        forall|j: int| 0 <= j < ps.len() ==> (#[trigger] ps[j]).0 != field,
    decreases ps.len(),
{
    if ps.len() > 0 {
        let t = ps.drop_first();
        lemma_first_pending_absent(t, field);
        assert forall|j: int| 0 <= j < ps.len() implies (#[trigger] ps[j]).0 != field by {
            if j > 0 {
                assert(ps[j] == t[j - 1]);
            }
        }
    }
}

proof fn lemma_first_pending_bounds(ps: Seq<(Seq<char>, Seq<char>, u32, Seq<char>)>, field: Seq<char>)
    ensures
        first_pending(ps, field) matches Some(i) ==> 0 <= i < ps.len() && ps[i].0 == field && forall|j: int|
            0 <= j < i ==> (#[trigger] ps[j]).0 != field,
    decreases ps.len(),
{
    if ps.len() > 0 && ps[0].0 != field {
        let t = ps.drop_first();
        lemma_first_pending_bounds(t, field);
        if let Some(i) = first_pending(t, field) {
            assert forall|j: int| 0 <= j < i + 1 implies (#[trigger] ps[j]).0 != field by {
                if j > 0 {
                    assert(ps[j] == t[j - 1]);
                }
            }
        }
    }
}

/// What the user sees of a field after recording an edit of it is the value
/// written; an edit back to the server value leaves no pending edit of the
/// field.
pub proof fn law_set_then_read(
    ps: Seq<(Seq<char>, Seq<char>, u32, Seq<char>)>,
    item: WorkItem,
    field: Seq<char>,
    value: Seq<char>,
)
    ensures
        effective_of(pending_after(ps, item, field, value), Some(item), field) == value,
        value == field_value_of(item, field) ==> first_pending(pending_after(ps, item, field, value), field) is None,
{
    let after = pending_after(ps, item, field, value);
    lemma_first_pending_bounds(ps, field);
    if value == field_value_of(item, field) {
        assert forall|j: int| 0 <= j < after.len() implies (#[trigger] after[j]).0 != field by {
            ps.lemma_filter_pred(other_field(field), j);
        }
        lemma_first_pending_none(after, field);
    } else {
        match first_pending(ps, field) {
            Some(i) => {
                assert forall|j: int| 0 <= j < i implies (#[trigger] after[j]).0 != field by {
                    assert(after[j] == ps[j]);
                }
                lemma_first_pending(after, field, i);
            },
            None => {
                lemma_first_pending_absent(ps, field);
                assert forall|j: int| 0 <= j < ps.len() implies (#[trigger] after[j]).0 != field by {
                    assert(after[j] == ps[j]);
                }
                lemma_first_pending(after, field, ps.len() as int);
            },
        }
    }
}

/// Dropping deletions of comment `id` leaves a list with none of them
/// unchanged.
proof fn lemma_no_delete_kept(cs: Seq<PendingComment>, id: u32)
    requires
        !delete_pending(cs, id),
    ensures
        without_changes(cs, id, true) == cs,
    decreases cs.len(),
{
    if cs.len() > 0 {
        let t = cs.drop_last();
        assert(!delete_pending(t, id)) by {
            if delete_pending(t, id) {
                let i = choose|i: int| 0 <= i < t.len() && ((#[trigger] t[i]) matches PendingComment::Delete { comment_id } && comment_id == id);
                assert(cs[i] == t[i]);
            }
        }
        lemma_no_delete_kept(t, id);
        assert(other_than(cs.last(), id, true)) by {
            if !other_than(cs.last(), id, true) {
                assert(cs[cs.len() - 1] == cs.last());
            }
        }
        assert(t.push(cs.last()) =~= cs);
    }
}

/// Dropping edits of comment `id` never adds a deletion of it.
proof fn lemma_drop_edits_keeps_no_delete(cs: Seq<PendingComment>, id: u32)
    requires
        !delete_pending(cs, id),
    ensures
        !delete_pending(without_changes(cs, id, false), id),
    decreases cs.len(),
{
    if cs.len() > 0 {
        let t = cs.drop_last();
        assert(!delete_pending(t, id)) by {
            if delete_pending(t, id) {
                let i = choose|i: int| 0 <= i < t.len() && ((#[trigger] t[i]) matches PendingComment::Delete { comment_id } && comment_id == id);
                assert(cs[i] == t[i]);
            }
        }
        lemma_drop_edits_keeps_no_delete(t, id);
        let r = without_changes(t, id, false);
        if other_than(cs.last(), id, false) {
            assert(!(cs.last() matches PendingComment::Delete { comment_id } && comment_id == id)) by {
                assert(cs[cs.len() - 1] == cs.last());
            }
            assert(!delete_pending(r.push(cs.last()), id)) by {
                if delete_pending(r.push(cs.last()), id) {
                    let i = choose|i: int| 0 <= i < r.push(cs.last()).len() && ((#[trigger] r.push(cs.last())[i]) matches PendingComment::Delete { comment_id } && comment_id == id);
                    if i < r.len() {
                        assert(r.push(cs.last())[i] == r[i]);
                    }
                }
            }
        }
    }
}

/// Marking a comment for deletion and unmarking it again leaves the
/// comment changes as they were, less that comment's pending edits (which a
/// deletion supersedes).
pub proof fn law_delete_toggle_twice(cs: Seq<PendingComment>, id: u32)
    requires
        !delete_pending(cs, id),
    ensures
        delete_pending(without_changes(cs, id, false).push(PendingComment::Delete { comment_id: id }), id),
        without_changes(without_changes(cs, id, false).push(PendingComment::Delete { comment_id: id }), id, true)
            == without_changes(cs, id, false),
{
    let kept = without_changes(cs, id, false);
    let marked = kept.push(PendingComment::Delete { comment_id: id });
    assert(marked[marked.len() - 1] == PendingComment::Delete { comment_id: id });
    assert(marked.drop_last() =~= kept);
    lemma_drop_edits_keeps_no_delete(cs, id);
    lemma_no_delete_kept(kept, id);
}

/// `l` then `h` (or `h` then `l`) in the Detail view returns to the same
/// pane, and five steps go all the way round.
pub proof fn law_focus_steps_invert(f: DetailFocus)
    ensures
        focus_order()[(focus_index(focus_order()[(focus_index(f) + 1) % 5]) - 1) % 5] == f,
        focus_order()[(focus_index(focus_order()[(focus_index(f) - 1) % 5]) + 1) % 5] == f,
        focus_order()[(focus_index(f) + 5) % 5] == f,
{
}


/// What a work item is searched by: its id (as `#id`), its type, its title
/// and every one of its tags each occur in its haystack.
pub proof fn law_haystack_holds_item_text(w: WorkItem)
    ensures
        occurs_at(haystack_of(w), "#"@ + dec(w.id as nat), 0),
        exists|i: int| occurs_at(haystack_of(w), w.item_type@, i),
        exists|i: int| occurs_at(haystack_of(w), w.title@, i),
        forall|k: int|
            0 <= k < w.tags@.len() ==> has_sub(haystack_of(w), #[trigger] w.tags@[k]@),
{
    let h = haystack_of(w);
    let id = "#"@ + dec(w.id as nat);
    let a = id + " "@;
    let b = a + w.item_type@ + " "@;
    let c = b + w.title@ + " "@;
    let tags = join(views(w.tags@), " "@);
    assert(h == c + tags);
    assert(h.subrange(0, id.len() as int) =~= id);
    assert(h.subrange(a.len() as int, (a.len() + w.item_type@.len()) as int) =~= w.item_type@);
    assert(occurs_at(h, w.item_type@, a.len() as int));
    assert(h.subrange(b.len() as int, (b.len() + w.title@.len()) as int) =~= w.title@);
    assert(occurs_at(h, w.title@, b.len() as int));
    assert forall|k: int| 0 <= k < w.tags@.len() implies has_sub(haystack_of(w), #[trigger] w.tags@[k]@) by {
        let j = lemma_join_part(views(w.tags@), " "@, k);
        let t = w.tags@[k]@;
        assert(views(w.tags@)[k] == t);
        assert(h.subrange(c.len() + j, c.len() + j + t.len()) =~= tags.subrange(j, j + t.len()));
        assert(occurs_at(h, t, c.len() + j));
        assert(occurs_at(haystack_of(w), w.tags@[k]@, c.len() + j));
    }
}

/// The conflicts a push reports are exactly the pending edits whose server
/// value moved on: an edit is reported (field, base, local, server value)
/// whenever the server's revision differs from its base revision and the
/// server's value of its field differs from both its base and its local
/// value, and every reported conflict is such an edit. A field's server
/// value is read from the item's own field of that name.
pub proof fn law_conflicts_are_diverged_edits(remote: WorkItem, pending: Seq<PendingEdit>)
    ensures
        forall|k: int|
            0 <= k < pending.len() && remote.rev != (#[trigger] pending[k]).base_rev && field_value_of(
                remote,
                pending[k].field@,
            ) != pending[k].base@ && field_value_of(remote, pending[k].field@) != pending[k].value@
                ==> conflicts_of(remote, pending).contains(
                (
                    pending[k].field@,
                    pending[k].base@,
                    pending[k].value@,
                    field_value_of(remote, pending[k].field@),
                ),
            ),
        forall|c: (Seq<char>, Seq<char>, Seq<char>, Seq<char>)|
            #[trigger] conflicts_of(remote, pending).contains(c) ==> exists|k: int|
                0 <= k < pending.len() && c == (
                    (#[trigger] pending[k]).field@,
                    pending[k].base@,
                    pending[k].value@,
                    field_value_of(remote, pending[k].field@),
                ) && remote.rev != pending[k].base_rev && c.3 != c.1 && c.3 != c.2,
        conflicts_of(remote, pending).len() <= pending.len(),
        field_value_of(remote, "title"@) == remote.title@,
        field_value_of(remote, "state"@) == remote.state_name@,
        field_value_of(remote, "assignee"@) == remote.assigned_to@,
        field_value_of(remote, "iteration"@) == remote.iteration@,
        field_value_of(remote, "notes"@) == remote.notes@,
        field_value_of(remote, "description"@) == remote.description@,
    decreases pending.len(),
{
    crate::api::mock::lemma_field_names_distinct();
    if pending.len() > 0 {
        let front = pending.drop_last();
        law_conflicts_are_diverged_edits(remote, front);
        let p = pending.last();
        let r = conflicts_of(remote, front);
        assert forall|k: int|
            0 <= k < pending.len() && remote.rev != (#[trigger] pending[k]).base_rev && field_value_of(
                remote,
                pending[k].field@,
            ) != pending[k].base@ && field_value_of(remote, pending[k].field@) != pending[k].value@
                implies conflicts_of(remote, pending).contains(
            (
                pending[k].field@,
                pending[k].base@,
                pending[k].value@,
                field_value_of(remote, pending[k].field@),
            ),
        ) by {
            if k < pending.len() - 1 {
                assert(front[k] == pending[k]);
                let e = (
                    pending[k].field@,
                    pending[k].base@,
                    pending[k].value@,
                    field_value_of(remote, pending[k].field@),
                );
                assert(r.contains(e));
                if diverged(remote, p) {
                    let j = choose|j: int| 0 <= j < r.len() && r[j] == e;
                    assert(r.push((p.field@, p.base@, p.value@, field_value_of(remote, p.field@)))[j]
                        == e);
                }
            } else {
                let e = (p.field@, p.base@, p.value@, field_value_of(remote, p.field@));
                assert(conflicts_of(remote, pending) == r.push(e));
                assert(conflicts_of(remote, pending)[r.len() as int] == e);
            }
        }
        assert forall|c: (Seq<char>, Seq<char>, Seq<char>, Seq<char>)|
            #[trigger] conflicts_of(remote, pending).contains(c) implies exists|k: int|
                0 <= k < pending.len() && c == (
                    (#[trigger] pending[k]).field@,
                    pending[k].base@,
                    pending[k].value@,
                    field_value_of(remote, pending[k].field@),
                ) && remote.rev != pending[k].base_rev && c.3 != c.1 && c.3 != c.2 by {
            let j = choose|j: int| 0 <= j < conflicts_of(remote, pending).len() && conflicts_of(remote, pending)[j] == c;
            if j < r.len() {
                if diverged(remote, p) {
                    assert(conflicts_of(remote, pending)[j] == r[j]);
                }
                assert(r.contains(c));
                let k = choose|k: int|
                    0 <= k < front.len() && c == (
                        (#[trigger] front[k]).field@,
                        front[k].base@,
                        front[k].value@,
                        field_value_of(remote, front[k].field@),
                    ) && remote.rev != front[k].base_rev && c.3 != c.1 && c.3 != c.2;
                assert(pending[k] == front[k]);
            } else {
                assert(pending[pending.len() - 1] == p);
            }
        }
    }
}

} // verus!
