//! The open item's editing session beyond the pending edits themselves: the
//! live-feed markers (✓ updated upstream, ⚠ clashing with a pending edit),
//! the conflict-resolution menu, what Enter does in the floating field
//! editor, and how text coming back from `$EDITOR` is recorded.
use crate::api::models::{state_from_label, state_label, state_next, WorkItem, WorkItemState};
use crate::app::{
    conflict_views, cycle_within, editable_fields, editable_table, effective_field_value, effective_of,
    field_value_of, first_pending, item_field_value, pending_after, pending_views, set_pending, EditorRequest,
    FieldConflict, FieldKind, FieldStatus, InfoEditor, PendingComment, PendingEdit, PushOutcome, Resolution,
};
use crate::text::{dec, str_eq, trim_end, trimmed_end, views};
use crate::tree_view::first_index_from;
use crate::ui::picker::Picker;
use vstd::prelude::*;

verus! {

/// The marker map of an association list: later entries win.
pub open spec fn marks_map(s: Seq<(&'static str, FieldStatus)>) -> Map<Seq<char>, FieldStatus>
    decreases s.len(),
{
    if s.len() == 0 {
        Map::empty()
    } else {
        marks_map(s.drop_last()).insert(s.last().0@, s.last().1)
    }
}

/// The marker of `key` in `m`, if any.
pub open spec fn mark_of(m: Map<Seq<char>, FieldStatus>, key: Seq<char>) -> Option<FieldStatus> {
    if m.contains_key(key) {
        Some(m[key])
    } else {
        None
    }
}

/// Live-feed markers of the open item's fields.
pub struct FieldMarks {
    pub entries: Vec<(&'static str, FieldStatus)>,
}

impl FieldMarks {
    /// No markers.
    pub fn new() -> (r: Self)
        ensures
            marks_map(r.entries@) == Map::<Seq<char>, FieldStatus>::empty(),
    {
        FieldMarks { entries: Vec::new() }
    }

    /// The marker of `field`, if any.
    pub fn get(&self, field: &str) -> (r: Option<FieldStatus>)
        ensures
            r == mark_of(marks_map(self.entries@), field@),
    {
        let ghost s = self.entries@;
        let mut i: usize = self.entries.len();
        assert(s.take(i as int) =~= s);
        while i > 0
            invariant
                i <= s.len(),
                s == self.entries@,
                mark_of(marks_map(s), field@) == mark_of(marks_map(s.take(i as int)), field@),
            decreases i,
        {
            assert(s.take(i as int).drop_last() =~= s.take(i - 1));
            let e = self.entries[i - 1];
            if str_eq(e.0, field) {
                return Some(e.1);
            }
            i = i - 1;
        }
        None
    }

    /// Drop the marker of `field`.
    pub fn remove(&mut self, field: &str)
        ensures
            marks_map(final(self).entries@) == marks_map(old(self).entries@).remove(field@),
    {
        let ghost s = self.entries@;
        let mut out: Vec<(&'static str, FieldStatus)> = Vec::new();
        let mut i: usize = 0;
        while i < self.entries.len()
            invariant
                i <= s.len(),
                s == self.entries@,
                marks_map(out@) == marks_map(s.take(i as int)).remove(field@),
            decreases s.len() - i,
        {
            assert(s.take(i + 1).drop_last() =~= s.take(i as int));
            let e = self.entries[i];
            let ghost before = out@;
            if !str_eq(e.0, field) {
                out.push(e);
                assert(out@.drop_last() =~= before);
                assert(marks_map(out@) =~= marks_map(s.take(i + 1)).remove(field@));
            } else {
                assert(marks_map(out@) =~= marks_map(s.take(i + 1)).remove(field@));
            }
            i = i + 1;
        }
        assert(s.take(s.len() as int) =~= s);
        self.entries = out;
    }

    /// Set the marker of `field`.
    pub fn set(&mut self, field: &'static str, status: FieldStatus)
        ensures
            marks_map(final(self).entries@) == marks_map(old(self).entries@).insert(field@, status),
    {
        self.remove(field);
        let ghost before = self.entries@;
        self.entries.push((field, status));
        assert(self.entries@.drop_last() =~= before);
        assert(marks_map(self.entries@) =~= marks_map(before).insert(field@, status));
    }

    /// Drop every marker.
    pub fn clear(&mut self)
        ensures
            marks_map(final(self).entries@) == Map::<Seq<char>, FieldStatus>::empty(),
    {
        self.entries = Vec::new();
    }
}

/// The position of the first pending edit of `field` (see [`first_pending`]).
pub fn find_pending(pending: &Vec<PendingEdit>, field: &str) -> (r: Option<usize>)
    ensures
        match r {
            Some(k) => first_pending(pending_views(pending@), field@) == Some(k as int) && k < pending@.len(),
            None => first_pending(pending_views(pending@), field@) is None,
        },
{
    let ghost ps = pending_views(pending@);
    let mut k: usize = 0;
    while k < pending.len() && !str_eq(pending[k].field, field)
        invariant
            k <= pending@.len(),
            ps == pending_views(pending@),
            forall|j: int| 0 <= j < k ==> (#[trigger] ps[j]).0 != field@,
        decreases pending.len() - k,
    {
        k = k + 1;
    }
    proof {
        crate::app::lemma_first_pending(ps, field@, k as int);
    }
    if k < pending.len() {
        assert(ps[k as int].0 == field@);
        Some(k)
    } else {
        None
    }
}

/// How a pane (or a field) showing some fields of the open item is marked.
#[derive(Clone, Copy, Debug, PartialEq, Eq, Structural)]
pub enum PaneMark {
    /// A live-feed conflict on one of the fields (⚠).
    Conflicted,
    /// An un-pushed local edit of one of the fields (●).
    Pending,
    /// One of the fields changed upstream cleanly (✓).
    Updated,
    /// None of these.
    Plain,
}

/// One of `fields` carries marker `st`.
pub open spec fn some_marked(m: Map<Seq<char>, FieldStatus>, fields: Seq<Seq<char>>, st: FieldStatus) -> bool {
    exists|i: int| 0 <= i < fields.len() && mark_of(m, #[trigger] fields[i]) == Some(st)
}

/// One of `fields` has a pending edit.
pub open spec fn some_pending(ps: Seq<(Seq<char>, Seq<char>, u32, Seq<char>)>, fields: Seq<Seq<char>>) -> bool {
    exists|i: int| 0 <= i < fields.len() && first_pending(ps, #[trigger] fields[i]) is Some
}

/// The mark of a pane showing `fields`: a conflict wins over a pending edit,
/// which wins over an upstream update.
pub open spec fn pane_mark_of(
    m: Map<Seq<char>, FieldStatus>,
    ps: Seq<(Seq<char>, Seq<char>, u32, Seq<char>)>,
    fields: Seq<Seq<char>>,
) -> PaneMark {
    if some_marked(m, fields, FieldStatus::Conflicted) {
        PaneMark::Conflicted
    } else if some_pending(ps, fields) {
        PaneMark::Pending
    } else if some_marked(m, fields, FieldStatus::Updated) {
        PaneMark::Updated
    } else {
        PaneMark::Plain
    }
}

/// Whether one of `fields` carries marker `st`.
fn any_marked(marks: &FieldMarks, fields: &Vec<&str>, st: FieldStatus) -> (r: bool)
    ensures
        r == some_marked(marks_map(marks.entries@), fields@.map_values(|f: &str| f@), st),
{
    let ghost fs = fields@.map_values(|f: &str| f@);
    let mut i: usize = 0;
    while i < fields.len()
        invariant
            i <= fields@.len(),
            fs == fields@.map_values(|f: &str| f@),
            forall|j: int| 0 <= j < i ==> mark_of(marks_map(marks.entries@), #[trigger] fs[j]) != Some(st),
        decreases fields.len() - i,
    {
        if marks.get(fields[i]) == Some(st) {
            assert(mark_of(marks_map(marks.entries@), fs[i as int]) == Some(st));
            return true;
        }
        i = i + 1;
    }
    false
}

/// Whether one of `fields` has a pending edit.
fn any_pending(pending: &Vec<PendingEdit>, fields: &Vec<&str>) -> (r: bool)
    ensures
        r == some_pending(pending_views(pending@), fields@.map_values(|f: &str| f@)),
{
    let ghost fs = fields@.map_values(|f: &str| f@);
    let mut i: usize = 0;
    while i < fields.len()
        invariant
            i <= fields@.len(),
            fs == fields@.map_values(|f: &str| f@),
            forall|j: int| 0 <= j < i ==> first_pending(pending_views(pending@), #[trigger] fs[j]) is None,
        decreases fields.len() - i,
    {
        if find_pending(pending, fields[i]).is_some() {
            assert(first_pending(pending_views(pending@), fs[i as int]) is Some);
            return true;
        }
        i = i + 1;
    }
    false
}

/// The mark of a pane showing `fields` (see [`pane_mark_of`]); with one
/// field, the mark of that field.
pub fn pane_mark(marks: &FieldMarks, pending: &Vec<PendingEdit>, fields: &Vec<&str>) -> (r: PaneMark)
    ensures
        r == pane_mark_of(marks_map(marks.entries@), pending_views(pending@), fields@.map_values(|f: &str| f@)),
{
    if any_marked(marks, fields, FieldStatus::Conflicted) {
        PaneMark::Conflicted
    } else if any_pending(pending, fields) {
        PaneMark::Pending
    } else if any_marked(marks, fields, FieldStatus::Updated) {
        PaneMark::Updated
    } else {
        PaneMark::Plain
    }
}

/// The keys of the editable fields, in order.
pub open spec fn editable_keys() -> Seq<Seq<char>> {
    editable_table().map_values(|t: (Seq<char>, Seq<char>, crate::app::FieldKind)| t.0)
}

/// The marker a fresh server copy `remote` earns for `key`: none when the
/// field did not change since `old` (the copy we had; an empty value without
/// one); otherwise ⚠ when our pending edit of the field holds another value,
/// else ✓.
pub open spec fn live_mark(
    old: Option<WorkItem>,
    remote: WorkItem,
    ps: Seq<(Seq<char>, Seq<char>, u32, Seq<char>)>,
    key: Seq<char>,
) -> Option<FieldStatus> {
    let nv = field_value_of(remote, key);
    let ov = match old {
        Some(w) => field_value_of(w, key),
        None => Seq::empty(),
    };
    if nv == ov {
        None
    } else {
        match first_pending(ps, key) {
            Some(i) => if ps[i].3 != nv {
                Some(FieldStatus::Conflicted)
            } else {
                Some(FieldStatus::Updated)
            },
            None => Some(FieldStatus::Updated),
        }
    }
}

/// The markers after adopting `remote`: each of `keys` that changed upstream
/// gets its [`live_mark`]; the others keep theirs.
pub open spec fn marks_after(
    m: Map<Seq<char>, FieldStatus>,
    keys: Seq<Seq<char>>,
    old: Option<WorkItem>,
    remote: WorkItem,
    ps: Seq<(Seq<char>, Seq<char>, u32, Seq<char>)>,
) -> Map<Seq<char>, FieldStatus>
    decreases keys.len(),
{
    if keys.len() == 0 {
        m
    } else {
        let m1 = marks_after(m, keys.drop_last(), old, remote, ps);
        match live_mark(old, remote, ps, keys.last()) {
            Some(st) => m1.insert(keys.last(), st),
            None => m1,
        }
    }
}

/// Adopt a freshly fetched server copy of the open item: diff it against
/// the copy we had (`had`) and the pending edits to set the ✓/⚠ markers (see
/// [`marks_after`]).
pub fn apply_remote_marks(
    marks: &mut FieldMarks,
    had: &Option<WorkItem>,
    remote: &WorkItem,
    pending: &Vec<PendingEdit>,
)
    ensures
        marks_map(final(marks).entries@) == marks_after(
            marks_map(old(marks).entries@),
            editable_keys(),
            *had,
            *remote,
            pending_views(pending@),
        ),
{
    let fields = editable_fields();
    let ghost keys = editable_keys();
    let ghost m0 = marks_map(marks.entries@);
    let ghost ps = pending_views(pending@);
    let mut i: usize = 0;
    while i < fields.len()
        invariant
            i <= fields@.len(),
            fields@.len() == editable_table().len(),
            keys == editable_keys(),
            keys.len() == fields@.len(),
            forall|k: int| 0 <= k < fields@.len() ==> (#[trigger] fields@[k]).key@ == keys[k],
            ps == pending_views(pending@),
            marks_map(marks.entries@) == marks_after(m0, keys.take(i as int), *had, *remote, ps),
        decreases fields.len() - i,
    {
        let key = fields[i].key;
        assert(keys.take(i + 1).drop_last() =~= keys.take(i as int));
        assert(keys.take(i + 1).last() == key@);
        let new_val = item_field_value(remote, key);
        let old_val = match had {
            Some(w) => item_field_value(w, key),
            None => String::new(),
        };
        let ghost lm = live_mark(*had, *remote, ps, key@);
        assert(new_val@ == field_value_of(*remote, key@));
        assert(old_val@ == match *had {
            Some(w) => field_value_of(w, key@),
            None => Seq::<char>::empty(),
        });
        let ghost m1 = marks_map(marks.entries@);
        if !str_eq(new_val.as_str(), old_val.as_str()) {
            let ghost fp = first_pending(ps, key@);
            let st = match find_pending(pending, key) {
                Some(k) => {
                    assert(fp == Some(k as int));
                    assert(ps[k as int].3 == pending@[k as int].value@);
                    if !str_eq(pending[k].value.as_str(), new_val.as_str()) {
                        assert(lm == Some(FieldStatus::Conflicted));
                        FieldStatus::Conflicted
                    } else {
                        assert(lm == Some(FieldStatus::Updated));
                        FieldStatus::Updated
                    }
                },
                None => {
                    assert(fp is None);
                    FieldStatus::Updated
                },
            };
            assert(new_val@ != old_val@);
            assert(lm == Some(st));
            marks.set(key, st);
        } else {
            assert(lm is None);
        }
        assert(marks_map(marks.entries@) == marks_after(m0, keys.take(i + 1), *had, *remote, ps));
        i = i + 1;
    }
    assert(keys.take(fields.len() as int) =~= keys);
}

/// The single conflict shown when the user edits a field flagged ⚠: field,
/// base, local and server values — the pending edit's base and value, or the
/// server value for both without one.
pub open spec fn single_conflict(
    item: WorkItem,
    ps: Seq<(Seq<char>, Seq<char>, u32, Seq<char>)>,
    field: Seq<char>,
) -> (Seq<char>, Seq<char>, Seq<char>, Seq<char>) {
    let remote = field_value_of(item, field);
    match first_pending(ps, field) {
        Some(i) => (field, ps[i].1, ps[i].3, remote),
        None => (field, remote, remote, remote),
    }
}

/// The resolution menu pre-scoped to `field` of the open item (see
/// [`single_conflict`]).
pub fn resolution_for(item: &WorkItem, pending: &Vec<PendingEdit>, field: &'static str) -> (r: Resolution)
    ensures
        r.id == item.id,
        r.selected == 0,
        conflict_views(r.conflicts@) == seq![single_conflict(*item, pending_views(pending@), field@)],
{
    let remote = item_field_value(item, field);
    let ghost ps = pending_views(pending@);
    let (base, local) = match find_pending(pending, field) {
        Some(k) => {
            assert(ps[k as int].1 == pending@[k as int].base@ && ps[k as int].3 == pending@[k as int].value@);
            (pending[k].base.clone(), pending[k].value.clone())
        },
        None => (remote.clone(), remote.clone()),
    };
    let mut conflicts: Vec<FieldConflict> = Vec::new();
    conflicts.push(FieldConflict { field, base, local, remote });
    let r = Resolution { id: item.id, conflicts, selected: 0 };
    assert(conflict_views(r.conflicts@) =~= seq![single_conflict(*item, ps, field@)]);
    r
}

/// The text handed to `$EDITOR` to merge a conflict by hand: local, base and
/// server versions between conflict markers.
pub open spec fn merge_text(c: (Seq<char>, Seq<char>, Seq<char>, Seq<char>)) -> Seq<char> {
    "<<<<<<< local (your changes)\n"@ + c.2 + "\n||||||| base (common ancestor)\n"@ + c.1 + "\n=======\n"@ + c.3
        + "\n>>>>>>> remote (current server)\n"@
}

/// The conflict-marker text for merging `c` by hand (see [`merge_text`]).
pub fn merge_body(c: &FieldConflict) -> (r: String)
    ensures
        r@ == merge_text((c.field@, c.base@, c.local@, c.remote@)),
{
    let mut s = String::new();
    s.append("<<<<<<< local (your changes)\n");
    s.append(c.local.as_str());
    s.append("\n||||||| base (common ancestor)\n");
    s.append(c.base.as_str());
    s.append("\n=======\n");
    s.append(c.remote.as_str());
    s.append("\n>>>>>>> remote (current server)\n");
    s
}

impl Resolution {
    /// Move the highlighted conflict by `delta`, wrapping around.
    pub fn nav(&mut self, delta: isize)
        ensures
            final(self).id == old(self).id,
            final(self).conflicts@ == old(self).conflicts@,
            old(self).conflicts@.len() == 0 ==> final(self).selected == old(self).selected,
            old(self).conflicts@.len() > 0 ==> final(self).selected == (old(self).selected + delta) % (old(
                self,
            ).conflicts@.len() as int),
    {
        if self.conflicts.len() > 0 {
            self.selected = cycle_within(self.selected, delta, self.conflicts.len());
        }
    }

    /// Drop the resolved `field` from the menu and highlight the first
    /// remaining conflict; returns whether none remain (the menu then
    /// closes).
    pub fn finish_field(&mut self, field: &str) -> (done: bool)
        ensures
            final(self).id == old(self).id,
            final(self).selected == 0,
            conflict_views(final(self).conflicts@) == conflict_views(old(self).conflicts@).filter(
                |c: (Seq<char>, Seq<char>, Seq<char>, Seq<char>)| c.0 != field@,
            ),
            done == (final(self).conflicts@.len() == 0),
    {
        let ghost all = self.conflicts@;
        let mut rest: Vec<FieldConflict> = Vec::new();
        std::mem::swap(&mut rest, &mut self.conflicts);
        let mut kept: Vec<FieldConflict> = Vec::new();
        let ghost mut done_part: Seq<FieldConflict> = Seq::empty();
        while rest.len() > 0
            invariant
                all == done_part + rest@,
                conflict_views(kept@) == conflict_views(done_part).filter(
                    |c: (Seq<char>, Seq<char>, Seq<char>, Seq<char>)| c.0 != field@,
                ),
            decreases rest.len(),
        {
            let c = rest.remove(0);
            proof {
                reveal(Seq::filter);
                assert(all =~= done_part.push(c) + rest@);
                assert(conflict_views(done_part.push(c)).drop_last() =~= conflict_views(done_part));
                done_part = done_part.push(c);
            }
            if !str_eq(c.field, field) {
                let ghost before = kept@;
                kept.push(c);
                assert(conflict_views(kept@) =~= conflict_views(before).push((c.field@, c.base@, c.local@, c.remote@)));
            }
        }
        assert(done_part =~= all);
        self.conflicts = kept;
        self.selected = 0;
        self.conflicts.len() == 0
    }
}

/// What Enter on a field of the floating field editor does.
pub enum Activation {
    /// The field is flagged ⚠: open the resolution menu for it instead.
    Resolve(&'static str),
    /// Edit the single-line field inline, starting from this text.
    EditLine(String),
    /// Record this state as a pending edit (no valid states are known, so
    /// the canonical workflow is cycled).
    CycleState(String),
    /// Pick among the item's valid states, cursor on the current one.
    PickState(Picker),
    /// Open the tags editor over the item's tags.
    EditTags,
    /// Hand the field to `$EDITOR`.
    External(&'static str),
    /// Nothing to do (no open item).
    Nothing,
}

/// The state a cycle starts from: the shown state's name when it is one of
/// the canonical states, else the item's state.
pub open spec fn cycle_from(shown: Seq<char>, fallback: WorkItemState) -> WorkItemState {
    match state_from_label(shown) {
        Some(s) => s,
        None => fallback,
    }
}

/// What Enter does on a field (key, label, kind) not flagged ⚠: see
/// [`activation`].
pub open spec fn activation_fits(
    r: Activation,
    field: (Seq<char>, Seq<char>, FieldKind),
    ps: Seq<(Seq<char>, Seq<char>, u32, Seq<char>)>,
    current: Option<WorkItem>,
) -> bool {
    match field.2 {
        FieldKind::Line => r matches Activation::EditLine(v) && v@ == effective_of(ps, current, field.0),
        FieldKind::State => match current {
            None => r is Nothing,
            Some(w) => {
                let shown = effective_of(ps, current, "state"@);
                if w.available_states@.len() == 0 {
                    r matches Activation::CycleState(l) && l@ == state_label(state_next(cycle_from(shown, w.state)))
                } else {
                    r matches Activation::PickState(p) && p.options@ == w.available_states@ && p.input.text()
                        == Seq::<char>::empty() && p.selected == first_index_from(views(w.available_states@), shown, 0)
                }
            },
        },
        FieldKind::Tags => r is EditTags,
        FieldKind::Multiline => r matches Activation::External(k) && k@ == field.0,
    }
}

/// Enter on the `sel`-th editable field: resolve a ⚠ conflict first;
/// otherwise inline-edit a line, cycle or pick the state, open the tags
/// editor, or hand long text to `$EDITOR`.
pub fn activation(sel: usize, marks: &FieldMarks, pending: &Vec<PendingEdit>, current: &Option<WorkItem>) -> (r:
    Activation)
    requires
        sel < editable_table().len(),
    ensures
        mark_of(marks_map(marks.entries@), editable_table()[sel as int].0) == Some(FieldStatus::Conflicted)
            ==> (r matches Activation::Resolve(k) && k@ == editable_table()[sel as int].0),
        mark_of(marks_map(marks.entries@), editable_table()[sel as int].0) != Some(FieldStatus::Conflicted)
            ==> activation_fits(r, editable_table()[sel as int], pending_views(pending@), *current),
{
    let fields = editable_fields();
    let f = fields[sel];
    assert(f.key@ == editable_table()[sel as int].0 && f.kind == editable_table()[sel as int].2);
    match marks.get(f.key) {
        Some(FieldStatus::Conflicted) => {
            return Activation::Resolve(f.key);
        },
        _ => {},
    }
    assert(mark_of(marks_map(marks.entries@), f.key@) != Some(FieldStatus::Conflicted));
    match f.kind {
        FieldKind::Line => {
            let v = effective_field_value(pending, current, f.key);
            assert(v@ == effective_of(pending_views(pending@), *current, editable_table()[sel as int].0));
            assert(editable_table()[sel as int].2 == FieldKind::Line);
            let r = Activation::EditLine(v);
            assert(activation_fits(r, editable_table()[sel as int], pending_views(pending@), *current));
            r
        },
        FieldKind::State => match current {
            None => {
                let r = Activation::Nothing;
                assert(activation_fits(r, editable_table()[sel as int], pending_views(pending@), *current));
                r
            },
            Some(w) => {
                let shown = effective_field_value(pending, current, "state");
                if w.available_states.len() == 0 {
                    let from = match WorkItemState::from_label(shown.as_str()) {
                        Some(s) => s,
                        None => w.state,
                    };
                    let r = Activation::CycleState(crate::text::owned(from.next().label()));
                    assert(activation_fits(r, editable_table()[sel as int], pending_views(pending@), *current));
                    r
                } else {
                    let states = crate::api::models::copy_strings(&w.available_states);
                    let mut idx: usize = 0;
                    let mut found = false;
                    let mut i: usize = 0;
                    while i < states.len() && !found
                        invariant
                            i <= states@.len(),
                            states@ == w.available_states@,
                            found ==> i >= 1 && idx == i - 1 && first_index_from(views(states@), shown@, 0) == idx,
                            !found ==> idx == 0,
                            !found ==> first_index_from(views(states@), shown@, 0) == first_index_from(
                                views(states@),
                                shown@,
                                i as int,
                            ),
                        decreases states.len() - i + (if found { 0int } else { 1int }),
                    {
                        assert(views(states@)[i as int] == states@[i as int]@);
                        if str_eq(states[i].as_str(), shown.as_str()) {
                            idx = i;
                            found = true;
                        }
                        i = i + 1;
                    }
                    assert(first_index_from(views(w.available_states@), shown@, 0) == idx);
                    assert(shown@ == effective_of(pending_views(pending@), *current, "state"@));
                    let mut p = Picker::new(states);
                    p.selected = idx;
                    assert(p.options@ == w.available_states@);
                    assert(p.input.text() == Seq::<char>::empty());
                    let r = Activation::PickState(p);
                    assert(activation_fits(r, editable_table()[sel as int], pending_views(pending@), *current));
                    r
                }
            },
        },
        FieldKind::Tags => {
            let r = Activation::EditTags;
            assert(activation_fits(r, editable_table()[sel as int], pending_views(pending@), *current));
            r
        },
        FieldKind::Multiline => {
            let r = Activation::External(f.key);
            assert(activation_fits(r, editable_table()[sel as int], pending_views(pending@), *current));
            r
        },
    }
}

/// What recording text from `$EDITOR` asks of the caller.
pub enum EditorEffect {
    /// Recorded as a pending change (an edit back to the server value drops
    /// the field's pending edit instead).
    Recorded,
    /// An empty new comment: nothing recorded.
    Discarded,
    /// A hand merge of `field` of item `id` was recorded: the caller rebases
    /// it on the server's latest copy ([`rebase_pending`]) and clears the
    /// field's marker and its entry in the resolution menu.
    Merged { id: u32, field: &'static str },
    /// A field edit with no open item (or of no editable field): nothing
    /// recorded.
    NoItem,
}

/// `field` is one of the editable fields.
pub open spec fn is_editable(field: Seq<char>) -> bool {
    exists|i: int| 0 <= i < editable_table().len() && #[trigger] editable_table()[i].0 == field
}

/// Record the text coming back from `$EDITOR` (trailing whitespace dropped):
/// a field edit or hand merge becomes a pending edit of the open item (see
/// [`pending_after`]); a new comment by `author` is held unless empty; a
/// comment edit is held (the last one wins on push).
pub fn record_editor_text(
    req: &EditorRequest,
    text: &str,
    pending: &mut Vec<PendingEdit>,
    comments: &mut Vec<PendingComment>,
    current: &Option<WorkItem>,
    author: &str,
) -> (r: EditorEffect)
    ensures
        ({
            let t = trim_end(text@);
            match *req {
                EditorRequest::Field { field, .. } => if current is Some && is_editable(field@) {
                    &&& r is Recorded
                    &&& pending_views(final(pending)@) == pending_after(
                        pending_views(old(pending)@),
                        current->0,
                        field@,
                        t,
                    )
                    &&& final(comments)@ == old(comments)@
                } else {
                    r is NoItem && final(pending)@ == old(pending)@ && final(comments)@ == old(comments)@
                },
                EditorRequest::Merge { id, field } => if current is Some && is_editable(field@) {
                    &&& r matches EditorEffect::Merged { id: i, field: f } && i == id && f == field
                    &&& pending_views(final(pending)@) == pending_after(
                        pending_views(old(pending)@),
                        current->0,
                        field@,
                        t,
                    )
                    &&& final(comments)@ == old(comments)@
                } else {
                    r is NoItem && final(pending)@ == old(pending)@ && final(comments)@ == old(comments)@
                },
                EditorRequest::Comment => if t.len() == 0 {
                    r is Discarded && final(pending)@ == old(pending)@ && final(comments)@ == old(comments)@
                } else {
                    &&& r is Recorded
                    &&& final(pending)@ == old(pending)@
                    &&& final(comments)@.len() == old(comments)@.len() + 1
                    &&& final(comments)@.drop_last() == old(comments)@
                    &&& final(comments)@.last() matches PendingComment::Add { author: a, text: x }
                    &&& a@ == author@
                    &&& x@ == t
                },
                EditorRequest::EditComment { comment_id, .. } => {
                    &&& r is Recorded
                    &&& final(pending)@ == old(pending)@
                    &&& final(comments)@.len() == old(comments)@.len() + 1
                    &&& final(comments)@.drop_last() == old(comments)@
                    &&& final(comments)@.last() matches PendingComment::Edit { comment_id: c, text: x }
                    &&& c == comment_id
                    &&& x@ == t
                },
            }
        }),
{
    let t = trimmed_end(text);
    match req {
        EditorRequest::Field { field, .. } => match current {
            Some(w) => match crate::app::static_field_key(field) {
                Some(key) => {
                    set_pending(pending, w, key, t);
                    EditorEffect::Recorded
                },
                None => EditorEffect::NoItem,
            },
            None => EditorEffect::NoItem,
        },
        EditorRequest::Merge { id, field } => match current {
            Some(w) => match crate::app::static_field_key(field) {
                Some(key) => {
                    set_pending(pending, w, key, t);
                    EditorEffect::Merged { id: *id, field: *field }
                },
                None => EditorEffect::NoItem,
            },
            None => EditorEffect::NoItem,
        },
        EditorRequest::Comment => {
            if t.as_str().unicode_len() == 0 {
                EditorEffect::Discarded
            } else {
                let ghost before = comments@;
                comments.push(PendingComment::Add { author: crate::text::owned(author), text: t });
                assert(comments@.drop_last() =~= before);
                EditorEffect::Recorded
            }
        },
        EditorRequest::EditComment { comment_id, .. } => {
            let ghost before = comments@;
            comments.push(PendingComment::Edit { comment_id: *comment_id, text: t });
            assert(comments@.drop_last() =~= before);
            EditorEffect::Recorded
        },
    }
}

/// Rebase the pending edit of `field` onto the server's latest copy
/// `remote`: its base becomes the server value and revision (so a hand
/// merge does not conflict again with what it merged).
pub fn rebase_pending(pending: &mut Vec<PendingEdit>, field: &str, remote: &WorkItem)
    ensures
        pending_views(final(pending)@) == match first_pending(pending_views(old(pending)@), field@) {
            Some(i) => pending_views(old(pending)@).update(
                i,
                (
                    pending_views(old(pending)@)[i].0,
                    field_value_of(*remote, field@),
                    remote.rev,
                    pending_views(old(pending)@)[i].3,
                ),
            ),
            None => pending_views(old(pending)@),
        },
{
    let ghost ps = pending_views(pending@);
    match find_pending(pending, field) {
        Some(k) => {
            let e = pending.remove(k);
            let base = item_field_value(remote, field);
            pending.insert(k, PendingEdit { field: e.field, base, base_rev: remote.rev, value: e.value });
            assert(pending_views(pending@) =~= ps.update(
                k as int,
                (ps[k as int].0, field_value_of(*remote, field@), remote.rev, ps[k as int].3),
            ));
        },
        None => {},
    }
}

impl InfoEditor {
    /// Move the highlighted field by `delta`, wrapping around the editable
    /// fields.
    pub fn nav(&mut self, delta: isize)
        ensures
            final(self).selected == (old(self).selected + delta) % (editable_table().len() as int),
            final(self).id == old(self).id,
            final(self).editing == old(self).editing,
    {
        self.selected = cycle_within(self.selected, delta, 7);
    }
}

/// What Enter or `e` on a text field asks for.
pub enum EditRequest {
    /// The field is flagged ⚠: open this resolution menu instead.
    Resolve(Resolution),
    /// Open `$EDITOR` on the field.
    Editor(EditorRequest),
}

/// The request for editing `field` of the open item in `$EDITOR`: seeded
/// with the value the user sees (a pending edit or the server value); a
/// field flagged ⚠ opens its resolution menu instead. Nothing without an
/// open item.
pub fn field_edit_request(
    field: &'static str,
    marks: &FieldMarks,
    pending: &Vec<PendingEdit>,
    current: &Option<WorkItem>,
) -> (r: Option<EditRequest>)
    ensures
        match *current {
            None => r is None,
            Some(w) => if mark_of(marks_map(marks.entries@), field@) == Some(FieldStatus::Conflicted) {
                r matches Some(EditRequest::Resolve(res)) && res.id == w.id && res.selected == 0 && conflict_views(
                    res.conflicts@,
                ) == seq![single_conflict(w, pending_views(pending@), field@)]
            } else {
                r matches Some(EditRequest::Editor(EditorRequest::Field { field: f, initial }))
                    && f == field && initial@ == effective_of(pending_views(pending@), *current, field@)
            },
        },
{
    match current {
        None => None,
        Some(w) => {
            match marks.get(field) {
                Some(FieldStatus::Conflicted) => {
                    return Some(EditRequest::Resolve(resolution_for(w, pending, field)));
                },
                _ => {},
            }
            let initial = effective_field_value(pending, current, field);
            Some(EditRequest::Editor(EditorRequest::Field { field, initial }))
        },
    }
}

/// The request for editing the `sel`-th comment of the open item in
/// `$EDITOR`, seeded with its latest pending edit, else its text; nothing
/// without an open item or such a comment.
pub fn comment_edit_request(current: &Option<WorkItem>, sel: usize, comments: &Vec<PendingComment>) -> (r: Option<
    EditorRequest,
>)
    ensures
        match *current {
            Some(w) if sel < w.comments@.len() => r matches Some(EditorRequest::EditComment { comment_id, initial })
                && comment_id == w.comments@[sel as int].id && initial@ == match crate::app::comment_edit_of(
                comments@,
                w.comments@[sel as int].id,
            ) {
                Some(t) => t,
                None => w.comments@[sel as int].text@,
            },
            _ => r is None,
        },
{
    match current {
        Some(w) => {
            if sel < w.comments.len() {
                let c = &w.comments[sel];
                let initial = match crate::app::pending_comment_edit(comments, c.id) {
                    Some(t) => t,
                    None => c.text.clone(),
                };
                Some(EditorRequest::EditComment { comment_id: c.id, initial })
            } else {
                None
            }
        },
        None => None,
    }
}

/// The state of the open item's session after a push finished: its pending
/// changes, resolution menu, whether the list must be refreshed, and the
/// status line.
pub struct PushSettled {
    pub resolution: Option<Resolution>,
    pub refresh: bool,
    pub status: String,
}

/// The status line when a push found `n` conflicts.
pub open spec fn conflicts_text(n: nat) -> Seq<char> {
    dec(n) + " conflicting field(s): j/k select, m merge, f force, Esc cancel"@
}

/// The status line when a push found conflicts on item `id` after the user
/// moved on to another item.
pub open spec fn moved_on_text(id: u32) -> Seq<char> {
    "push for #"@ + dec(id as nat) + " found conflicts but you've moved on"@
}

/// Take a finished push back (`open` is the id of the item open now):
/// conflicts on the open item restore its edits and open the resolution
/// menu (conflicts on another item are dropped); a completed push clears
/// the live-feed markers and asks for a refresh; a failed pre-flight fetch
/// restores the edits unless new ones were made meanwhile.
pub fn settle_push(
    outcome: PushOutcome,
    open: Option<u32>,
    pending: &mut Vec<PendingEdit>,
    comments: &mut Vec<PendingComment>,
    marks: &mut FieldMarks,
) -> (r: PushSettled)
    requires
        outcome matches PushOutcome::Done { total, failed, .. } ==> failed <= total,
    ensures
        match outcome {
            PushOutcome::Conflicts { id, conflicts, pending: p2, comments: c2 } => if open == Some(id) {
                &&& final(pending)@ == p2@
                &&& final(comments)@ == c2@
                &&& r.resolution matches Some(res) && res.id == id && res.conflicts@ == conflicts@ && res.selected == 0
                &&& !r.refresh
                &&& r.status@ == conflicts_text(conflicts@.len())
                &&& final(marks).entries@ == old(marks).entries@
            } else {
                &&& final(pending)@ == old(pending)@
                &&& final(comments)@ == old(comments)@
                &&& r.resolution is None
                &&& !r.refresh
                &&& r.status@ == moved_on_text(id)
                &&& final(marks).entries@ == old(marks).entries@
            },
            PushOutcome::Done { id, total, failed } => {
                &&& final(pending)@ == old(pending)@
                &&& final(comments)@ == old(comments)@
                &&& marks_map(final(marks).entries@) == Map::<Seq<char>, FieldStatus>::empty()
                &&& r.resolution is None
                &&& r.refresh
                &&& r.status@ == crate::view::push_done_text(id, total as nat, failed as nat)
            },
            PushOutcome::Error { message, pending: p2, comments: c2 } => {
                &&& final(pending)@ == (if old(pending)@.len() == 0 { p2@ } else { old(pending)@ })
                &&& final(comments)@ == (if old(comments)@.len() == 0 { c2@ } else { old(comments)@ })
                &&& r.resolution is None
                &&& !r.refresh
                &&& r.status@ == "push failed: "@ + message@
                &&& final(marks).entries@ == old(marks).entries@
            },
        },
{
    match outcome {
        PushOutcome::Conflicts { id, conflicts, pending: p2, comments: c2 } => {
            let same = match open {
                Some(o) => o == id,
                None => false,
            };
            if same {
                *pending = p2;
                *comments = c2;
                let mut status = String::new();
                crate::text::push_dec(&mut status, conflicts.len() as u64);
                status.append(" conflicting field(s): j/k select, m merge, f force, Esc cancel");
                PushSettled { resolution: Some(Resolution { id, conflicts, selected: 0 }), refresh: false, status }
            } else {
                let mut status = crate::text::owned("push for #");
                crate::text::push_dec(&mut status, id as u64);
                status.append(" found conflicts but you've moved on");
                PushSettled { resolution: None, refresh: false, status }
            }
        },
        PushOutcome::Done { id, total, failed } => {
            marks.clear();
            let status = crate::view::push_done_message(id, total, failed);
            PushSettled { resolution: None, refresh: true, status }
        },
        PushOutcome::Error { message, pending: p2, comments: c2 } => {
            if pending.len() == 0 {
                *pending = p2;
            }
            if comments.len() == 0 {
                *comments = c2;
            }
            let mut status = crate::text::owned("push failed: ");
            status.append(message.as_str());
            PushSettled { resolution: None, refresh: false, status }
        },
    }
}

/// A fresh server copy identical to the one we had changes no marker.
pub proof fn law_unchanged_copy_keeps_markers(
    m: Map<Seq<char>, FieldStatus>,
    keys: Seq<Seq<char>>,
    w: WorkItem,
    ps: Seq<(Seq<char>, Seq<char>, u32, Seq<char>)>,
)
    ensures
        marks_after(m, keys, Some(w), w, ps) == m,
    decreases keys.len(),
{
    if keys.len() > 0 {
        law_unchanged_copy_keeps_markers(m, keys.drop_last(), w, ps);
    }
}

/// A marker reads back as set, and reads as absent once removed.
pub proof fn law_marker_read_after_write(s: Seq<(&'static str, FieldStatus)>, key: Seq<char>, st: FieldStatus)
    ensures
        mark_of(marks_map(s).insert(key, st), key) == Some(st),
        mark_of(marks_map(s).remove(key), key) is None,
{
}

/// A one-line preview of `s` for the resolution menu: line breaks shown as
/// ` ⏎ `, cut to `max` characters with `…` when longer.
pub open spec fn preview_of(s: Seq<char>, max: nat) -> Seq<char> {
    let one = crate::api::azure::replace_all(s, "\n"@, " ⏎ "@);
    if one.len() > max {
        one.take(max as int).push('…')
    } else {
        one
    }
}

/// A one-line preview of `s` (see [`preview_of`]).
pub fn preview(s: &str, max: usize) -> (r: String)
    ensures
        r@ == preview_of(s@, max as nat),
{
    let one = crate::api::azure::replace_str(s, "\n", " ⏎ ");
    let v = crate::text::chars_of(one.as_str());
    if v.len() > max {
        let mut out: Vec<char> = Vec::new();
        let mut i: usize = 0;
        while i < max
            invariant
                i <= max < v@.len(),
                out@ == v@.take(i as int),
            decreases max - i,
        {
            out.push(v[i]);
            i = i + 1;
            assert(out@ =~= v@.take(i as int));
        }
        out.push('…');
        crate::text::string_of(&out)
    } else {
        one
    }
}

} // verus!
