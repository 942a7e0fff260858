//! Navigation outside the tree: which area has the keyboard, switching tabs,
//! moving list and pane selections, the open item's related ids, the
//! first-run wizard's steps, the Config tab's fields, and the status lines
//! that report a push.
use crate::api::models::WorkItem;
use crate::app::{clamp_int, config_field_names, cycle_within, step_within, tab_order, target_within, Tab};
use crate::config::Config;
use crate::keys::Context;
use crate::text::{dec, push_dec};
use vstd::prelude::*;

verus! {

/// The floating windows that may be open over the tabs.
pub struct Overlays {
    /// The conflict-resolution menu.
    pub resolution: bool,
    /// The iteration (sprint) picker.
    pub iteration_picker: bool,
    /// The custom date-range entry.
    pub date_range: bool,
    /// The work-item type picker.
    pub type_picker: bool,
    /// The tags editor or the state picker.
    pub field_picker: bool,
    /// The floating field editor.
    pub info_editor: bool,
    /// The first-run wizard.
    pub wizard: bool,
}

/// Which area receives keys: the topmost open window (the resolution menu
/// first; the date-range entry shares the iteration filter's keys; the tags
/// editor and state picker share the field editor's), else the tab's own.
pub open spec fn context_spec(o: Overlays, tab: Tab) -> Context {
    if o.resolution {
        Context::Conflict
    } else if o.iteration_picker || o.date_range {
        Context::IterationFilter
    } else if o.type_picker {
        Context::TypeFilter
    } else if o.field_picker || o.info_editor {
        Context::InfoEditor
    } else if o.wizard {
        Context::Wizard
    } else {
        match tab {
            Tab::Tree => Context::Tree,
            Tab::WorkItems => Context::WorkItems,
            Tab::Detail => Context::Detail,
            Tab::Config => Context::Config,
        }
    }
}

/// Which area receives keys (see [`context_spec`]).
pub fn context_of(o: &Overlays, tab: Tab) -> (r: Context)
    ensures
        r == context_spec(*o, tab),
{
    if o.resolution {
        Context::Conflict
    } else if o.iteration_picker || o.date_range {
        Context::IterationFilter
    } else if o.type_picker {
        Context::TypeFilter
    } else if o.field_picker || o.info_editor {
        Context::InfoEditor
    } else if o.wizard {
        Context::Wizard
    } else {
        match tab {
            Tab::Tree => Context::Tree,
            Tab::WorkItems => Context::WorkItems,
            Tab::Detail => Context::Detail,
            Tab::Config => Context::Config,
        }
    }
}

/// Position of a tab in the tab bar.
pub open spec fn tab_pos(t: Tab) -> int {
    match t {
        Tab::WorkItems => 0,
        Tab::Detail => 1,
        Tab::Tree => 2,
        Tab::Config => 3,
    }
}

impl Tab {
    /// The `n`-th tab of the tab bar, if there is one.
    pub fn at(n: usize) -> (r: Option<Tab>)
        ensures
            n < tab_order().len() ==> r == Some(tab_order()[n as int]),
            n >= tab_order().len() ==> r is None,
    {
        if n == 0 {
            Some(Tab::WorkItems)
        } else if n == 1 {
            Some(Tab::Detail)
        } else if n == 2 {
            Some(Tab::Tree)
        } else if n == 3 {
            Some(Tab::Config)
        } else {
            None
        }
    }

    /// The tab `delta` places along the tab bar, wrapping around.
    pub fn cycled(&self, delta: isize) -> (r: Tab)
        ensures
            r == tab_order()[(tab_pos(*self) + delta) % (tab_order().len() as int)],
    {
        let i = cycle_within(self.index(), delta, 4);
        match Tab::at(i) {
            Some(t) => t,
            None => Tab::WorkItems,
        }
    }
}

/// A list selection after moving `delta` rows in a list of `n`: unchanged in
/// an empty list, else the old row (the top without one) moved and clamped.
pub open spec fn list_move(sel: Option<usize>, delta: int, n: nat) -> Option<usize> {
    if n == 0 {
        sel
    } else {
        let cur = match sel {
            Some(p) => p as int,
            None => 0,
        };
        Some(clamp_int(cur + delta, 0, n - 1) as usize)
    }
}

/// `j`/`k` in a list of `n` rows (see [`list_move`]).
pub fn move_in_list(sel: Option<usize>, delta: isize, n: usize) -> (r: Option<usize>)
    ensures
        r == list_move(sel, delta as int, n as nat),
{
    if n == 0 {
        return sel;
    }
    let cur = match sel {
        Some(p) => p,
        None => 0,
    };
    Some(step_within(cur, delta, n))
}

/// `g`/`G` in a list of `n` rows: the `target`-th row, clamped (unchanged in
/// an empty list).
pub fn jump_in_list(sel: Option<usize>, target: isize, n: usize) -> (r: Option<usize>)
    ensures
        n == 0 ==> r == sel,
        n > 0 ==> r == Some(clamp_int(target as int, 0, n - 1) as usize),
{
    if n == 0 {
        return sel;
    }
    Some(target_within(target, n))
}

/// `j`/`k` in a pane of `len` rows (comments, relations, config fields):
/// unchanged when empty, else moved and clamped.
pub fn move_in_pane(cur: usize, delta: isize, len: usize) -> (r: usize)
    ensures
        len == 0 ==> r == cur,
        len > 0 ==> r == clamp_int(cur + delta, 0, len - 1),
{
    if len == 0 {
        return cur;
    }
    step_within(cur, delta, len)
}

/// `g`/`G` in a pane of `len` rows: unchanged when empty, else the clamped
/// `target`-th row.
pub fn jump_in_pane(cur: usize, target: isize, len: usize) -> (r: usize)
    ensures
        len == 0 ==> r == cur,
        len > 0 ==> r == clamp_int(target as int, 0, len - 1),
{
    if len == 0 {
        return cur;
    }
    target_within(target, len)
}

/// The related items of an open item: its parent, then its children.
pub open spec fn related_of(w: WorkItem) -> Seq<u32> {
    match w.parent {
        Some(p) => seq![p] + w.children@,
        None => w.children@,
    }
}

/// The ids of the open item's parent and children (none without an open
/// item), in that order.
pub fn related_ids(current: &Option<WorkItem>) -> (r: Vec<u32>)
    ensures
        match *current {
            Some(w) => r@ == related_of(w),
            None => r@.len() == 0,
        },
{
    let mut ids: Vec<u32> = Vec::new();
    match current {
        Some(w) => {
            match w.parent {
                Some(p) => {
                    ids.push(p);
                },
                None => {},
            }
            let ghost start = ids@;
            let mut i: usize = 0;
            while i < w.children.len()
                invariant
                    i <= w.children@.len(),
                    ids@ == start + w.children@.take(i as int),
                decreases w.children.len() - i,
            {
                ids.push(w.children[i]);
                i = i + 1;
                assert(ids@ =~= start + w.children@.take(i as int));
            }
            assert(w.children@.take(w.children.len() as int) =~= w.children@);
            assert(ids@ =~= related_of(*w));
        },
        None => {},
    }
    ids
}

/// Opening `item` switches to a different item than the open one (its
/// pending edits, markers and menus are then dropped).
pub fn switches_item(current: &Option<WorkItem>, id: u32) -> (r: bool)
    ensures
        r == !(current matches Some(w) && w.id == id),
{
    match current {
        Some(w) => w.id != id,
        None => true,
    }
}

/// A saved cursor restored over `len` rows: kept when in range, else the
/// last row (row 0 when there are none).
pub fn restored_cursor(saved: usize, len: usize) -> (r: usize)
    ensures
        r == if len == 0 {
            0
        } else if saved < len {
            saved as int
        } else {
            len - 1
        },
{
    let last: usize = if len == 0 { 0 } else { len - 1 };
    if saved < last {
        saved
    } else {
        last
    }
}

/// What Enter does in the first-run wizard.
pub enum WizardMove {
    /// Stay on this step (nothing picked).
    Stay,
    /// Step 0 picked this organisation: fetch its projects, then show step 1.
    FetchProjects(String),
    /// Go to this step.
    Advance(usize),
    /// Finish: configure this organisation URL and project.
    Finish { org_url: String, project: String },
}

/// The organisation URL for an organisation name.
pub open spec fn org_url_of(org: Seq<char>) -> Seq<char> {
    "https://dev.azure.com/"@ + org
}

/// Enter at wizard step `step` with the organisation and project pickers'
/// current choices: step 0 needs an organisation (then its projects are
/// fetched), step 1 needs a project, and the last step finishes with the
/// chosen organisation's URL and project (empty when none was picked).
pub fn wizard_move(step: usize, org: Option<String>, project: Option<String>) -> (r: WizardMove)
    ensures
        step == 0 ==> (match org {
            Some(o) => r matches WizardMove::FetchProjects(x) && x@ == o@,
            None => r is Stay,
        }),
        step == 1 ==> (if project is Some {
            r matches WizardMove::Advance(s) && s == 2
        } else {
            r is Stay
        }),
        step >= 2 ==> (r matches WizardMove::Finish { org_url, project: p } && org_url@ == org_url_of(
            match org {
                Some(o) => o@,
                None => Seq::empty(),
            },
        ) && p@ == match project {
            Some(x) => x@,
            None => Seq::empty(),
        }),
{
    if step == 0 {
        match org {
            Some(o) => WizardMove::FetchProjects(o),
            None => WizardMove::Stay,
        }
    } else if step == 1 {
        match project {
            Some(_) => WizardMove::Advance(2),
            None => WizardMove::Stay,
        }
    } else {
        let o = match org {
            Some(o) => o,
            None => String::new(),
        };
        let p = match project {
            Some(x) => x,
            None => String::new(),
        };
        let mut url = crate::text::owned("https://dev.azure.com/");
        url.append(o.as_str());
        WizardMove::Finish { org_url: url, project: p }
    }
}

/// The `idx`-th Config tab field of `c` (see [`config_field_names`]).
pub open spec fn config_field_of(c: Config, idx: int) -> Seq<char> {
    if idx == 0 {
        c.org_url@
    } else if idx == 1 {
        c.project@
    } else if idx == 2 {
        c.team@
    } else {
        c.account@
    }
}

impl Config {
    /// The value of the `idx`-th Config tab field.
    pub fn field_value(&self, idx: usize) -> (r: String)
        requires
            idx < config_field_names().len(),
        ensures
            r@ == config_field_of(*self, idx as int),
    {
        if idx == 0 {
            self.org_url.clone()
        } else if idx == 1 {
            self.project.clone()
        } else if idx == 2 {
            self.team.clone()
        } else {
            self.account.clone()
        }
    }

    /// Set the `idx`-th Config tab field, leaving the others.
    pub fn set_field(&mut self, idx: usize, value: String)
        requires
            idx < config_field_names().len(),
        ensures
            config_field_of(*final(self), idx as int) == value@,
            forall|j: int| 0 <= j < 4 && j != idx ==> config_field_of(*final(self), j) == config_field_of(*old(self), j),
    {
        if idx == 0 {
            self.org_url = value;
        } else if idx == 1 {
            self.project = value;
        } else if idx == 2 {
            self.team = value;
        } else {
            self.account = value;
        }
    }
}

/// The status line after a push: every change uploaded, or how many went
/// through and how many failed.
pub open spec fn push_done_text(id: u32, total: nat, failed: nat) -> Seq<char> {
    if failed == 0 {
        "pushed "@ + dec(total) + " change(s) to #"@ + dec(id as nat)
    } else {
        "pushed "@ + dec((total - failed) as nat) + " change(s); "@ + dec(failed) + " failed"@
    }
}

/// The status line after a push of `total` changes to item `id`, `failed`
/// of which errored (see [`push_done_text`]).
pub fn push_done_message(id: u32, total: usize, failed: usize) -> (r: String)
    requires
        failed <= total,
    ensures
        r@ == push_done_text(id, total as nat, failed as nat),
{
    let mut s = crate::text::owned("pushed ");
    if failed == 0 {
        push_dec(&mut s, total as u64);
        s.append(" change(s) to #");
        push_dec(&mut s, id as u64);
    } else {
        push_dec(&mut s, (total - failed) as u64);
        s.append(" change(s); ");
        push_dec(&mut s, failed as u64);
        s.append(" failed");
    }
    s
}

/// Next tab then previous tab (or the reverse) returns to the same tab, and
/// four steps go all the way round.
pub proof fn law_tab_cycle_inverts(t: Tab)
    ensures
        tab_order()[(tab_pos(tab_order()[(tab_pos(t) + 1) % 4]) - 1) % 4] == t,
        tab_order()[(tab_pos(tab_order()[(tab_pos(t) - 1) % 4]) + 1) % 4] == t,
        tab_order()[(tab_pos(t) + 4) % 4] == t,
{
}

/// The list status line after loading `n` items under window `tf`.
pub open spec fn items_status_text(n: nat, tf: crate::api::models::Timeframe) -> Seq<char> {
    dec(n) + " item(s) · timeframe: "@ + crate::api::models::timeframe_label(tf)
}

/// The status line after loading `n` items (see [`items_status_text`]).
pub fn items_status(n: usize, tf: crate::api::models::Timeframe) -> (r: String)
    ensures
        r@ == items_status_text(n as nat, tf),
{
    let mut s = String::new();
    push_dec(&mut s, n as u64);
    s.append(" item(s) · timeframe: ");
    let l = tf.label();
    s.append(l.as_str());
    s
}

} // verus!
