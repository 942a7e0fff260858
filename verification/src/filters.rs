//! The server-side filters of the Work Items list: a timeframe window, the
//! selected iterations (sprints) and the selected work-item types, with the
//! defaults applied on the first load. Iteration and timeframe filtering are
//! mutually exclusive.
use crate::api::models::{default_type_names, Iteration, Timeframe, WorkItemFilter};
use crate::config::SessionState;
use crate::text::views;
use vstd::prelude::*;

verus! {

/// The list's filters and the iterations they can choose from.
pub struct ListFilters {
    pub timeframe: Timeframe,
    /// Iterations (sprints) of the configured team, fetched lazily.
    pub iterations: Vec<Iteration>,
    /// Iteration paths the list is filtered to (empty: no iteration filter).
    pub selected_iterations: Vec<String>,
    /// The iterations arrived once and the current-sprint default was
    /// considered.
    pub iterations_initialized: bool,
    /// Work-item types the list is filtered to (empty: no type filter).
    pub item_types: Vec<String>,
    /// The first load's type default was considered.
    pub item_types_initialized: bool,
}

/// A timeframe with no bounds (no time constraint).
pub open spec fn no_window(t: Timeframe) -> bool {
    t.from is None && t.to is None
}

/// Iteration and timeframe filtering do not combine: either no window is
/// set or no iteration is selected.
pub open spec fn time_exclusive(f: ListFilters) -> bool {
    no_window(f.timeframe) || f.selected_iterations@.len() == 0
}

/// The first iteration flagged as current.
pub open spec fn first_current(its: Seq<Iteration>) -> Option<int>
    decreases its.len(),
{
    if its.len() == 0 {
        None
    } else if its[0].is_current {
        Some(0)
    } else {
        match first_current(its.drop_first()) {
            Some(i) => Some(i + 1),
            None => None,
        }
    }
}

proof fn lemma_first_current(its: Seq<Iteration>, i: int)
    requires
        0 <= i <= its.len(),
        forall|j: int| 0 <= j < i ==> !(#[trigger] its[j]).is_current,
    ensures
        i < its.len() && its[i].is_current ==> first_current(its) == Some(i),
        i == its.len() ==> first_current(its) is None,
    decreases i,
{
    if i > 0 {
        let t = its.drop_first();
        assert forall|j: int| 0 <= j < i - 1 implies !(#[trigger] t[j]).is_current by {
            assert(t[j] == its[j + 1]);
        }
        lemma_first_current(t, i - 1);
    }
}

/// Copies of `v`.
fn copy_iterations(v: &Vec<Iteration>) -> (r: Vec<Iteration>)
    ensures
        r@ == v@,
{
    let mut out: Vec<Iteration> = Vec::new();
    let mut i: usize = 0;
    while i < v.len()
        invariant
            i <= v@.len(),
            out@ == v@.take(i as int),
        decreases v.len() - i,
    {
        out.push(v[i].copy());
        i = i + 1;
        assert(out@ =~= v@.take(i as int));
    }
    assert(v@.take(v.len() as int) =~= v@);
    out
}

impl ListFilters {
    /// No window, no iterations known, nothing selected, no default applied
    /// yet.
    pub fn new() -> (r: Self)
        ensures
            no_window(r.timeframe),
            r.iterations@.len() == 0,
            r.selected_iterations@.len() == 0,
            !r.iterations_initialized,
            r.item_types@.len() == 0,
            !r.item_types_initialized,
    {
        ListFilters {
            timeframe: Timeframe { from: None, to: None },
            iterations: Vec::new(),
            selected_iterations: Vec::new(),
            iterations_initialized: false,
            item_types: Vec::new(),
            item_types_initialized: false,
        }
    }

    /// The filter to query the server with.
    pub fn filter(&self) -> (r: WorkItemFilter)
        ensures
            r.timeframe == self.timeframe,
            r.iterations@ == self.selected_iterations@,
            r.item_types@ == self.item_types@,
    {
        WorkItemFilter {
            timeframe: self.timeframe,
            iterations: crate::api::models::copy_strings(&self.selected_iterations),
            item_types: crate::api::models::copy_strings(&self.item_types),
        }
    }

    /// Set the timeframe window. A real window replaces any iteration
    /// selection; no window leaves it untouched.
    pub fn set_timeframe(&mut self, tf: Timeframe)
        ensures
            final(self).timeframe == tf,
            time_exclusive(*final(self)),
            no_window(tf) ==> final(self).selected_iterations@ == old(self).selected_iterations@,
            !no_window(tf) ==> final(self).selected_iterations@.len() == 0,
            final(self).iterations@ == old(self).iterations@,
            final(self).iterations_initialized == old(self).iterations_initialized,
            final(self).item_types@ == old(self).item_types@,
            final(self).item_types_initialized == old(self).item_types_initialized,
    {
        self.timeframe = tf;
        if !tf.is_empty() {
            self.selected_iterations.clear();
        }
    }

    /// Adopt the iteration picker's selection. Selecting iterations replaces
    /// any timeframe window.
    pub fn commit_iterations(&mut self, selected: Vec<String>)
        ensures
            final(self).selected_iterations@ == selected@,
            time_exclusive(*final(self)),
            selected@.len() > 0 ==> no_window(final(self).timeframe),
            selected@.len() == 0 ==> final(self).timeframe == old(self).timeframe,
            final(self).iterations@ == old(self).iterations@,
            final(self).iterations_initialized == old(self).iterations_initialized,
            final(self).item_types@ == old(self).item_types@,
            final(self).item_types_initialized == old(self).item_types_initialized,
    {
        self.selected_iterations = selected;
        if self.selected_iterations.len() > 0 {
            self.timeframe = Timeframe { from: None, to: None };
        }
    }

    /// Adopt the type picker's selection; the user's explicit choice is
    /// never replaced by the first-load default.
    pub fn commit_types(&mut self, types: Vec<String>)
        ensures
            final(self).item_types@ == types@,
            final(self).item_types_initialized,
            final(self).timeframe == old(self).timeframe,
            final(self).iterations@ == old(self).iterations@,
            final(self).selected_iterations@ == old(self).selected_iterations@,
            final(self).iterations_initialized == old(self).iterations_initialized,
    {
        self.item_types = types;
        self.item_types_initialized = true;
    }

    /// Store freshly fetched iterations. The first time, default the
    /// selection to the team's current sprint (when one is flagged); returns
    /// whether the selection changed, so the list must be fetched again.
    pub fn adopt_iterations(&mut self, iters: Vec<Iteration>) -> (refetch: bool)
        ensures
            final(self).iterations@ == iters@,
            final(self).iterations_initialized,
            refetch == (!old(self).iterations_initialized && first_current(iters@) is Some),
            refetch ==> views(final(self).selected_iterations@) == seq![iters@[first_current(iters@)->0].path@],
            !refetch ==> final(self).selected_iterations@ == old(self).selected_iterations@,
            final(self).timeframe == old(self).timeframe,
            final(self).item_types@ == old(self).item_types@,
            final(self).item_types_initialized == old(self).item_types_initialized,
    {
        self.iterations = iters;
        if self.iterations_initialized {
            return false;
        }
        self.iterations_initialized = true;
        let mut i: usize = 0;
        while i < self.iterations.len() && !self.iterations[i].is_current
            invariant
                i <= self.iterations@.len(),
                self.iterations@ == iters@,
                forall|j: int| 0 <= j < i ==> !(#[trigger] iters@[j]).is_current,
            decreases self.iterations.len() - i,
        {
            i = i + 1;
        }
        proof {
            lemma_first_current(iters@, i as int);
        }
        if i < self.iterations.len() {
            let mut sel: Vec<String> = Vec::new();
            sel.push(self.iterations[i].path.clone());
            assert(views(sel@) =~= seq![iters@[i as int].path@]);
            self.selected_iterations = sel;
            true
        } else {
            false
        }
    }

    /// On the first load only, default the type filter to User Stories and
    /// Features; returns whether it did (the list must then be fetched
    /// again).
    pub fn default_types_once(&mut self) -> (applied: bool)
        ensures
            applied == !old(self).item_types_initialized,
            final(self).item_types_initialized,
            applied ==> views(final(self).item_types@) == default_type_names(),
            !applied ==> final(self).item_types@ == old(self).item_types@,
            final(self).timeframe == old(self).timeframe,
            final(self).iterations@ == old(self).iterations@,
            final(self).selected_iterations@ == old(self).selected_iterations@,
            final(self).iterations_initialized == old(self).iterations_initialized,
    {
        if self.item_types_initialized {
            return false;
        }
        self.item_types_initialized = true;
        self.item_types = crate::api::models::default_work_item_types();
        true
    }

    /// Restore the filters of a saved session; the restored (possibly empty)
    /// selections are respected rather than replaced by first-load defaults.
    pub fn restore(&mut self, s: &SessionState)
        ensures
            final(self).timeframe == s.timeframe,
            final(self).selected_iterations@ == s.selected_iterations@,
            final(self).item_types@ == s.item_types@,
            final(self).iterations_initialized,
            final(self).item_types_initialized,
            final(self).iterations@ == old(self).iterations@,
    {
        self.timeframe = s.timeframe;
        self.selected_iterations = crate::api::models::copy_strings(&s.selected_iterations);
        self.item_types = crate::api::models::copy_strings(&s.item_types);
        self.iterations_initialized = true;
        self.item_types_initialized = true;
    }

    /// A copy of the iterations known so far.
    pub fn iterations_copy(&self) -> (r: Vec<Iteration>)
        ensures
            r@ == self.iterations@,
    {
        copy_iterations(&self.iterations)
    }
}

/// The background refresh of the list: one fetch in flight at a time; a
/// request made meanwhile is queued and issued once the fetch is back.
pub struct RefreshGate {
    /// A fetch is in flight.
    pub loading: bool,
    /// A request came while a fetch was in flight.
    pub queued: bool,
}

impl RefreshGate {
    /// Nothing in flight, nothing queued.
    pub fn new() -> (r: Self)
        ensures
            !r.loading && !r.queued,
    {
        RefreshGate { loading: false, queued: false }
    }

    /// A refresh is asked for: start a fetch now (`true`) unless one is in
    /// flight, in which case the request is queued.
    pub fn request(&mut self) -> (start: bool)
        ensures
            start == !old(self).loading,
            final(self).loading,
            final(self).queued == (old(self).queued || old(self).loading),
    {
        if self.loading {
            self.queued = true;
            false
        } else {
            self.loading = true;
            true
        }
    }

    /// A fetch issued for filter `issued` is back while `current` is the
    /// filter in effect: nothing is in flight any more, and its result is
    /// used only if the filter has not changed since (`true`).
    pub fn arrived(&mut self, issued: &WorkItemFilter, current: &WorkItemFilter) -> (fresh: bool)
        ensures
            !final(self).loading,
            final(self).queued == old(self).queued,
            fresh == (issued.timeframe == current.timeframe && views(issued.iterations@) == views(
                current.iterations@,
            ) && views(issued.item_types@) == views(current.item_types@)),
    {
        self.loading = false;
        issued.same_as(current)
    }

    /// After the arrived results are handled: issue the queued request now
    /// (`true`) when nothing is in flight.
    pub fn next(&mut self) -> (again: bool)
        ensures
            again == (!old(self).loading && old(self).queued),
            final(self).loading == old(self).loading,
            final(self).queued == (old(self).queued && !again),
    {
        if !self.loading && self.queued {
            self.queued = false;
            true
        } else {
            false
        }
    }
}

} // verus!
