//! The user's configuration (organisation URL, project, team, account) and
//! the remembered view of the last session.
use crate::api::models::Timeframe;
use crate::app::Tab;
use crate::text::{is_blank, trim};
use vstd::prelude::*;

verus! {

/// Persisted user configuration.
pub struct Config {
    /// e.g. `https://dev.azure.com/my-org`
    pub org_url: String,
    pub project: String,
    pub team: String,
    /// The signed-in account (filled in by sign-in). Display only.
    pub account: String,
}

impl Config {
    /// Every field empty.
    pub fn new() -> (r: Self)
        ensures
            r.org_url@.len() == 0 && r.project@.len() == 0 && r.team@.len() == 0 && r.account@.len() == 0,
    {
        Config { org_url: String::new(), project: String::new(), team: String::new(), account: String::new() }
    }

    /// True once there is the minimum needed to talk to a real backend: an
    /// organisation URL and a project that are not blank.
    pub fn is_complete(&self) -> (r: bool)
        ensures
            r == (trim(self.org_url@).len() != 0 && trim(self.project@).len() != 0),
    {
        !is_blank(self.org_url.as_str()) && !is_blank(self.project.as_str())
    }
}

/// The view left off in: tab, timeframe, open item, tree expansion and
/// selections, restored at the next launch.
pub struct SessionState {
    pub tab: Tab,
    pub timeframe: Timeframe,
    pub selected_iterations: Vec<String>,
    pub item_types: Vec<String>,
    pub current_id: Option<u32>,
    pub tree_expanded: Vec<u32>,
    pub tree_selected: usize,
    pub list_selected: usize,
    pub detail_selected: usize,
}

impl SessionState {
    /// The Work Items tab, no window, nothing open or expanded.
    pub fn new() -> (r: Self)
        ensures
            r.tab == Tab::WorkItems,
            r.timeframe == (Timeframe { from: None, to: None }),
            r.selected_iterations@.len() == 0,
            r.item_types@.len() == 0,
            r.current_id is None,
            r.tree_expanded@.len() == 0,
            r.tree_selected == 0 && r.list_selected == 0 && r.detail_selected == 0,
    {
        SessionState {
            tab: Tab::WorkItems,
            timeframe: Timeframe { from: None, to: None },
            selected_iterations: Vec::new(),
            item_types: Vec::new(),
            current_id: None,
            tree_expanded: Vec::new(),
            tree_selected: 0,
            list_selected: 0,
            detail_selected: 0,
        }
    }
}

} // verus!
