//! Work-item backend seam: the [`WorkItemClient`] trait every backend
//! implements, the domain model, and the in-memory client.
pub mod azure;
pub mod mock;
pub mod models;

use crate::api::models::{Iteration, WorkItem, WorkItemFilter};
use vstd::prelude::*;

verus! {

/// A backend failure, described for the status bar.
#[derive(Clone, Debug)]
pub struct ApiError {
    pub message: String,
}

/// A write a backend was asked to make, by its arguments.
pub enum CallView {
    /// `update_field(id, field, value)`.
    UpdateField(u32, Seq<char>, Seq<char>),
    /// `add_comment(id, author, text)`.
    AddComment(u32, Seq<char>, Seq<char>),
    /// `update_comment(id, comment_id, text)`.
    UpdateComment(u32, u32, Seq<char>),
    /// `delete_comment(id, comment_id)`.
    DeleteComment(u32, u32),
}

/// A work-item backend: the real Azure DevOps REST client, or the in-memory
/// one.
///
/// Its abstract state gives what `get` returns for each id ([`fetched`]:
/// the item, or the error message) and the log of writes made so far, each
/// with whether it succeeded ([`writes`]). The default bodies of these two
/// only let a backend written outside the verified library (the HTTP client
/// of the application) compile: such a backend does not model its state, and
/// the clauses below hold for the backends that define both, as the
/// in-memory one does.
///
/// [`fetched`]: WorkItemClient::fetched
/// [`writes`]: WorkItemClient::writes
pub trait WorkItemClient {
    /// What `get(id)` returns in the current state.
    closed spec fn fetched(&self, id: u32) -> Result<WorkItem, Seq<char>> {
        Err(Seq::empty())
    }

    /// The writes made so far, in order, each with whether it succeeded.
    closed spec fn writes(&self) -> Seq<(CallView, bool)> {
        Seq::empty()
    }

    /// Items assigned to the current user that pass `filter`.
    fn list_assigned(&self, filter: &WorkItemFilter) -> Result<Vec<WorkItem>, ApiError>;

    /// The team's iterations (sprints), in chronological order.
    fn list_iterations(&self) -> Vec<Iteration>;

    /// The item `id` as the backend holds it now (see [`WorkItemClient::fetched`]).
    fn get(&self, id: u32) -> (r: Result<WorkItem, ApiError>)
        ensures
            match r {
                Ok(w) => self.fetched(id) matches Ok(v) && w@ == v@,
                Err(e) => self.fetched(id) matches Err(m) && m == e.message@,
            };

    /// Add a comment to item `id`; the call is logged with its success.
    fn add_comment(&mut self, id: u32, author: &str, text: &str) -> (r: Result<(), ApiError>)
        ensures
            final(self).writes() == old(self).writes().push((CallView::AddComment(id, author@, text@), r is Ok));

    /// Replace the text of a comment; the call is logged with its success.
    fn update_comment(&mut self, id: u32, comment_id: u32, text: &str) -> (r: Result<(), ApiError>)
        ensures
            final(self).writes() == old(self).writes().push((CallView::UpdateComment(id, comment_id, text@), r is Ok));

    /// Delete a comment; the call is logged with its success.
    fn delete_comment(&mut self, id: u32, comment_id: u32) -> (r: Result<(), ApiError>)
        ensures
            final(self).writes() == old(self).writes().push((CallView::DeleteComment(id, comment_id), r is Ok));

    /// Set a field of item `id`; the call is logged with its success.
    fn update_field(&mut self, id: u32, field: &str, value: &str) -> (r: Result<(), ApiError>)
        ensures
            final(self).writes() == old(self).writes().push((CallView::UpdateField(id, field@, value@), r is Ok));

    /// Projects available under `org` for the current user.
    fn list_projects(&self, org: &str) -> Vec<String>;

    /// Every tag used in the project, for autocomplete.
    fn list_tags(&self) -> Vec<String>;

    /// The workflow states of an item type.
    fn list_states(&self, item_type: &str) -> Vec<String>;

    /// Fake a remote edit so the conflict flow can be exercised; only the
    /// in-memory backend supports it.
    fn simulate_remote_edit(&mut self, id: u32) -> (r: Result<(), ApiError>)
        default_ensures
            r matches Err(e) && e.message@ == "simulate is only available with the mock backend"@,
    {
        Err(ApiError { message: String::from_str("simulate is only available with the mock backend") })
    }
}

} // verus!
