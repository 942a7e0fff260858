use lazyaz::api::mock::MockClient;
use lazyaz::api::models::{WorkItem, WorkItemFilter};
use lazyaz::api::WorkItemClient;
use lazyaz::app::{
    push_plan, tally, ClientCall,
    editable_fields, effective_field_value, item_haystack, pending_added_comments,
    pending_comment_deleted, pending_comment_edit, run_push, set_pending, toggle_comment_delete,
    visible_item_indices, work_item_url_prefix, work_item_web_url, DetailFocus, EditorRequest, FieldStatus, FuzzyFilter,
    PendingComment, PendingEdit, PushOutcome, Tab,
};
use lazyaz::detail::{
    pane_mark, PaneMark,
    activation, apply_remote_marks, comment_edit_request, field_edit_request, find_pending,
    merge_body, preview, rebase_pending, record_editor_text, resolution_for, settle_push, Activation,
    EditRequest, EditorEffect, FieldMarks,
};
use lazyaz::app::InfoEditor;
use lazyaz::ui::input::{KeyCode, KeyEvent};
use lazyaz::ui::tags_editor::TagsEditor;

/// The open item and its local, un-pushed changes, against the mock
/// backend (what the application keeps for the Detail tab).
struct Session {
    client: MockClient,
    current: Option<WorkItem>,
    pending: Vec<PendingEdit>,
    comments: Vec<PendingComment>,
    marks: FieldMarks,
}

impl Session {
    fn open(id: u32) -> Session {
        let client = MockClient::new();
        let current = Some(client.get(id).unwrap());
        Session { client, current, pending: Vec::new(), comments: Vec::new(), marks: FieldMarks::new() }
    }

    fn item(&self) -> &WorkItem {
        self.current.as_ref().unwrap()
    }

    fn set(&mut self, field: &'static str, value: &str) -> bool {
        let item = self.current.as_ref().unwrap();
        set_pending(&mut self.pending, item, field, value.to_string())
    }

    fn editor(&mut self, req: EditorRequest, text: &str) -> EditorEffect {
        record_editor_text(
            &req,
            text,
            &mut self.pending,
            &mut self.comments,
            &self.current,
            "you@example.com",
        )
    }

    fn effective(&self, field: &str) -> String {
        effective_field_value(&self.pending, &self.current, field)
    }

    fn has_pending(&self) -> bool {
        !self.pending.is_empty() || !self.comments.is_empty()
    }

    /// Push the pending changes (taking them out), then re-read the item.
    fn push(&mut self, force: bool) -> PushOutcome {
        let id = self.item().id;
        let pending = std::mem::take(&mut self.pending);
        let comments = std::mem::take(&mut self.comments);
        let out = run_push(&mut self.client, id, pending, comments, force);
        self.current = Some(self.client.get(id).unwrap());
        out
    }
}

fn field_index(key: &str) -> usize {
    editable_fields().iter().position(|f| f.key == key).unwrap()
}

#[test]
fn notes_edit_applies() {
    let mut s = Session::open(1001);
    let effect = s.editor(EditorRequest::Field { field: "notes", initial: "x".into() }, "new notes\n");
    assert!(matches!(effect, EditorEffect::Recorded));
    assert!(s.has_pending());
    assert_eq!(s.effective("notes"), "new notes");
    assert!(matches!(s.push(false), PushOutcome::Done { total: 1, failed: 0, .. }));
    assert!(!s.has_pending());
    assert_eq!(s.item().notes, "new notes");
}

#[test]
fn work_item_web_url_builds_from_org_and_project() {
    assert_eq!(
        work_item_web_url("contoso", "My Project", 1002).unwrap(),
        "https://dev.azure.com/contoso/My%20Project/_workitems/edit/1002"
    );
    assert_eq!(
        work_item_web_url("https://dev.azure.com/contoso/", "Widgets", 7).unwrap(),
        "https://dev.azure.com/contoso/Widgets/_workitems/edit/7"
    );
    assert!(work_item_web_url("", "Widgets", 1).is_none());
}

#[test]
fn remote_change_triggers_conflict_then_force_resolves() {
    let mut s = Session::open(1002);
    s.editor(
        EditorRequest::Field { field: "description", initial: "my original".into() },
        "my edit",
    );
    s.client.simulate_remote_edit(1002).unwrap();
    let id = s.item().id;
    let pending = std::mem::take(&mut s.pending);
    let comments = std::mem::take(&mut s.comments);
    match run_push(&mut s.client, id, pending, comments, false) {
        PushOutcome::Conflicts { conflicts, pending, comments, .. } => {
            assert_eq!(conflicts.len(), 1);
            assert_eq!(conflicts[0].field, "description");
            assert_eq!(conflicts[0].local, "my edit");
            s.pending = pending;
            s.comments = comments;
        }
        _ => panic!("expected a conflict"),
    }
    assert!(matches!(s.push(true), PushOutcome::Done { .. }));
    assert!(!s.has_pending());
    assert_eq!(s.item().description, "my edit");
}

#[test]
fn comment_edit_applies_to_focused_comment() {
    let mut s = Session::open(1001);
    let comment_id = s.item().comments[0].id;
    s.editor(EditorRequest::EditComment { comment_id, initial: "old".into() }, "edited text");
    assert_eq!(pending_comment_edit(&s.comments, comment_id), Some("edited text".to_string()));
    assert!(s.has_pending());
    s.push(false);
    assert_eq!(s.item().comments[0].text, "edited text");
}

#[test]
fn add_comment_is_deferred_until_push() {
    let mut s = Session::open(1002);
    let before = s.item().comments.len();
    s.editor(EditorRequest::Comment, "a brand new comment");
    assert!(s.has_pending());
    assert_eq!(s.item().comments.len(), before);
    assert_eq!(
        pending_added_comments(&s.comments),
        vec![("you@example.com".to_string(), "a brand new comment".to_string())]
    );
    s.push(false);
    assert!(!s.has_pending());
    assert_eq!(s.item().comments.len(), before + 1);
}

#[test]
fn empty_comment_is_discarded() {
    let mut s = Session::open(1002);
    assert!(matches!(s.editor(EditorRequest::Comment, "  \n\t"), EditorEffect::Discarded));
    assert!(!s.has_pending());
}

#[test]
fn field_pending_tracks_unpushed_edit() {
    let mut s = Session::open(1002);
    assert!(find_pending(&s.pending, "title").is_none());
    assert!(s.set("title", "edited title"));
    assert!(find_pending(&s.pending, "title").is_some());
    assert!(find_pending(&s.pending, "description").is_none());
    s.push(false);
    assert!(find_pending(&s.pending, "title").is_none());
    assert_eq!(s.item().title, "edited title");
}

#[test]
fn l_h_cycle_all_detail_panes() {
    let start = DetailFocus::Info;
    let mut f = start;
    for _ in 0..5 {
        f = f.step(1);
    }
    assert_eq!(f, start);
    assert_eq!(f.step(1).step(-1), start);
}

#[test]
fn delete_comment_is_deferred_until_push() {
    let mut s = Session::open(1003);
    let cid = s.item().comments[0].id;
    let before = s.item().comments.len();
    assert!(toggle_comment_delete(&mut s.comments, cid));
    assert!(pending_comment_deleted(&s.comments, cid));
    assert_eq!(s.item().comments.len(), before);
    s.push(false);
    assert!(!pending_comment_deleted(&s.comments, cid));
    assert_eq!(s.item().comments.len(), before - 1);
}

#[test]
fn delete_comment_toggles_off() {
    let mut s = Session::open(1003);
    let cid = s.item().comments[0].id;
    assert!(toggle_comment_delete(&mut s.comments, cid));
    assert!(pending_comment_deleted(&s.comments, cid));
    assert!(!toggle_comment_delete(&mut s.comments, cid));
    assert!(!pending_comment_deleted(&s.comments, cid));
    assert!(!s.has_pending());
}

#[test]
fn deleting_a_comment_drops_its_pending_edit() {
    let mut s = Session::open(1003);
    let cid = s.item().comments[0].id;
    s.editor(EditorRequest::EditComment { comment_id: cid, initial: String::new() }, "x");
    assert!(pending_comment_edit(&s.comments, cid).is_some());
    toggle_comment_delete(&mut s.comments, cid);
    assert!(pending_comment_edit(&s.comments, cid).is_none());
    assert_eq!(s.comments.len(), 1);
}

#[test]
fn tags_editor_commits_as_pending() {
    let mut s = Session::open(1002);
    let a = activation(field_index("tags"), &s.marks, &s.pending, &s.current);
    assert!(matches!(a, Activation::EditTags));
    let mut editor = TagsEditor::new(s.item().tags.clone(), s.client.list_tags());
    editor.selected.push("urgent".into());
    let value = editor.value();
    s.set("tags", &value);
    assert!(find_pending(&s.pending, "tags").is_some());
    assert!(s.effective("tags").contains("urgent"));
    s.push(false);
    assert!(s.item().tags.contains(&"urgent".to_string()));
}

#[test]
fn info_editor_edits_title_inline() {
    let mut s = Session::open(1002);
    match activation(field_index("title"), &s.marks, &s.pending, &s.current) {
        Activation::EditLine(v) => assert_eq!(v, s.item().title),
        _ => panic!("expected an inline edit"),
    }
    s.set("title", "Renamed item");
    assert_eq!(s.effective("title"), "Renamed item");
    assert!(s.has_pending());
    s.push(false);
    assert_eq!(s.item().title, "Renamed item");
}

#[test]
fn info_editor_state_picker_sets_state() {
    let mut s = Session::open(1002);
    let mut picker = match activation(field_index("state"), &s.marks, &s.pending, &s.current) {
        Activation::PickState(p) => p,
        _ => panic!("expected the state picker"),
    };
    // The cursor starts on the current state.
    assert_eq!(picker.options[picker.selected], s.item().state_name);
    picker.selected = picker.options.iter().position(|o| o == "Resolved").unwrap();
    let choice = picker.current().unwrap();
    s.set("state", &choice);
    assert_eq!(s.effective("state"), "Resolved");
    s.push(false);
    assert_eq!(s.item().state_name, "Resolved");
}

#[test]
fn state_cycles_when_no_valid_states_are_known() {
    let mut s = Session::open(1002);
    s.current.as_mut().unwrap().available_states.clear();
    match activation(field_index("state"), &s.marks, &s.pending, &s.current) {
        Activation::CycleState(next) => assert_eq!(next, "Resolved"),
        _ => panic!("expected a state cycle"),
    }
    let none = activation(field_index("state"), &s.marks, &s.pending, &None);
    assert!(matches!(none, Activation::Nothing));
}

#[test]
fn info_editor_multiline_hands_off_to_editor() {
    let s = Session::open(1002);
    match activation(field_index("description"), &s.marks, &s.pending, &s.current) {
        Activation::External(k) => assert_eq!(k, "description"),
        _ => panic!("expected an editor hand-off"),
    }
}

#[test]
fn live_feed_marks_upstream_update_without_pending() {
    let mut s = Session::open(1002);
    s.client.simulate_remote_edit(1002).unwrap();
    let remote = s.client.get(1002).unwrap();
    apply_remote_marks(&mut s.marks, &s.current, &remote, &s.pending);
    assert_eq!(s.marks.get("description"), Some(FieldStatus::Updated));
    assert_eq!(s.marks.get("title"), None);
}

#[test]
fn live_feed_flags_conflict_when_pending_diverges() {
    let mut s = Session::open(1002);
    s.set("description", "my local edit");
    s.client.simulate_remote_edit(1002).unwrap();
    let remote = s.client.get(1002).unwrap();
    apply_remote_marks(&mut s.marks, &s.current, &remote, &s.pending);
    assert_eq!(s.marks.get("description"), Some(FieldStatus::Conflicted));
    // Editing the field opens the resolution menu instead.
    match activation(field_index("description"), &s.marks, &s.pending, &s.current) {
        Activation::Resolve(k) => assert_eq!(k, "description"),
        _ => panic!("expected the resolution menu"),
    }
    let r = resolution_for(&remote, &s.pending, "description");
    assert_eq!(r.id, 1002);
    assert_eq!(r.conflicts.len(), 1);
    assert_eq!(r.conflicts[0].local, "my local edit");
    assert_eq!(r.conflicts[0].remote, remote.description);
}

#[test]
fn markers_read_back_what_was_set() {
    let mut m = FieldMarks::new();
    m.set("title", FieldStatus::Updated);
    m.set("tags", FieldStatus::Conflicted);
    m.set("title", FieldStatus::Conflicted);
    assert_eq!(m.get("title"), Some(FieldStatus::Conflicted));
    assert_eq!(m.get("tags"), Some(FieldStatus::Conflicted));
    m.remove("title");
    assert_eq!(m.get("title"), None);
    assert_eq!(m.get("tags"), Some(FieldStatus::Conflicted));
    m.clear();
    assert_eq!(m.get("tags"), None);
}

#[test]
fn resolution_menu_navigates_and_finishes_fields() {
    let mut s = Session::open(1002);
    s.set("title", "mine");
    let item = s.item().clone();
    let mut r = resolution_for(&item, &s.pending, "title");
    assert_eq!(r.conflicts[0].base, item.title);
    assert_eq!(r.conflicts[0].local, "mine");
    r.conflicts.push(resolution_for(&item, &s.pending, "notes").conflicts.pop().unwrap());
    // Without a pending edit both sides are the server value.
    assert_eq!(r.conflicts[1].local, item.notes);
    r.nav(1);
    assert_eq!(r.selected, 1);
    r.nav(1);
    assert_eq!(r.selected, 0);
    r.nav(-1);
    assert_eq!(r.selected, 1);
    assert!(!r.finish_field("title"));
    assert_eq!(r.selected, 0);
    assert_eq!(r.conflicts[0].field, "notes");
    assert!(r.finish_field("notes"));
}

#[test]
fn merge_body_has_conflict_markers() {
    let s = Session::open(1002);
    let mut r = resolution_for(s.item(), &s.pending, "title");
    let c = r.conflicts.pop().unwrap();
    let body = merge_body(&c);
    assert_eq!(
        body,
        format!(
            "<<<<<<< local (your changes)\n{}\n||||||| base (common ancestor)\n{}\n=======\n{}\n>>>>>>> remote (current server)\n",
            c.local, c.base, c.remote
        )
    );
}

#[test]
fn a_merge_is_rebased_on_the_server_copy() {
    let mut s = Session::open(1002);
    let effect = s.editor(EditorRequest::Merge { id: 1002, field: "description" }, "merged text  ");
    match effect {
        EditorEffect::Merged { id, field } => {
            assert_eq!(id, 1002);
            assert_eq!(field, "description");
        }
        _ => panic!("expected a merge"),
    }
    s.client.simulate_remote_edit(1002).unwrap();
    let remote = s.client.get(1002).unwrap();
    rebase_pending(&mut s.pending, "description", &remote);
    let k = find_pending(&s.pending, "description").unwrap();
    assert_eq!(s.pending[k].value, "merged text");
    assert_eq!(s.pending[k].base, remote.description);
    assert_eq!(s.pending[k].base_rev, remote.rev);
    // Rebased, the merge no longer conflicts.
    assert!(matches!(s.push(false), PushOutcome::Done { failed: 0, .. }));
}

#[test]
fn a_field_edit_without_an_open_item_is_not_recorded() {
    let mut pending = Vec::new();
    let mut comments = Vec::new();
    let effect = record_editor_text(
        &EditorRequest::Field { field: "title", initial: String::new() },
        "x",
        &mut pending,
        &mut comments,
        &None,
        "me",
    );
    assert!(matches!(effect, EditorEffect::NoItem));
    assert!(pending.is_empty());
}

#[test]
fn work_items_fuzzy_filter_narrows_and_clears() {
    let client = MockClient::new();
    let items = client.list_assigned(&WorkItemFilter::default()).unwrap();
    let total = items.len();
    assert!(total > 1);
    let mut f = FuzzyFilter::new();
    f.open();
    let word = items[0].title.split_whitespace().next().unwrap().to_string();
    for c in word.chars() {
        f.input.as_mut().unwrap().handle(KeyEvent::plain(KeyCode::Char(c)));
    }
    let visible = visible_item_indices(&items, &f);
    assert!(!visible.is_empty() && visible.len() <= total);
    for i in visible {
        assert!(f.matches(&item_haystack(&items[i])));
    }
    f.commit();
    assert!(!f.searching());
    assert_eq!(f.tags.len(), 1);
    let f = FuzzyFilter::new();
    assert!(!f.active());
    assert_eq!(visible_item_indices(&items, &f).len(), total);
}

#[test]
fn work_items_filter_maps_selection_to_real_item() {
    let client = MockClient::new();
    let items = client.list_assigned(&WorkItemFilter::default()).unwrap();
    let mut f = FuzzyFilter::new();
    f.open();
    for c in "1004".chars() {
        f.input.as_mut().unwrap().handle(KeyEvent::plain(KeyCode::Char(c)));
    }
    f.commit();
    let visible = visible_item_indices(&items, &f);
    assert_eq!(items[visible[0]].id, 1004);
}

#[test]
fn default_landing_tab_is_work_items() {
    assert_eq!(Tab::default(), Tab::WorkItems);
}

#[test]
fn finished_pushes_are_taken_back() {
    let mut s = Session::open(1002);
    s.set("title", "mine");
    let item = s.item().clone();
    let conflicts = resolution_for(&item, &s.pending, "title").conflicts;
    let returned = std::mem::take(&mut s.pending);
    let out = PushOutcome::Conflicts { id: 1002, conflicts, pending: returned, comments: Vec::new() };
    let r = settle_push(out, Some(1002), &mut s.pending, &mut s.comments, &mut s.marks);
    assert_eq!(r.resolution.as_ref().unwrap().conflicts.len(), 1);
    assert!(!r.refresh);
    assert_eq!(r.status, "1 conflicting field(s): j/k select, m merge, f force, Esc cancel");
    assert_eq!(s.pending.len(), 1);

    let out = PushOutcome::Conflicts { id: 9, conflicts: Vec::new(), pending: Vec::new(), comments: Vec::new() };
    let r = settle_push(out, Some(1002), &mut s.pending, &mut s.comments, &mut s.marks);
    assert!(r.resolution.is_none());
    assert_eq!(r.status, "push for #9 found conflicts but you've moved on");
    assert_eq!(s.pending.len(), 1);

    s.marks.set("title", FieldStatus::Updated);
    let r = settle_push(PushOutcome::Done { id: 1002, total: 2, failed: 1 }, Some(1002), &mut s.pending, &mut s.comments, &mut s.marks);
    assert!(r.refresh);
    assert_eq!(r.status, "pushed 1 change(s); 1 failed");
    assert_eq!(s.marks.get("title"), None);

    // A failed pre-flight restores the edits unless new ones were made.
    let kept = s.pending.len();
    let out = PushOutcome::Error { message: "offline".into(), pending: Vec::new(), comments: vec![PendingComment::Delete { comment_id: 1 }] };
    let r = settle_push(out, Some(1002), &mut s.pending, &mut s.comments, &mut s.marks);
    assert_eq!(r.status, "push failed: offline");
    assert_eq!(s.pending.len(), kept);
    assert_eq!(s.comments.len(), 1);
}

#[test]
fn edit_requests_seed_the_editor() {
    let mut s = Session::open(1001);
    match field_edit_request("notes", &s.marks, &s.pending, &s.current) {
        Some(EditRequest::Editor(EditorRequest::Field { field, initial })) => {
            assert_eq!(field, "notes");
            assert_eq!(initial, s.item().notes);
        }
        _ => panic!("expected an editor request"),
    }
    s.marks.set("notes", FieldStatus::Conflicted);
    assert!(matches!(field_edit_request("notes", &s.marks, &s.pending, &s.current), Some(EditRequest::Resolve(_))));
    assert!(field_edit_request("notes", &s.marks, &s.pending, &None).is_none());

    let cid = s.item().comments[0].id;
    match comment_edit_request(&s.current, 0, &s.comments) {
        Some(EditorRequest::EditComment { comment_id, initial }) => {
            assert_eq!(comment_id, cid);
            assert_eq!(initial, s.item().comments[0].text);
        }
        _ => panic!("expected a comment edit"),
    }
    s.editor(EditorRequest::EditComment { comment_id: cid, initial: String::new() }, "newer");
    match comment_edit_request(&s.current, 0, &s.comments) {
        Some(EditorRequest::EditComment { initial, .. }) => assert_eq!(initial, "newer"),
        _ => panic!("expected a comment edit"),
    }
    assert!(comment_edit_request(&s.current, 5, &s.comments).is_none());
}

#[test]
fn field_editor_cursor_wraps() {
    let mut e = InfoEditor { id: 1, selected: 0, editing: None };
    e.nav(-1);
    assert_eq!(e.selected, 6);
    e.nav(1);
    assert_eq!(e.selected, 0);
    e.nav(9);
    assert_eq!(e.selected, 2);
}

#[test]
fn previews_fit_one_line() {
    assert_eq!(preview("a\nb", 20), "a ⏎ b");
    assert_eq!(preview("abcdef", 3), "abc…");
    assert_eq!(preview("abc", 3), "abc");
}

#[test]
fn report_links_use_the_work_item_address_prefix() {
    assert_eq!(
        work_item_url_prefix("contoso", "My Project").unwrap(),
        "https://dev.azure.com/contoso/My%20Project/_workitems/edit/"
    );
    assert_eq!(
        work_item_url_prefix("http://ado.local/coll//", "").unwrap(),
        "http://ado.local/coll/_workitems/edit/"
    );
    assert!(work_item_url_prefix("  ", "P").is_none());
}

#[test]
fn push_plan_lists_field_edits_then_comment_changes() {
    let pending = vec![PendingEdit { field: "title", base: "a".into(), base_rev: 1, value: "b".into() }];
    let comments = vec![
        PendingComment::Add { author: "me".into(), text: "hi".into() },
        PendingComment::Delete { comment_id: 3 },
    ];
    let plan = push_plan(1002, &pending, &comments);
    assert_eq!(plan.len(), 3);
    match &plan[0] {
        ClientCall::UpdateField { id, field, value } => {
            assert_eq!((*id, *field, value.as_str()), (1002, "title", "b"));
        }
        _ => panic!("field edit first"),
    }
    match &plan[1] {
        ClientCall::AddComment { id, author, text } => {
            assert_eq!((*id, author.as_str(), text.as_str()), (1002, "me", "hi"));
        }
        _ => panic!("then the added comment"),
    }
    assert!(matches!(plan[2], ClientCall::DeleteComment { id: 1002, comment_id: 3 }));
}

#[test]
fn tally_counts_failed_writes() {
    assert_eq!(tally(&vec![true, false, false, true]), 2);
    assert_eq!(tally(&Vec::new()), 0);
}

#[test]
fn forced_push_counts_failed_writes() {
    let mut c = MockClient::new();
    // An unknown field fails on the server; the known one succeeds.
    let pending = vec![
        PendingEdit { field: "title", base: "x".into(), base_rev: 1, value: "new".into() },
        PendingEdit { field: "bogus", base: "".into(), base_rev: 1, value: "v".into() },
    ];
    match run_push(&mut c, 1002, pending, Vec::new(), true) {
        PushOutcome::Done { id, total, failed } => assert_eq!((id, total, failed), (1002, 2, 1)),
        _ => panic!("a forced push uploads"),
    }
    assert_eq!(c.get(1002).unwrap().title, "new");
}

#[test]
fn pane_marks_rank_conflict_over_pending_over_update() {
    let mut marks = FieldMarks::new();
    let mut pending: Vec<PendingEdit> = Vec::new();
    let info = vec!["title", "state", "tags"];
    assert_eq!(pane_mark(&marks, &pending, &info), PaneMark::Plain);
    marks.set("tags", FieldStatus::Updated);
    assert_eq!(pane_mark(&marks, &pending, &info), PaneMark::Updated);
    pending.push(PendingEdit { field: "state", base: "New".into(), base_rev: 1, value: "Active".into() });
    assert_eq!(pane_mark(&marks, &pending, &info), PaneMark::Pending);
    marks.set("title", FieldStatus::Conflicted);
    assert_eq!(pane_mark(&marks, &pending, &info), PaneMark::Conflicted);
    // One field alone: its own mark.
    assert_eq!(pane_mark(&marks, &pending, &vec!["tags"]), PaneMark::Updated);
    assert_eq!(pane_mark(&marks, &pending, &vec!["notes"]), PaneMark::Plain);
}
