use lazyaz::api::azure::{days_from_civil, days_since_on, strip_html};
use lazyaz::api::mock::MockClient;
use lazyaz::api::models::{Date, Timeframe, WorkItemFilter, WorkItemState};
use lazyaz::api::WorkItemClient;
use lazyaz::app::{
    detect_conflicts, editable_fields, item_field_value, run_push, DetailFocus, FieldKind,
    FuzzyFilter, PendingComment, PendingEdit, PushOutcome, Tab,
};
use lazyaz::auth::mock::MockAuthenticator;
use lazyaz::auth::pat::PatAuthenticator;
use lazyaz::auth::{AuthScheme, AuthState, Authenticator};
use lazyaz::config::{Config, SessionState};
use lazyaz::keys::{bindings_for, Context};
use lazyaz::ui::input::{KeyCode, KeyEvent, TextInput};

#[test]
fn tabs_have_titles_and_bar_positions() {
    assert_eq!(Tab::default(), Tab::WorkItems);
    assert_eq!(Tab::WorkItems.index(), 0);
    assert_eq!(Tab::Detail.index(), 1);
    assert_eq!(Tab::Tree.index(), 2);
    assert_eq!(Tab::Config.index(), 3);
    assert_eq!(Tab::WorkItems.title(), "Work Items");
    assert_eq!(Tab::Tree.title(), "Tree");
}

#[test]
fn detail_focus_cycles_both_ways() {
    assert_eq!(DetailFocus::Info.step(1), DetailFocus::Description);
    assert_eq!(DetailFocus::Relations.step(1), DetailFocus::Info);
    assert_eq!(DetailFocus::Info.step(-1), DetailFocus::Relations);
    assert_eq!(DetailFocus::Notes.step(5), DetailFocus::Notes);
    assert_eq!(DetailFocus::Comments.step(-7), DetailFocus::Description);
}

#[test]
fn editable_fields_in_display_order() {
    let f = editable_fields();
    let keys: Vec<&str> = f.iter().map(|e| e.key).collect();
    assert_eq!(keys, vec!["title", "state", "assignee", "iteration", "tags", "description", "notes"]);
    assert_eq!(f[1].kind, FieldKind::State);
    assert_eq!(f[4].kind, FieldKind::Tags);
}

#[test]
fn fuzzy_filter_terms_and_matching() {
    let mut f = FuzzyFilter::new();
    assert!(!f.active() && !f.searching());
    assert!(f.matches("anything"));
    f.open();
    assert!(f.searching() && f.input_is_empty());
    {
        let inp = f.input.as_mut().unwrap();
        for c in "wiql".chars() {
            inp.handle(KeyEvent::plain(KeyCode::Char(c)));
        }
    }
    assert!(f.active());
    assert!(f.matches("Wire WIQL query"));
    assert!(!f.matches("Render detail pane"));
    f.commit();
    assert!(!f.searching());
    assert_eq!(f.tags, vec!["wiql".to_string()]);
    assert_eq!(f.terms(), vec!["wiql".to_string()]);
    f.open();
    f.cancel();
    assert_eq!(f.tags.len(), 1);
    assert!(f.active());
}

#[test]
fn item_field_values_read_each_field() {
    let c = MockClient::new();
    let w = c.get(1001).unwrap();
    assert_eq!(item_field_value(&w, "title"), "Epic: Terminal-first Azure DevOps workflow");
    assert_eq!(item_field_value(&w, "state"), "Active");
    assert_eq!(item_field_value(&w, "tags"), "tui, dx");
    assert_eq!(item_field_value(&w, "iteration"), "Sprint 24");
    assert_eq!(item_field_value(&w, "unknown"), "Umbrella for the lazyaz TUI initiative.");
}

fn edit(field: &'static str, base: &str, base_rev: u32, value: &str) -> PendingEdit {
    PendingEdit { field, base: base.to_string(), base_rev, value: value.to_string() }
}

#[test]
fn conflicts_need_a_newer_revision_and_a_third_value() {
    let c = MockClient::new();
    let mut w = c.get(1003).unwrap();
    w.rev = 5;
    w.title = "server title".into();
    let pending = vec![
        edit("title", "old title", 4, "my title"),       // diverged
        edit("title", "server title", 4, "my title"),    // server kept the base
        edit("title", "old title", 5, "my title"),       // same revision
        edit("title", "old title", 4, "server title"),   // server already agrees
    ];
    let cs = detect_conflicts(&w, &pending);
    assert_eq!(cs.len(), 1);
    assert_eq!(cs[0].field, "title");
    assert_eq!(cs[0].base, "old title");
    assert_eq!(cs[0].local, "my title");
    assert_eq!(cs[0].remote, "server title");
}

#[test]
fn push_uploads_and_reports_conflicts() {
    let mut c = MockClient::new();
    // A clean push: base revision matches the server.
    let pending = vec![edit("notes", "Stakeholders: DX guild.", 1, "new notes")];
    let comments = vec![PendingComment::Add { author: "me".into(), text: "hi".into() }];
    match run_push(&mut c, 1001, pending, comments, false) {
        PushOutcome::Done { id, total, failed } => {
            assert_eq!((id, total, failed), (1001, 2, 0));
        }
        _ => panic!("expected Done"),
    }
    let w = c.get(1001).unwrap();
    assert_eq!(w.notes, "new notes");
    assert_eq!(w.comments.len(), 2);
    assert_eq!(w.comments[1].id, 2);
    assert_eq!(w.rev, 3);

    // A teammate edits the description; our edit was based on rev 1.
    c.simulate_remote_edit(1001).unwrap();
    let stale = vec![edit("description", "Umbrella for the lazyaz TUI initiative.", 1, "mine")];
    match run_push(&mut c, 1001, stale, Vec::new(), false) {
        PushOutcome::Conflicts { id, conflicts, pending, .. } => {
            assert_eq!(id, 1001);
            assert_eq!(conflicts.len(), 1);
            assert!(conflicts[0].remote.starts_with("[edited by teammate] "));
            assert_eq!(pending.len(), 1);
        }
        _ => panic!("expected Conflicts"),
    }
    // Forcing skips the check and uploads.
    let forced = vec![edit("description", "x", 1, "mine")];
    assert!(matches!(run_push(&mut c, 1001, forced, Vec::new(), true), PushOutcome::Done { total: 1, failed: 0, .. }));
    assert_eq!(c.get(1001).unwrap().description, "mine");
    // A missing item fails the pre-flight fetch.
    match run_push(&mut c, 4242, Vec::new(), Vec::new(), false) {
        PushOutcome::Error { message, .. } => assert_eq!(message, "work item 4242 not found"),
        _ => panic!("expected Error"),
    }
    // Failed uploads are counted.
    let bad = vec![edit("bogus", "", 0, "v")];
    let del = vec![PendingComment::Delete { comment_id: 77 }];
    assert!(matches!(run_push(&mut c, 1002, bad, del, true), PushOutcome::Done { total: 2, failed: 2, .. }));
}

#[test]
fn mock_updates_fields_and_comments() {
    let mut c = MockClient::new();
    c.update_field(1002, "tags", " a, ,b ,c").unwrap();
    assert_eq!(c.get(1002).unwrap().tags, vec!["a".to_string(), "b".to_string(), "c".to_string()]);
    c.update_field(1002, "state", "Done").unwrap();
    let w = c.get(1002).unwrap();
    assert_eq!(w.state_name, "Done");
    assert_eq!(w.state, WorkItemState::Closed);
    assert_eq!(w.changed_days_ago, 0);
    let err = c.update_field(1002, "priority", "1").unwrap_err();
    assert_eq!(err.message, "field 'priority' is not editable in the skeleton");
    c.update_comment(1001, 1, "edited").unwrap();
    let w = c.get(1001).unwrap();
    assert_eq!(w.comments[0].text, "edited");
    assert_eq!(w.comments[0].when, "just now (edited)");
    let err = c.update_comment(1001, 9, "x").unwrap_err();
    assert_eq!(err.message, "comment 9 not found on #1001");
    c.delete_comment(1001, 1).unwrap();
    assert!(c.get(1001).unwrap().comments.is_empty());
    assert!(c.delete_comment(1001, 1).is_err());
}

#[test]
fn mock_lists_canned_data() {
    let c = MockClient::new();
    let its = c.list_iterations();
    assert_eq!(its.len(), 3);
    assert!(its[1].is_current && its[1].name == "Sprint 24");
    assert_eq!(c.list_projects("org").len(), 5);
    assert_eq!(
        c.list_tags(),
        vec!["done", "dx", "read", "stretch", "tui", "write"].into_iter().map(String::from).collect::<Vec<_>>()
    );
    assert_eq!(c.list_states("Task"), vec!["New", "Active", "Resolved", "Closed"]);
    let all = WorkItemFilter { timeframe: Timeframe::default(), iterations: Vec::new(), item_types: Vec::new() };
    assert_eq!(c.list_assigned(&all).unwrap().len(), 5);
    let recent = WorkItemFilter {
        timeframe: Timeframe { from: Some(Date::today().add_days(-1)), to: None },
        iterations: Vec::new(),
        item_types: Vec::new(),
    };
    let ids: Vec<u32> = c.list_assigned(&recent).unwrap().iter().map(|w| w.id).collect();
    assert_eq!(ids, vec![1002, 1004]);
}

#[test]
fn auth_headers_per_scheme() {
    let bearer = AuthState { account: "a".into(), token: "tok".into(), scheme: AuthScheme::Bearer };
    assert_eq!(bearer.header(), "Bearer tok");
    let pat = AuthState { account: "a".into(), token: "secret".into(), scheme: AuthScheme::BasicPat };
    // base64(":secret")
    assert_eq!(pat.header(), "Basic OnNlY3JldA==");
}

#[test]
fn authenticators_hold_their_state() {
    let mut m = MockAuthenticator::new();
    assert_eq!(m.token(), None);
    let s = m.login().unwrap();
    assert_eq!(s.token, "mock-token");
    assert_eq!(m.account(), Some("you@example.com".to_string()));
    assert_eq!(m.list_orgs().len(), 4);
    m.logout();
    assert_eq!(m.token(), None);
    let mut p = PatAuthenticator::new(AuthState { account: "me".into(), token: "t".into(), scheme: AuthScheme::BasicPat });
    assert_eq!(p.login().unwrap().token, "t");
    p.logout();
    assert_eq!(p.token(), Some("t".to_string()));
    assert!(p.list_orgs().is_empty());
}

#[test]
fn config_completeness_needs_org_and_project() {
    let mut c = Config::new();
    assert!(!c.is_complete());
    c.org_url = "https://dev.azure.com/acme".into();
    c.project = "   ".into();
    assert!(!c.is_complete());
    c.project = "Widgets".into();
    assert!(c.is_complete());
    let s = SessionState::new();
    assert_eq!(s.tab, Tab::WorkItems);
}

#[test]
fn html_fields_become_plain_text() {
    assert_eq!(strip_html("<div>Hello&nbsp;<b>world</b> &amp; co &lt;3</div>  "), "Hello world & co <3");
    assert_eq!(strip_html("a &gt; b"), "a > b");
    assert_eq!(strip_html("<p></p>"), "");
}

#[test]
fn civil_days_and_ages() {
    assert_eq!(days_from_civil(1970, 1, 1), 0);
    assert_eq!(days_from_civil(2000, 3, 1), 11017);
    assert_eq!(days_from_civil(1969, 12, 31), -1);
    let today = days_from_civil(2024, 3, 10);
    assert_eq!(days_since_on("2024-03-01T12:00:00Z", today), 9);
    assert_eq!(days_since_on("2024-03-20", today), 0);
    assert_eq!(days_since_on("garbage", today), 0);
}

#[test]
fn help_lists_global_and_context_bindings() {
    let b = bindings_for(Context::Wizard);
    assert_eq!(b.len(), 7);
    assert!(b.iter().all(|x| x.ctx == Context::Global || x.ctx == Context::Wizard));
    assert_eq!(b[5].keys, "Enter");
}

#[test]
fn text_input_clone_keeps_state() {
    let t = TextInput::new("abc");
    let u = t.clone();
    assert_eq!(u.value(), "abc");
    assert_eq!(u.cursor(), 3);
}
