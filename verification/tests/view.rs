use lazyaz::api::azure::{
    field_ref, ids_csv, notes_field_ref, parse_comment, server_value, wiql_query,
    work_item_from_raw, FieldInfo, RawComment, RawRelation, RawWorkItem,
};
use lazyaz::api::mock::MockClient;
use lazyaz::api::models::{Date, Timeframe, WorkItemFilter, WorkItemState};
use lazyaz::api::WorkItemClient;
use lazyaz::app::{HelpExit, HelpState, Tab, WizardState};
use lazyaz::auth::mock::MockAuthenticator;
use lazyaz::auth::Authenticator;
use lazyaz::ui::picker::Picker;
use lazyaz::auth::oauth::{
    cache_fresh, expiry, first_interval, next_interval, poll_step, rotated_refresh, sign_in_message,
    token_plan, PollStep, TokenPlan, TokenReply,
};
use lazyaz::config::{Config, SessionState};
use lazyaz::event::{
    dialog_key, info_editor_key, resolution_key, route_key, Modals, Route, WindowKey,
};
use lazyaz::filters::{ListFilters, RefreshGate};
use lazyaz::keys::{help_matches, Action, Context};
use lazyaz::ui::input::{KeyCode, KeyEvent};
use lazyaz::view::{
    context_of, items_status, jump_in_list, jump_in_pane, move_in_list, move_in_pane, push_done_message,
    related_ids, restored_cursor, switches_item, wizard_move, Overlays, WizardMove,
};

fn no_overlays() -> Overlays {
    Overlays {
        resolution: false,
        iteration_picker: false,
        date_range: false,
        type_picker: false,
        field_picker: false,
        info_editor: false,
        wizard: false,
    }
}

fn no_modals() -> Modals {
    Modals {
        resolution: false,
        tags_editor: false,
        state_picker: false,
        iteration_picker: false,
        date_range: false,
        type_picker: false,
        yank_menu: false,
        info_editor: false,
        help: false,
        wizard: false,
        insert: false,
    }
}

#[test]
fn timeframe_and_iteration_filters_are_mutually_exclusive() {
    let window = Timeframe { from: Some(Date::today()), to: None };
    let mut f = ListFilters::new();
    f.set_timeframe(window);
    assert_eq!(f.timeframe, window);
    f.commit_iterations(vec!["Proj\\Sprint 24".into()]);
    assert_eq!(f.selected_iterations, vec!["Proj\\Sprint 24".to_string()]);
    assert!(f.timeframe.is_empty(), "iteration filter clears timeframe");
    f.set_timeframe(window);
    assert_eq!(f.timeframe, window);
    assert!(f.selected_iterations.is_empty(), "timeframe clears iterations");
    f.selected_iterations = vec!["Proj\\Sprint 24".into()];
    f.set_timeframe(Timeframe::default());
    assert_eq!(f.selected_iterations, vec!["Proj\\Sprint 24".to_string()]);
}

#[test]
fn type_default_not_applied_in_sync_path() {
    let f = ListFilters::new();
    assert!(f.item_types.is_empty());
}

#[test]
fn type_default_applies_on_first_async_load() {
    let mut f = ListFilters::new();
    assert!(f.default_types_once());
    assert_eq!(f.item_types, vec!["User Story".to_string(), "Feature".to_string()]);
    assert!(f.item_types_initialized);
    // Only once: an explicit choice is never overwritten.
    f.commit_types(vec!["Task".into()]);
    assert!(!f.default_types_once());
    assert_eq!(f.item_types, vec!["Task".to_string()]);
}

#[test]
fn first_iterations_default_to_the_current_sprint() {
    let client = MockClient::new();
    let mut f = ListFilters::new();
    assert!(f.adopt_iterations(client.list_iterations()));
    assert_eq!(f.selected_iterations, vec!["Sprint 24".to_string()]);
    assert_eq!(f.iterations.len(), 3);
    // Later arrivals keep the selection.
    f.commit_iterations(Vec::new());
    assert!(!f.adopt_iterations(client.list_iterations()));
    assert!(f.selected_iterations.is_empty());
    let q = f.filter();
    assert_eq!(q.timeframe, f.timeframe);
}

#[test]
fn restored_filters_are_respected() {
    let mut s = SessionState::new();
    s.selected_iterations = vec!["Sprint 23".into()];
    let mut f = ListFilters::new();
    f.restore(&s);
    assert_eq!(f.selected_iterations, vec!["Sprint 23".to_string()]);
    assert!(f.item_types.is_empty());
    assert!(!f.default_types_once());
}

#[test]
fn iteration_picker_routes_through_context() {
    let mut o = no_overlays();
    o.iteration_picker = true;
    assert_eq!(context_of(&o, Tab::WorkItems), Context::IterationFilter);
    o.iteration_picker = false;
    assert_ne!(context_of(&o, Tab::WorkItems), Context::IterationFilter);
}

#[test]
fn type_picker_routes_through_context() {
    let mut o = no_overlays();
    o.type_picker = true;
    assert_eq!(context_of(&o, Tab::WorkItems), Context::TypeFilter);
    o.type_picker = false;
    assert_ne!(context_of(&o, Tab::WorkItems), Context::TypeFilter);
}

#[test]
fn opening_timeframe_filter_routes_through_context() {
    let mut o = no_overlays();
    o.date_range = true;
    assert_eq!(context_of(&o, Tab::WorkItems), Context::IterationFilter);
}

#[test]
fn context_follows_overlays_then_tab() {
    let mut o = no_overlays();
    assert_eq!(context_of(&o, Tab::Tree), Context::Tree);
    assert_eq!(context_of(&o, Tab::Detail), Context::Detail);
    o.wizard = true;
    assert_eq!(context_of(&o, Tab::Tree), Context::Wizard);
    o.info_editor = true;
    assert_eq!(context_of(&o, Tab::Tree), Context::InfoEditor);
    o.resolution = true;
    assert_eq!(context_of(&o, Tab::Tree), Context::Conflict);
}

#[test]
fn config_edit_updates_in_memory() {
    let mut o = no_overlays();
    o.wizard = false;
    let tab = Tab::at(3).unwrap();
    assert_eq!(context_of(&o, tab), Context::Config);
    let mut c = Config::new();
    c.set_field(1, "NewProject".into());
    assert_eq!(c.project, "NewProject");
    assert_eq!(c.field_value(1), "NewProject");
    assert_eq!(c.field_value(0), "");
}

#[test]
fn tabs_cycle_and_index() {
    assert_eq!(Tab::WorkItems.cycled(1), Tab::Detail);
    assert_eq!(Tab::WorkItems.cycled(-1), Tab::Config);
    assert_eq!(Tab::Config.cycled(1), Tab::WorkItems);
    assert_eq!(Tab::at(2), Some(Tab::Tree));
    assert_eq!(Tab::at(4), None);
}

#[test]
fn selections_move_and_clamp() {
    assert_eq!(move_in_list(None, 1, 3), Some(1));
    assert_eq!(move_in_list(Some(2), 1, 3), Some(2));
    assert_eq!(move_in_list(Some(0), -1, 3), Some(0));
    assert_eq!(move_in_list(Some(5), 0, 0), Some(5));
    assert_eq!(jump_in_list(Some(1), isize::MAX, 4), Some(3));
    assert_eq!(jump_in_list(None, 0, 0), None);
    assert_eq!(move_in_pane(0, 1, 0), 0);
    assert_eq!(move_in_pane(1, 1, 3), 2);
    assert_eq!(jump_in_pane(2, 0, 3), 0);
    assert_eq!(restored_cursor(7, 3), 2);
    assert_eq!(restored_cursor(1, 3), 1);
    assert_eq!(restored_cursor(4, 0), 0);
}

#[test]
fn related_ids_list_parent_then_children() {
    let client = MockClient::new();
    let story = client.get(1002).unwrap();
    assert_eq!(related_ids(&Some(story.clone())), vec![1001, 1004, 1005]);
    let epic = client.get(1001).unwrap();
    assert_eq!(related_ids(&Some(epic)), vec![1002, 1003]);
    assert!(related_ids(&None).is_empty());
    assert!(!switches_item(&Some(story.clone()), 1002));
    assert!(switches_item(&Some(story), 1001));
    assert!(switches_item(&None, 1));
}

#[test]
fn wizard_steps() {
    match wizard_move(0, Some("acme".into()), None) {
        WizardMove::FetchProjects(o) => assert_eq!(o, "acme"),
        _ => panic!("expected a project fetch"),
    }
    assert!(matches!(wizard_move(0, None, None), WizardMove::Stay));
    assert!(matches!(wizard_move(1, None, Some("W".into())), WizardMove::Advance(2)));
    assert!(matches!(wizard_move(1, Some("a".into()), None), WizardMove::Stay));
    match wizard_move(2, Some("acme".into()), Some("Widgets".into())) {
        WizardMove::Finish { org_url, project } => {
            assert_eq!(org_url, "https://dev.azure.com/acme");
            assert_eq!(project, "Widgets");
        }
        _ => panic!("expected the end of the wizard"),
    }
}

#[test]
fn list_status_line() {
    assert_eq!(items_status(5, Timeframe::default()), format!("5 item(s) · timeframe: {}", Timeframe::default().label()));
}

#[test]
fn push_status_lines() {
    assert_eq!(push_done_message(1002, 3, 0), "pushed 3 change(s) to #1002");
    assert_eq!(push_done_message(7, 3, 1), "pushed 2 change(s); 1 failed");
}

#[test]
fn keys_route_to_the_topmost_window() {
    let ctrl_c = KeyEvent::ctrl('c');
    let j = KeyEvent::plain(KeyCode::Char('j'));
    let mut m = no_modals();
    assert_eq!(route_key(&m, j), Route::Normal);
    m.insert = true;
    assert_eq!(route_key(&m, j), Route::Insert);
    m.help = true;
    assert_eq!(route_key(&m, j), Route::Help);
    m.tags_editor = true;
    assert_eq!(route_key(&m, j), Route::TagsEditor);
    m.resolution = true;
    assert_eq!(route_key(&m, j), Route::Resolution);
    assert_eq!(route_key(&m, ctrl_c), Route::Quit);
}

#[test]
fn window_keys() {
    let k = |c| KeyEvent::plain(c);
    assert_eq!(info_editor_key(false, k(KeyCode::Char('j'))), WindowKey::Down);
    assert_eq!(info_editor_key(false, k(KeyCode::Char('l'))), WindowKey::Accept);
    assert_eq!(info_editor_key(false, k(KeyCode::Char('x'))), WindowKey::Ignore);
    assert_eq!(info_editor_key(true, k(KeyCode::Char('j'))), WindowKey::Input);
    assert_eq!(info_editor_key(true, k(KeyCode::Esc)), WindowKey::Dismiss);
    assert_eq!(resolution_key(k(KeyCode::Char('m'))), WindowKey::Merge);
    assert_eq!(resolution_key(k(KeyCode::Char('f'))), WindowKey::Force);
    assert_eq!(resolution_key(k(KeyCode::Up)), WindowKey::Up);
    assert_eq!(dialog_key(k(KeyCode::Enter)), WindowKey::Accept);
    assert_eq!(dialog_key(k(KeyCode::Char('a'))), WindowKey::Input);
}

#[test]
fn help_popup_filters_and_runs_bindings() {
    let all = help_matches(Context::Tree, "");
    assert!(all.iter().any(|b| b.action == Action::TreeExpand));
    assert!(all.iter().any(|b| b.action == Action::Quit));
    assert!(!all.iter().any(|b| b.ctx == Context::Detail));
    let quit = help_matches(Context::Tree, "quit");
    assert_eq!(quit[0].action, Action::Quit);

    let mut h = HelpState::new();
    assert_eq!(h.handle(KeyEvent::plain(KeyCode::Down), &all), None);
    assert_eq!(h.selected, 1);
    assert_eq!(h.handle(KeyEvent::ctrl('p'), &all), None);
    assert_eq!(h.selected, 0);
    assert_eq!(h.handle(KeyEvent::plain(KeyCode::Enter), &all), Some(HelpExit::Run(all[0].action)));
    assert_eq!(h.handle(KeyEvent::plain(KeyCode::Esc), &all), Some(HelpExit::Close));
    // Typing narrows the query and returns the highlight to the top.
    h.selected = 2;
    for c in "quit".chars() {
        h.handle(KeyEvent::plain(KeyCode::Char(c)), &all);
    }
    assert_eq!(h.selected, 0);
    assert_eq!(h.input.value(), "quit");
    // Tab copies the highlighted description into the query.
    h.handle(KeyEvent::plain(KeyCode::Tab), &quit);
    assert_eq!(h.input.value(), quit[0].desc);
}

fn raw(id: u64) -> RawWorkItem {
    RawWorkItem {
        id: Some(id),
        rev: Some(4),
        title: "Title".into(),
        item_type: "Task".into(),
        state: "Active".into(),
        assigned_to: "Ann".into(),
        iteration: "Proj\\Sprint 1".into(),
        description: "<p>Hello &amp; bye</p>".into(),
        notes: "".into(),
        tags: "a; b ;;c".into(),
        changed_date: "2024-01-02T10:00:00Z".into(),
        story_points: Some(25),
        relations: vec![
            RawRelation {
                rel: "System.LinkTypes.Hierarchy-Reverse".into(),
                url: "https://dev.azure.com/o/_apis/wit/workItems/10".into(),
            },
            RawRelation {
                rel: "System.LinkTypes.Hierarchy-Forward".into(),
                url: "https://dev.azure.com/o/_apis/wit/workItems/12".into(),
            },
            RawRelation { rel: "ArtifactLink".into(), url: "vstfs:///Git/PullRequestId/5".into() },
            RawRelation {
                rel: "System.LinkTypes.Hierarchy-Forward".into(),
                url: "https://dev.azure.com/o/_apis/wit/workItems/13".into(),
            },
            RawRelation {
                rel: "System.LinkTypes.Hierarchy-Forward".into(),
                url: "https://dev.azure.com/o/_apis/wit/workItems/x".into(),
            },
        ],
    }
}

#[test]
fn server_records_become_work_items() {
    let w = work_item_from_raw(&raw(11), 3);
    assert_eq!(w.id, 11);
    assert_eq!(w.rev, 4);
    assert_eq!(w.state, WorkItemState::Active);
    assert_eq!(w.state_name, "Active");
    assert_eq!(w.description, "Hello & bye");
    assert_eq!(w.tags, vec!["a".to_string(), "b".to_string(), "c".to_string()]);
    assert_eq!(w.parent, Some(10));
    assert_eq!(w.children, vec![12, 13]);
    assert_eq!(w.changed_days_ago, 3);
    assert_eq!(w.story_points, Some(25));
    let mut r = raw(1);
    r.id = None;
    r.rev = None;
    r.state = "Committed".into();
    r.relations.clear();
    let w = work_item_from_raw(&r, 0);
    assert_eq!((w.id, w.rev), (0, 1));
    assert_eq!(w.state, WorkItemState::New);
    assert_eq!(w.state_name, "Committed");
    assert_eq!(w.parent, None);
    assert!(w.children.is_empty());
    // An id beyond 32 bits wraps, as a cast does.
    let mut r = raw(1);
    r.id = Some((1u64 << 32) + 5);
    assert_eq!(work_item_from_raw(&r, 0).id, 5);
}

#[test]
fn server_comments_become_plain_text() {
    let c = parse_comment(&RawComment {
        id: Some(3),
        author: "Ann".into(),
        when: "2024-01-01".into(),
        text: "<div>ok &lt;3</div>".into(),
    });
    assert_eq!(c.id, 3);
    assert_eq!(c.text, "ok <3");
    assert_eq!(c.author, "Ann");
}

#[test]
fn field_references_and_values_for_the_server() {
    assert_eq!(field_ref("title", "Custom.Notes"), Some("System.Title".to_string()));
    assert_eq!(field_ref("notes", "Custom.Notes"), Some("Custom.Notes".to_string()));
    assert_eq!(field_ref("iteration", "Custom.Notes"), Some("System.IterationPath".to_string()));
    assert_eq!(field_ref("owner", "Custom.Notes"), None);
    assert_eq!(server_value("tags", "a, b,c"), "a; b;c");
    assert_eq!(server_value("title", "a, b"), "a, b");
}

fn field(name: &str, reference: &str) -> FieldInfo {
    FieldInfo { name: name.to_string(), reference: reference.to_string() }
}

#[test]
fn notes_field_is_found_by_name_with_a_fallback() {
    let fields = vec![
        field("Title", "System.Title"),
        field("notes", "Custom.Notes"),
        field("Notes", "Other.Notes"),
    ];
    assert_eq!(notes_field_ref(&fields), "Custom.Notes");
    assert_eq!(notes_field_ref(&vec![field("Title", "System.Title")]), "System.Notes");
    assert_eq!(notes_field_ref(&Vec::new()), "System.Notes");
}

#[test]
fn wiql_and_batch_ids() {
    let f = WorkItemFilter::default();
    assert_eq!(
        wiql_query(&f),
        "SELECT [System.Id] FROM WorkItems WHERE [System.AssignedTo] = @Me ORDER BY [System.ChangedDate] DESC"
    );
    let f = WorkItemFilter {
        timeframe: Timeframe { from: Some(Date::new(2024, 1, 1)), to: None },
        iterations: Vec::new(),
        item_types: Vec::new(),
    };
    let q = wiql_query(&f);
    assert!(q.contains(" AND ") && q.contains("2024-01-01") && q.ends_with("DESC"));
    assert_eq!(ids_csv(&vec![1, 22, 333]), "1,22,333");
    assert_eq!(ids_csv(&Vec::new()), "");
    let many: Vec<u64> = (0..250).collect();
    let csv = ids_csv(&many);
    assert_eq!(csv.split(',').count(), 200);
    assert!(csv.ends_with(",199"));
}

#[test]
fn device_sign_in_polling_decisions() {
    let reply = |t: Option<&str>, e: Option<&str>| TokenReply {
        access_token: t.map(String::from),
        expires_in: None,
        error: e.map(String::from),
    };
    match poll_step(reply(Some("tok"), None)) {
        PollStep::Done(t, secs) => {
            assert_eq!(t, "tok");
            assert_eq!(secs, 3600);
        }
        _ => panic!("expected a token"),
    }
    assert!(matches!(poll_step(reply(None, Some("authorization_pending"))), PollStep::Wait));
    let slow = poll_step(reply(None, Some("slow_down")));
    assert!(matches!(slow, PollStep::SlowDown));
    assert_eq!(next_interval(5, &slow), 10);
    assert_eq!(next_interval(5, &PollStep::Wait), 5);
    assert_eq!(next_interval(u64::MAX, &slow), u64::MAX);
    match poll_step(reply(None, Some("expired_token"))) {
        PollStep::Fail(m) => assert_eq!(m, "sign-in failed: expired_token"),
        _ => panic!("expected a failure"),
    }
    match poll_step(reply(None, None)) {
        PollStep::Fail(m) => assert_eq!(m, "unexpected token response"),
        _ => panic!("expected a failure"),
    }
    assert_eq!(first_interval(0), 1);
    assert_eq!(first_interval(7), 7);
    assert_eq!(
        sign_in_message(None, "https://microsoft.com/devicelogin", "ABC"),
        "To sign in, open https://microsoft.com/devicelogin and enter code ABC"
    );
    assert_eq!(sign_in_message(Some("Go there".into()), "u", "c"), "Go there");
    assert!(cache_fresh(1000, 900));
    assert!(!cache_fresh(1000, 940));
    assert!(!cache_fresh(5, u64::MAX));
    assert_eq!(expiry(10, 3600), 3610);
    assert_eq!(expiry(u64::MAX, 1), u64::MAX);
}

#[test]
fn start_up_reuses_renews_or_signs_in() {
    assert_eq!(token_plan(false, true, true), TokenPlan::Reuse);
    assert_eq!(token_plan(false, false, true), TokenPlan::Renew);
    assert_eq!(token_plan(false, false, false), TokenPlan::SignIn);
    // --login signs in even with a usable token.
    assert_eq!(token_plan(true, true, true), TokenPlan::SignIn);
    assert_eq!(
        rotated_refresh(Some("new".to_string()), Some("old".to_string())),
        Some("new".to_string())
    );
    assert_eq!(rotated_refresh(None, Some("old".to_string())), Some("old".to_string()));
    assert_eq!(rotated_refresh(None, None), None);
}

#[test]
fn iteration_filter_restricts_list_to_selected_sprint() {
    let client = MockClient::new();
    let mut f = ListFilters::new();
    // The real flow, where the iterations are already loaded.
    f.adopt_iterations(client.list_iterations());
    // The canned items all live in "Sprint 24"; selecting "Sprint 25" hides them.
    let sprint25 = f.iterations.iter().find(|i| i.name == "Sprint 25").unwrap().path.clone();
    f.commit_iterations(vec![sprint25]);
    assert!(client.list_assigned(&f.filter()).unwrap().is_empty());
    // Switching to the current sprint brings them back.
    let current = f.iterations.iter().find(|i| i.is_current).unwrap().path.clone();
    f.commit_iterations(vec![current]);
    assert!(!client.list_assigned(&f.filter()).unwrap().is_empty());
}

#[test]
fn type_filter_restricts_list_to_selected_types() {
    let client = MockClient::new();
    let mut f = ListFilters::new();
    // No type chosen: every type shows, including the Epic (1001).
    assert!(client.list_assigned(&f.filter()).unwrap().iter().any(|w| w.item_type == "Epic"));
    // Selecting only "Task" hides everything that isn't a Task.
    f.commit_types(vec!["Task".into()]);
    let items = client.list_assigned(&f.filter()).unwrap();
    assert!(!items.is_empty());
    assert!(items.iter().all(|w| w.item_type == "Task"));
    // Clearing the selection brings everything back.
    f.commit_types(Vec::new());
    assert!(client.list_assigned(&f.filter()).unwrap().iter().any(|w| w.item_type == "Epic"));
}

#[test]
fn empty_config_starts_fzf_wizard() {
    // An empty configuration cannot reach a backend: the wizard opens on its
    // first step, with the signed-in user's organisations to pick from.
    assert!(!Config::new().is_complete());
    let auth = MockAuthenticator::new();
    let w = WizardState { step: 0, org: Picker::new(auth.list_orgs()), project: Picker::new(Vec::new()) };
    assert_eq!(w.step, 0);
    assert!(!w.org.options.is_empty());
    let mut o = no_overlays();
    o.wizard = true;
    assert_eq!(context_of(&o, Tab::WorkItems), Context::Wizard);
}

#[test]
fn refreshes_queue_behind_the_one_in_flight() {
    let mut g = RefreshGate::new();
    assert!(g.request());
    // A second request while loading is queued, not started.
    assert!(!g.request());
    assert!(g.queued);
    // The fetch comes back for the filter still in effect: used.
    let f = ListFilters::new().filter();
    assert!(g.arrived(&f, &f));
    assert!(!g.loading);
    // The queued request is issued once.
    assert!(g.next());
    assert!(!g.next());
    // A result for a filter that changed meanwhile is dropped.
    assert!(g.request());
    let mut other = ListFilters::new();
    other.commit_types(vec!["Task".into()]);
    assert!(!g.arrived(&f, &other.filter()));
}
