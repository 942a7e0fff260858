use lazyaz::api::models::{
    default_work_item_types, work_item_types, Date, Iteration, Timeframe, WorkItem, WorkItemState,
};
use lazyaz::ui::calendar::{CalResult, Calendar};
use lazyaz::ui::date_range::DateRangeInput;
use lazyaz::ui::fuzzy::rank_scores;
use lazyaz::ui::input::{KeyCode, KeyEvent, TextInput};
use lazyaz::ui::iteration_picker::IterationPicker;
use lazyaz::ui::picker::Picker;
use lazyaz::ui::tags_editor::TagsEditor;
use lazyaz::ui::tree::{connector_prefix, TreeRow};
use lazyaz::ui::type_filter::TypeFilter;
use lazyaz::ui::yank::{yank_text, YankKind, YankMenu};

fn key(code: KeyCode) -> KeyEvent {
    KeyEvent::plain(code)
}

fn ctrl(c: char) -> KeyEvent {
    KeyEvent::ctrl(c)
}

fn iter(name: &str, current: bool) -> Iteration {
    Iteration {
        path: format!("Proj\\{name}"),
        name: name.to_string(),
        is_current: current,
    }
}

// --- iteration picker ------------------------------------------------------

#[test]
fn cursor_starts_on_current_iteration() {
    // Chronological input: 22, 23, 24(current), 25, 26.
    let opts = vec![
        iter("Sprint 22", false),
        iter("Sprint 23", false),
        iter("Sprint 24", true),
        iter("Sprint 25", false),
        iter("Sprint 26", false),
    ];
    let picker = IterationPicker::new(opts, Vec::new());
    // Order preserved (chronological)…
    let names: Vec<&str> = picker.options.iter().map(|i| i.name.as_str()).collect();
    assert_eq!(
        names,
        vec!["Sprint 22", "Sprint 23", "Sprint 24", "Sprint 25", "Sprint 26"]
    );
    // …and the cursor sits on the current iteration.
    assert_eq!(picker.cursor, 2);
    assert!(picker.matches()[picker.cursor].is_current);
}

#[test]
fn cursor_defaults_to_zero_without_current() {
    let opts = vec![iter("Sprint 23", false), iter("Sprint 24", false)];
    let picker = IterationPicker::new(opts, Vec::new());
    assert_eq!(picker.cursor, 0);
}

#[test]
fn ctrl_n_p_and_arrows_navigate_the_list() {
    let opts = vec![iter("Sprint 23", true), iter("Sprint 24", false)];
    let mut picker = IterationPicker::new(opts, Vec::new());
    assert_eq!(picker.cursor, 0);
    picker.handle(ctrl('n'));
    assert_eq!(picker.cursor, 1);
    picker.handle(ctrl('p'));
    assert_eq!(picker.cursor, 0);
    picker.handle(key(KeyCode::Down));
    assert_eq!(picker.cursor, 1);
    picker.handle(key(KeyCode::Up));
    assert_eq!(picker.cursor, 0);
}

#[test]
fn tab_and_space_toggle_the_checkbox() {
    let opts = vec![iter("Sprint 23", true), iter("Sprint 24", false)];
    let mut p = IterationPicker::new(opts, Vec::new());
    // Cursor starts on the current iteration (Sprint 23).
    assert_eq!(p.handle(key(KeyCode::Tab)), None);
    assert!(p.is_selected("Proj\\Sprint 23"));
    // Space toggles it back off.
    assert_eq!(p.handle(key(KeyCode::Char(' '))), None);
    assert!(!p.is_selected("Proj\\Sprint 23"));
}

#[test]
fn enter_submits() {
    let opts = vec![iter("Sprint 23", true)];
    let mut p = IterationPicker::new(opts, Vec::new());
    assert_eq!(p.handle(key(KeyCode::Enter)), Some(true));
}

#[test]
fn iteration_picker_escape_cancels_and_value_is_selection() {
    let opts = vec![iter("Sprint 23", true), iter("Sprint 24", false)];
    let mut p = IterationPicker::new(opts, vec!["Proj\\Sprint 24".to_string()]);
    assert_eq!(p.handle(key(KeyCode::Esc)), Some(false));
    assert_eq!(p.value(), vec!["Proj\\Sprint 24".to_string()]);
}

#[test]
fn iteration_picker_refresh_recentres_when_empty_before() {
    let mut p = IterationPicker::new(Vec::new(), Vec::new());
    assert_eq!(p.cursor, 0);
    p.refresh_options(vec![iter("Sprint 1", false), iter("Sprint 2", true)]);
    assert_eq!(p.cursor, 1);
    p.cursor = 1;
    p.refresh_options(vec![iter("Sprint 1", false)]);
    assert_eq!(p.cursor, 0);
}

#[test]
fn iteration_picker_typing_filters_and_resets_cursor() {
    let opts = vec![iter("Alpha", false), iter("Beta", true), iter("Gamma", false)];
    let mut p = IterationPicker::new(opts, Vec::new());
    assert_eq!(p.cursor, 1);
    for c in "gam".chars() {
        p.handle(key(KeyCode::Char(c)));
    }
    assert_eq!(p.cursor, 0);
    let m = p.matches();
    assert_eq!(m.len(), 1);
    assert_eq!(m[0].name, "Gamma");
}

// --- type filter -----------------------------------------------------------

fn opts() -> Vec<String> {
    work_item_types()
}

#[test]
fn toggles_selection_with_space() {
    let mut f = TypeFilter::new(opts(), Vec::new());
    // Cursor starts on "Task".
    f.handle(key(KeyCode::Char(' ')));
    assert!(f.is_selected("Task"));
    f.handle(key(KeyCode::Char(' ')));
    assert!(!f.is_selected("Task"));
}

#[test]
fn defaults_round_trip() {
    let selected: Vec<String> = default_work_item_types();
    let f = TypeFilter::new(opts(), selected);
    assert!(f.is_selected("User Story"));
    assert!(f.is_selected("Feature"));
    assert!(!f.is_selected("Epic"));
}

#[test]
fn ctrl_n_p_navigate_and_tab_applies_when_empty() {
    let mut f = TypeFilter::new(opts(), Vec::new());
    f.handle(ctrl('n'));
    assert_eq!(f.cursor, 1);
    f.handle(ctrl('p'));
    assert_eq!(f.cursor, 0);
    assert_eq!(f.handle(key(KeyCode::Tab)), Some(true));
}

#[test]
fn tab_autocompletes_while_searching() {
    let mut f = TypeFilter::new(opts(), Vec::new());
    for c in "epi".chars() {
        f.handle(key(KeyCode::Char(c)));
    }
    assert_eq!(f.handle(key(KeyCode::Tab)), None);
    assert_eq!(f.input.value(), "Epic");
}

#[test]
fn type_filter_selection_ignores_case() {
    let mut f = TypeFilter::new(opts(), vec!["task".to_string()]);
    assert!(f.is_selected("TASK"));
    // Toggling "Task" removes the differently-cased entry.
    f.handle(key(KeyCode::Enter));
    assert!(!f.is_selected("task"));
    assert_eq!(f.value(), Vec::<String>::new());
}

// --- tags editor -----------------------------------------------------------

#[test]
fn tags_editor_merges_sorts_and_dedups_options() {
    let t = TagsEditor::new(
        vec!["zeta".to_string(), "Beta".to_string()],
        vec!["beta".to_string(), "alpha".to_string(), "alpha".to_string()],
    );
    // "Beta" is already known as "beta" (ignoring case); "zeta" is added.
    assert_eq!(t.known, vec!["alpha".to_string(), "beta".to_string(), "zeta".to_string()]);
    assert_eq!(t.value(), "zeta, Beta");
}

#[test]
fn tags_editor_enter_adds_a_new_tag() {
    let mut t = TagsEditor::new(Vec::new(), vec!["alpha".to_string()]);
    for c in " qqq ".chars() {
        t.handle(key(KeyCode::Char(c)));
    }
    assert!(t.matches().is_empty());
    assert_eq!(t.handle(key(KeyCode::Enter)), None);
    assert!(t.is_selected("QQQ"));
    assert_eq!(t.known, vec!["alpha".to_string(), "qqq".to_string()]);
    assert_eq!(t.input.value(), "");
    // Tab with an empty query commits.
    assert_eq!(t.handle(key(KeyCode::Tab)), Some(true));
}

#[test]
fn tags_editor_enter_toggles_highlighted_match() {
    let mut t = TagsEditor::new(vec!["alpha".to_string()], vec!["beta".to_string()]);
    // Options: alpha, beta; cursor on alpha, which is selected.
    t.handle(key(KeyCode::Enter));
    assert!(!t.is_selected("alpha"));
    t.handle(key(KeyCode::Down));
    t.handle(key(KeyCode::Enter));
    assert_eq!(t.value(), "beta");
    assert_eq!(t.handle(key(KeyCode::Esc)), Some(false));
}

// --- picker ----------------------------------------------------------------

#[test]
fn picker_filters_and_selects() {
    let mut p = Picker::new(vec!["Widgets".to_string(), "Platform".to_string(), "Mobile App".to_string()]);
    assert_eq!(p.current(), Some("Widgets".to_string()));
    assert!(p.handle(key(KeyCode::Down)));
    assert_eq!(p.current(), Some("Platform".to_string()));
    assert!(p.handle(key(KeyCode::Char('m'))));
    assert!(p.handle(key(KeyCode::Char('o'))));
    assert!(p.handle(key(KeyCode::Char('b'))));
    assert_eq!(p.selected, 0);
    assert_eq!(p.matches(), vec!["Mobile App".to_string()]);
    assert_eq!(p.current(), Some("Mobile App".to_string()));
    p.set_options(vec!["x".to_string()]);
    assert_eq!(p.input.value(), "");
    assert_eq!(p.current(), Some("x".to_string()));
    assert!(!p.handle(key(KeyCode::Other)));
}

#[test]
fn picker_current_is_none_past_the_end() {
    let mut p = Picker::new(Vec::new());
    assert_eq!(p.current(), None);
    p.handle(key(KeyCode::Down));
    assert_eq!(p.selected, 0);
}

// --- text input --------------------------------------------------------------

#[test]
fn text_input_emacs_bindings() {
    let mut t = TextInput::new("hello world");
    assert_eq!(t.cursor(), 11);
    assert!(t.handle(ctrl('a')));
    assert_eq!(t.cursor(), 0);
    assert!(t.handle(KeyEvent::alt('f')));
    assert_eq!(t.cursor(), 5);
    assert!(t.handle(ctrl('k')));
    assert_eq!(t.value(), "hello");
    assert!(t.handle(ctrl('w')));
    assert_eq!(t.value(), "");
    assert!(t.handle(key(KeyCode::Char('x'))));
    assert!(t.handle(key(KeyCode::Backspace)));
    assert_eq!(t.value(), "");
    assert!(!t.handle(KeyEvent::alt('z')));
    t.clear();
    assert_eq!(t.cursor(), 0);
}

#[test]
fn text_input_type_then_backspace_restores() {
    let mut t = TextInput::new("abc");
    t.handle(key(KeyCode::Left));
    t.handle(key(KeyCode::Char('X')));
    assert_eq!(t.value(), "abXc");
    t.handle(key(KeyCode::Backspace));
    assert_eq!(t.value(), "abc");
    assert_eq!(t.cursor(), 2);
}

// --- calendar ----------------------------------------------------------------

#[test]
fn enter_twice_returns_ordered_range() {
    let mut cal = Calendar::new(Date::new(2026, 6, 10));
    // First Enter sets the start on the 10th.
    assert!(matches!(cal.handle(key(KeyCode::Enter)), CalResult::Continue));
    // Move back three days to the 7th, then Enter to set the end.
    for _ in 0..3 {
        cal.handle(key(KeyCode::Left));
    }
    match cal.handle(key(KeyCode::Enter)) {
        CalResult::Done { from, to } => {
            // Range is ordered even though the end was earlier than the start.
            assert_eq!(from, Date::new(2026, 6, 7));
            assert_eq!(to, Date::new(2026, 6, 10));
        }
        _ => panic!("expected Done"),
    }
}

#[test]
fn week_and_month_navigation() {
    let mut cal = Calendar::new(Date::new(2026, 6, 10));
    cal.handle(key(KeyCode::Down)); // +7 days → 17th
    assert_eq!(cal.cursor, Date::new(2026, 6, 17));
    cal.handle(key(KeyCode::Char(']'))); // +1 month → July 17
    assert_eq!(cal.cursor, Date::new(2026, 7, 17));
    cal.handle(key(KeyCode::Char('['))); // back to June 17
    assert_eq!(cal.cursor, Date::new(2026, 6, 17));
}

#[test]
fn esc_cancels() {
    let mut cal = Calendar::new(Date::today());
    assert!(matches!(cal.handle(key(KeyCode::Esc)), CalResult::Cancel));
}

#[test]
fn pending_range_covers_days_between() {
    let mut cal = Calendar::new(Date::new(2026, 6, 10));
    assert!(!cal.in_pending_range(Date::new(2026, 6, 10)));
    cal.handle(key(KeyCode::Enter));
    cal.handle(key(KeyCode::Char('h')));
    cal.handle(key(KeyCode::Char('h')));
    assert!(cal.in_pending_range(Date::new(2026, 6, 9)));
    assert!(cal.in_pending_range(Date::new(2026, 6, 8)));
    assert!(!cal.in_pending_range(Date::new(2026, 6, 11)));
}

// --- date range --------------------------------------------------------------

fn empty() -> DateRangeInput {
    DateRangeInput::new(Timeframe::default())
}

#[test]
fn space_toggles_open_ended_bounds() {
    let mut d = empty();
    // Focus starts on the start row; disable it → end-only ("≤") window.
    d.handle(key(KeyCode::Char(' ')));
    let tf = d.value().unwrap();
    assert!(tf.from.is_none() && tf.to.is_some());
}

#[test]
fn jk_adjust_focused_field() {
    let mut d = empty();
    let y0 = d.start.date.year;
    d.handle(key(KeyCode::Char('k'))); // increase year
    assert_eq!(d.start.date.year, y0 + 1);
    d.handle(key(KeyCode::Char('j'))); // decrease year
    assert_eq!(d.start.date.year, y0);
}

#[test]
fn hl_move_between_fields_and_rows() {
    let mut d = empty();
    assert_eq!((d.row, d.part), (0, 0));
    d.handle(key(KeyCode::Char('l'))); // → month
    assert_eq!((d.row, d.part), (0, 1));
    d.handle(key(KeyCode::Char('h'))); // ← year
    assert_eq!((d.row, d.part), (0, 0));
    d.handle(key(KeyCode::Char('h'))); // wrap to end.day
    assert_eq!((d.row, d.part), (1, 2));
}

#[test]
fn typing_digits_sets_the_field() {
    let mut d = empty();
    d.move_focus(1); // start.month
    for c in "12".chars() {
        d.handle(key(KeyCode::Char(c)));
    }
    assert_eq!(d.start.date.month, 12);
}

#[test]
fn out_of_order_range_is_invalid() {
    let mut d = empty();
    // start.year + 1 makes start later than end → invalid.
    d.handle(key(KeyCode::Char('k')));
    assert!(d.value().is_none());
    assert_eq!(d.handle(key(KeyCode::Enter)), None); // refuses to apply
    assert!(d.error);
}

#[test]
fn calendar_picks_both_bounds() {
    let tf = Timeframe { from: Some(Date::new(2024, 3, 10)), to: None };
    let mut d = DateRangeInput::new_on(tf, Date::new(2024, 3, 20));
    assert!(d.start.enabled && !d.end.enabled);
    d.handle_on(key(KeyCode::Char('c')), Date::new(2024, 3, 20));
    assert!(d.calendar.is_some());
    d.handle_on(key(KeyCode::Enter), Date::new(2024, 3, 20));
    d.handle_on(key(KeyCode::Char('l')), Date::new(2024, 3, 20));
    d.handle_on(key(KeyCode::Enter), Date::new(2024, 3, 20));
    assert!(d.calendar.is_none());
    let v = d.value().unwrap();
    assert_eq!(v.from, Some(Date::new(2024, 3, 10)));
    assert_eq!(v.to, Some(Date::new(2024, 3, 11)));
}

#[test]
fn typed_day_is_clamped_to_month() {
    let mut d = DateRangeInput::new_on(Timeframe::default(), Date::new(2023, 2, 10));
    d.move_focus(1);
    d.move_focus(1); // start.day
    d.handle_on(key(KeyCode::Char('3')), Date::new(2023, 2, 10));
    d.handle_on(key(KeyCode::Char('1')), Date::new(2023, 2, 10));
    assert_eq!(d.start.date, Date::new(2023, 2, 28));
    assert_eq!(d.handle_on(key(KeyCode::Esc), Date::new(2023, 2, 10)), Some(false));
}

// --- tree ----------------------------------------------------------------------

fn node(id: u32, depth: usize) -> TreeRow {
    TreeRow::Node { id, depth }
}

// A small tree:
//   1001 (0)
//   ├─ 1002 (1)
//   │  ├─ 1004 (2)
//   │  └─ 1005 (2)
//   └─ 1003 (1)
//      └─ 1006 (2)
fn sample() -> Vec<TreeRow> {
    vec![
        node(1001, 0),
        node(1002, 1),
        node(1004, 2),
        node(1005, 2),
        node(1003, 1),
        node(1006, 2),
    ]
}

#[test]
fn root_has_no_prefix() {
    assert_eq!(connector_prefix(&sample(), 0, 0), "");
}

#[test]
fn non_last_child_uses_tee_last_child_uses_elbow() {
    let f = sample();
    assert_eq!(connector_prefix(&f, 1, 1), "├─ "); // 1002 has sibling 1003 below
    assert_eq!(connector_prefix(&f, 4, 1), "└─ "); // 1003 is the last depth-1 child
}

#[test]
fn ancestor_continuation_draws_vertical_rule() {
    let f = sample();
    // 1004 sits under 1002, which still has sibling 1003 below → guide rule.
    assert_eq!(connector_prefix(&f, 2, 2), "│  ├─ ");
    // 1005 is the last child of 1002 → elbow, but 1002's parent line continues.
    assert_eq!(connector_prefix(&f, 3, 2), "│  └─ ");
    // 1006 under 1003 (the last depth-1 child) → no vertical rule above it.
    assert_eq!(connector_prefix(&f, 5, 2), "   └─ ");
}

#[test]
fn more_above_marker_is_skipped_in_depth_scan() {
    let mut f = vec![TreeRow::MoreAbove];
    f.extend(sample());
    // 1002 is now at index 2; its sibling 1003 is still found below.
    assert_eq!(connector_prefix(&f, 2, 1), "├─ ");
    assert_eq!(connector_prefix(&f, 5, 1), "└─ ");
}

// --- yank ------------------------------------------------------------------------

#[test]
fn kind_for_maps_documented_keys() {
    assert_eq!(YankMenu::kind_for('y'), Some(YankKind::Summary));
    assert_eq!(YankMenu::kind_for('l'), Some(YankKind::Hyperlink));
    assert_eq!(YankMenu::kind_for('n'), Some(YankKind::Number));
    assert_eq!(YankMenu::kind_for('v'), Some(YankKind::Verbose));
}

#[test]
fn kind_for_unknown_key_is_none() {
    assert_eq!(YankMenu::kind_for('x'), None);
    assert_eq!(YankMenu::kind_for('q'), None);
}

fn yank_item() -> WorkItem {
    WorkItem {
        id: 42,
        title: "Fix login".into(),
        item_type: "Bug".into(),
        state: WorkItemState::Active,
        state_name: "Active".into(),
        available_states: vec![],
        assigned_to: "Ada".into(),
        iteration: "Proj\\Sprint 3".into(),
        description: String::new(),
        notes: String::new(),
        tags: vec![],
        story_points: None,
        parent: None,
        children: vec![],
        dev_links: vec![],
        comments: vec![],
        changed_days_ago: 0,
        rev: 1,
    }
}

#[test]
fn yank_texts_for_each_kind() {
    let w = yank_item();
    let url = "https://dev.azure.com/o/p/_workitems/edit/42";
    assert_eq!(yank_text(YankKind::Summary, &w, Some(url)), "Fix login");
    assert_eq!(yank_text(YankKind::Number, &w, Some(url)), "#42");
    assert_eq!(
        yank_text(YankKind::Hyperlink, &w, Some(url)),
        "[#42 Fix login](https://dev.azure.com/o/p/_workitems/edit/42)"
    );
    assert_eq!(yank_text(YankKind::Hyperlink, &w, None), "#42 Fix login");
    assert_eq!(
        yank_text(YankKind::Verbose, &w, Some(url)),
        "#42 Fix login\nType: Bug\nState: Active\nAssigned to: Ada\nIteration: Proj\\Sprint 3\n\
         https://dev.azure.com/o/p/_workitems/edit/42"
    );
}

// --- keys a date input can take ----------------------------------------------------

#[test]
fn ordinary_date_input_accepts_every_key() {
    let d = DateRangeInput::new_on(Timeframe::default(), Date::new(2024, 3, 20));
    assert!(d.accepts());
}

#[test]
fn date_input_far_outside_the_calendar_is_refused() {
    let mut d = DateRangeInput::new_on(Timeframe::default(), Date::new(2024, 3, 20));
    d.start.date = Date::new(i32::MAX, 12, 31);
    assert!(!d.accepts());
}

#[test]
fn date_input_takes_keys_whose_arithmetic_fits() {
    let mut d = DateRangeInput::new_on(Timeframe::default(), Date::new(2024, 3, 20));
    assert!(d.takes_key(key(KeyCode::Char('k'))));
    assert!(d.consistent());
    // A year at the top of the integer range cannot be stepped up, but
    // other keys still work.
    d.start.date = Date::new(i32::MAX, 6, 1);
    assert!(!d.takes_key(key(KeyCode::Char('k'))));
    assert!(d.takes_key(key(KeyCode::Char('j'))));
    assert!(d.takes_key(key(KeyCode::Esc)));
    // Typed non-digits make the input inconsistent.
    d.buf = "x".into();
    assert!(!d.consistent());
    assert!(!d.takes_key(key(KeyCode::Esc)));
}

#[test]
fn scores_rank_best_first_and_ties_keep_order() {
    assert_eq!(rank_scores(&vec![Some(1), None, Some(5), Some(1)]), vec![2, 0, 3]);
    assert_eq!(rank_scores(&vec![None, None]), Vec::<usize>::new());
    assert_eq!(rank_scores(&vec![Some(-3), Some(7), Some(7)]), vec![1, 2, 0]);
}
