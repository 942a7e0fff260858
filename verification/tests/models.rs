use lazyaz::api::models::{month_name, Date, Timeframe, WorkItemFilter, WorkItemState};
use lazyaz::api::mock::MockClient;
use lazyaz::api::WorkItemClient;

#[test]
fn days_in_month_handles_leap_years() {
    assert_eq!(Date::new(2026, 2, 1).days_in_month(), 28);
    assert_eq!(Date::new(2024, 2, 1).days_in_month(), 29); // leap
    assert_eq!(Date::new(2026, 6, 1).days_in_month(), 30);
    assert_eq!(Date::new(2026, 12, 1).days_in_month(), 31);
}

#[test]
fn add_months_clamps_day_and_wraps_year() {
    // Jan 31 + 1 month → Feb 28 (clamped).
    assert_eq!(Date::new(2026, 1, 31).add_months(1), Date::new(2026, 2, 28));
    // Dec → Jan of next year.
    assert_eq!(Date::new(2026, 12, 15).add_months(1), Date::new(2027, 1, 15));
    assert_eq!(Date::new(2026, 1, 15).add_months(-1), Date::new(2025, 12, 15));
}

#[test]
fn weekday_is_monday_zero() {
    // 2026-06-10 is a Wednesday → 2 with Monday = 0.
    assert_eq!(Date::new(2026, 6, 10).weekday_mon0(), 2);
}

#[test]
fn timeframe_window_matches_and_labels() {
    let today = Date::today();
    // Start-only window ("on or after" today): only same-day items pass.
    let from_only = Timeframe { from: Some(today), to: None };
    assert!(from_only.matches_days_ago(0));
    assert!(!from_only.matches_days_ago(1));
    assert!(from_only.label().starts_with('≥'));

    // End-only window ("on or before" today): everything up to now passes.
    let to_only = Timeframe { from: None, to: Some(today) };
    assert!(to_only.matches_days_ago(0));
    assert!(to_only.matches_days_ago(999));
    assert!(to_only.label().starts_with('≤'));

    // Empty window = no constraint.
    assert!(Timeframe::default().is_empty());
    assert!(Timeframe::default().matches_days_ago(999));
}

#[test]
fn timeframe_wiql_clause_for_windows() {
    assert!(Timeframe::default().wiql_clause().is_none());
    let tf = Timeframe {
        from: Some(Date::new(2024, 1, 1)),
        to: Some(Date::new(2024, 2, 1)),
    };
    let clause = tf.wiql_clause().unwrap();
    assert!(clause.contains("2024-01-01") && clause.contains("2024-02-01"));
    assert!(clause.contains(">=") && clause.contains("<="));
    // Start-only window emits just the lower bound.
    let lo = Timeframe { from: Some(Date::new(2024, 1, 1)), to: None };
    let c = lo.wiql_clause().unwrap();
    assert!(c.contains(">=") && !c.contains("<="));
}

#[test]
fn work_item_filter_matches_iteration_prefix() {
    let client = MockClient::new();
    let mut item = client.get(1001).unwrap();
    item.iteration = "Proj\\Sprint 24".into();
    item.changed_days_ago = 0;
    // UNDER-style prefix match on the iteration path.
    let f = WorkItemFilter {
        timeframe: Timeframe::default(),
        iterations: vec!["Proj\\Sprint 24".into()],
        item_types: Vec::new(),
    };
    assert!(f.matches(&item));
    let f2 = WorkItemFilter {
        timeframe: Timeframe::default(),
        iterations: vec!["Proj\\Sprint 25".into()],
        item_types: Vec::new(),
    };
    assert!(!f2.matches(&item));
}

#[test]
fn iteration_filter_matches_child_paths_only() {
    let client = MockClient::new();
    let mut item = client.get(1002).unwrap();
    item.changed_days_ago = 0;
    item.iteration = "Proj\\Release 1\\Sprint 9".into();
    let under = WorkItemFilter {
        timeframe: Timeframe::default(),
        iterations: vec!["Proj\\Release 1".into()],
        item_types: Vec::new(),
    };
    assert!(under.matches(&item));
    // A sibling whose name merely starts the same is not "under".
    let sibling = WorkItemFilter {
        timeframe: Timeframe::default(),
        iterations: vec!["Proj\\Release".into()],
        item_types: Vec::new(),
    };
    assert!(!sibling.matches(&item));
}

#[test]
fn type_filter_ignores_ascii_case() {
    let client = MockClient::new();
    let mut item = client.get(1004).unwrap();
    item.changed_days_ago = 0;
    let f = WorkItemFilter {
        timeframe: Timeframe::default(),
        iterations: Vec::new(),
        item_types: vec!["task".into()],
    };
    assert!(f.matches(&item));
    let g = WorkItemFilter {
        timeframe: Timeframe::default(),
        iterations: Vec::new(),
        item_types: vec!["Epic".into()],
    };
    assert!(!g.matches(&item));
}

#[test]
fn state_cycle_and_labels() {
    let mut s = WorkItemState::New;
    for _ in 0..4 {
        s = s.next();
    }
    assert_eq!(s, WorkItemState::New);
    assert_eq!(WorkItemState::New.next(), WorkItemState::Active);
    assert_eq!(WorkItemState::Closed.next(), WorkItemState::New);
    for st in [WorkItemState::New, WorkItemState::Active, WorkItemState::Resolved, WorkItemState::Closed] {
        assert_eq!(WorkItemState::from_label(st.label()), Some(st));
    }
    assert_eq!(WorkItemState::from_label("new"), None);
}

#[test]
fn state_category_maps_template_names() {
    assert_eq!(WorkItemState::category("  To Do "), WorkItemState::New);
    assert_eq!(WorkItemState::category("Committed"), WorkItemState::Active);
    assert_eq!(WorkItemState::category("In Review"), WorkItemState::Resolved);
    assert_eq!(WorkItemState::category("DONE"), WorkItemState::Closed);
    assert_eq!(WorkItemState::category("whatever"), WorkItemState::Active);
}

#[test]
fn iso_round_trip_and_parsing() {
    let d = Date::new(2024, 2, 29);
    assert_eq!(d.to_iso(), "2024-02-29");
    assert_eq!(Date::from_iso("2024-02-29T10:00:00Z"), Some(d));
    assert_eq!(Date::from_iso("2024-2"), None);
    assert_eq!(Date::from_iso("abcd-ef-gh"), None);
    assert_eq!(Date::new(7, 3, 5).to_iso(), "0007-03-05");
}

#[test]
fn day_arithmetic_round_trips() {
    let d = Date::new(2024, 2, 28);
    assert_eq!(d.add_days(1), Date::new(2024, 2, 29));
    assert_eq!(d.add_days(2), Date::new(2024, 3, 1));
    assert_eq!(Date::new(2026, 1, 1).add_days(-1), Date::new(2025, 12, 31));
    assert_eq!(Date::new(1970, 1, 1).to_epoch_days(), 0);
    assert_eq!(Date::new(1969, 12, 31).to_epoch_days(), -1);
    assert_eq!(d.days_until(Date::new(2024, 3, 1)), 2);
    // 1970-01-01 was a Thursday; a week later is a Thursday again.
    assert_eq!(Date::new(1970, 1, 1).weekday_mon0(), 3);
    assert_eq!(Date::new(1970, 1, 8).weekday_mon0(), 3);
}

#[test]
fn month_names_clamp() {
    assert_eq!(month_name(1), "Jan");
    assert_eq!(month_name(12), "Dec");
    assert_eq!(month_name(0), "Jan");
    assert_eq!(month_name(40), "Dec");
}

#[test]
fn window_labels_and_clauses() {
    let f = Date::new(2024, 1, 1);
    let e = Date::new(2024, 2, 1);
    assert_eq!(Timeframe::default().label(), "All");
    assert_eq!(Timeframe { from: Some(f), to: None }.label(), "≥ 2024-01-01");
    assert_eq!(Timeframe { from: None, to: Some(e) }.label(), "≤ 2024-02-01");
    assert_eq!(Timeframe { from: Some(f), to: Some(e) }.label(), "2024-01-01…2024-02-01");
    assert_eq!(
        Timeframe { from: Some(f), to: Some(e) }.wiql_clause().unwrap(),
        "[System.ChangedDate] >= '2024-01-01' AND [System.ChangedDate] <= '2024-02-01'"
    );
}

#[test]
fn canned_items_carry_their_texts() {
    let client = MockClient::new();
    let w = client.get(1003).unwrap();
    assert_eq!(w.description, "As a developer I want to edit fields in my editor.");
    assert_eq!(w.notes, "Watch out for the suspend/restore dance.");
    assert_eq!(w.tags, vec!["write".to_string(), "stretch".to_string()]);
    assert_eq!(w.comments.len(), 1);
    assert_eq!(w.dev_links.len(), 1);
    assert_eq!(w.available_states, vec!["New", "Active", "Resolved", "Closed"]);
    let task = client.get(1004).unwrap();
    assert!(task.notes.is_empty() && task.tags.is_empty());
}

#[test]
fn dates_round_trip_through_epoch_days_and_iso_text() {
    for d in [Date::new(2024, 2, 29), Date::new(1970, 1, 1), Date::new(1, 3, 1), Date::new(9999, 12, 31)] {
        assert_eq!(d.add_days(0), d);
        assert_eq!(d.add_days(400).add_days(-400), d);
        assert_eq!(d.add_days(30).add_days(7), d.add_days(37));
        assert_eq!(d.days_until(d.add_days(-123)), -123);
        assert_eq!(Date::from_iso(&d.to_iso()), Some(d));
    }
    assert_eq!(Date::new(2024, 2, 29).add_days(1), Date::new(2024, 3, 1));
    assert_eq!(Date::new(2024, 1, 1).days_until(Date::new(2024, 2, 1)), 31);
    assert_eq!(Date::new(2024, 3, 1).days_until(Date::new(2024, 2, 1)), -29);
    assert_eq!(Date::from_iso("2024-02-01T08:30:00Z"), Some(Date::new(2024, 2, 1)));
    assert_eq!(Date::from_iso("2024-02"), None);
}

#[test]
fn day_arithmetic_holds_at_the_ends_of_the_year_range() {
    let last = Date::new(i32::MAX, 12, 31);
    assert_eq!(last.add_days(0), last);
    assert_eq!(last.add_days(-366).add_days(366), last);
    assert_eq!(last.days_until(last.add_days(-1000)), -1000);
    let first = Date::new(i32::MIN, 1, 1);
    assert_eq!(first.add_days(0), first);
    assert_eq!(first.add_days(365).add_days(-365), first);
    let far = Date::new(-2_000_000_000, 2, 29);
    assert_eq!(far.add_days(1), Date::new(-2_000_000_000, 3, 1));
    assert_eq!(far.add_days(1_000_000).add_days(-1_000_000), far);
}
