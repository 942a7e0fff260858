use lazyaz::api::mock::MockClient;
use lazyaz::api::WorkItemClient;
use lazyaz::api::models::{Date, Timeframe};
use lazyaz::app::TreeRow;
use lazyaz::filters::ListFilters;
use lazyaz::tree_view::{clamp_tree_selection, row_of, tree_rows, TreeModel};
use lazyaz::ui::input::TextInput;
use std::collections::{HashMap, HashSet};

/// Fetch what the model asks for from the mock backend until nothing is
/// left to fetch (what the background worker does in the application).
fn drive(t: &mut TreeModel, client: &MockClient, first: Vec<u32>) {
    let mut needed = first;
    for _ in 0..50 {
        if needed.is_empty() {
            break;
        }
        for id in needed.drain(..) {
            t.receive(id, client.get(id).ok());
        }
        needed = t.settle();
    }
}

fn node_ids(t: &TreeModel) -> Vec<u32> {
    t.state
        .flat
        .iter()
        .filter_map(|r| match r {
            TreeRow::Node { id, .. } => Some(*id),
            _ => None,
        })
        .collect()
}

fn node_row(t: &TreeModel, id: u32) -> usize {
    row_of(&t.state.flat, id).unwrap()
}

fn selected(t: &TreeModel) -> Option<u32> {
    t.selected_id()
}

fn loaded(focus: u32) -> (TreeModel, MockClient) {
    let client = MockClient::new();
    let mut t = TreeModel::new();
    let first = t.load_for(focus);
    drive(&mut t, &client, first);
    (t, client)
}

#[test]
fn tree_loads_in_background_without_blocking() {
    let client = MockClient::new();
    let mut t = TreeModel::new();
    let first = t.load_for(1001);
    // Loading only plans the fetch: nothing is shown yet, the focus is in
    // flight.
    assert_eq!(first, vec![1001]);
    assert!(!t.pending.is_empty());
    assert!(node_ids(&t).is_empty());
    drive(&mut t, &client, first);
    assert!(t.pending.is_empty());
    assert!(node_ids(&t).contains(&1001));
    assert!(node_ids(&t).contains(&1002));
}

#[test]
fn tree_fuzzy_filter_keeps_matches_and_ancestors() {
    let (mut t, _c) = loaded(1001);
    t.filter.input = Some(TextInput::new("Edit work"));
    t.rebuild();
    let ids = node_ids(&t);
    assert!(ids.contains(&1003), "matching node kept");
    assert!(ids.contains(&1001), "ancestor kept for context");
    assert!(!ids.contains(&1002), "non-matching sibling dropped");
}

#[test]
fn tree_flattens_and_collapses() {
    let (mut t, client) = loaded(1001);
    assert!(node_ids(&t).contains(&1002));
    t.state.selected = node_row(&t, 1001);
    let none = t.set_expanded(false);
    assert!(none.is_empty());
    assert!(!node_ids(&t).contains(&1002));
    let again = t.set_expanded(true);
    drive(&mut t, &client, again);
    assert!(node_ids(&t).contains(&1002));
}

#[test]
fn tree_lazy_loads_one_level_at_a_time() {
    let (mut t, client) = loaded(1001);
    assert!(!node_ids(&t).contains(&1004));
    t.state.selected = node_row(&t, 1002);
    let needed = t.set_expanded(true);
    assert_eq!(needed, vec![1004, 1005]);
    drive(&mut t, &client, needed);
    assert!(node_ids(&t).contains(&1004));
}

#[test]
fn tree_capital_jk_navigate_siblings() {
    let (mut t, _c) = loaded(1001);
    t.state.selected = node_row(&t, 1002);
    t.sibling(1);
    assert_eq!(selected(&t), Some(1003));
    t.sibling(-1);
    assert_eq!(selected(&t), Some(1002));
    // Clamped at the ends.
    t.sibling(-1);
    assert_eq!(selected(&t), Some(1002));
}

#[test]
fn tree_h_at_root_walks_up_a_level() {
    let (mut t, client) = loaded(1004);
    assert!(!node_ids(&t).contains(&1001));
    t.state.selected = node_row(&t, 1002);
    let (needed, walked) = t.level_out();
    assert_eq!(walked, Some(1001));
    drive(&mut t, &client, needed);
    assert_eq!(selected(&t), Some(1001));
    assert!(node_ids(&t).contains(&1001));
    assert!(node_ids(&t).contains(&1002));
}

#[test]
fn tree_capital_hl_navigate_levels() {
    let (mut t, client) = loaded(1001);
    t.state.selected = node_row(&t, 1001);
    let needed = t.level_in();
    drive(&mut t, &client, needed);
    assert_eq!(selected(&t), Some(1002));
    let (needed, walked) = t.level_out();
    assert!(needed.is_empty());
    assert_eq!(walked, None);
    assert_eq!(selected(&t), Some(1001));
}

#[test]
fn view_in_tree_centres_on_selected_item_with_ancestors() {
    let client = MockClient::new();
    let mut t = TreeModel::new();
    let first = t.anchor(Some(1004));
    drive(&mut t, &client, first);
    assert!(t.state.expanded.contains(&1002), "parent expanded");
    assert!(t.state.expanded.contains(&1004), "focus expanded");
    assert_eq!(selected(&t), Some(1004));
    let ids = node_ids(&t);
    assert!(ids.contains(&1002));
    assert!(ids.contains(&1005));
    // The root has a parent of its own, so the marker heads the rows.
    assert_eq!(t.state.flat[0], TreeRow::MoreAbove);
}

#[test]
fn anchoring_on_the_same_item_keeps_the_tree() {
    let (mut t, _c) = loaded(1002);
    let rows = t.state.flat.clone();
    assert!(t.anchor(Some(1002)).is_empty());
    assert_eq!(t.state.flat, rows);
    assert!(t.anchor(None).is_empty());
    assert!(t.state.flat.is_empty() && t.cache.is_empty() && t.root.is_none());
}

#[test]
fn refresh_reloads_around_the_focus() {
    let (mut t, client) = loaded(1001);
    assert!(!t.cache.is_empty());
    let needed = t.refresh().unwrap();
    assert_eq!(needed, vec![1001]);
    assert!(t.cache.is_empty());
    drive(&mut t, &client, needed);
    assert!(node_ids(&t).contains(&1003));
    assert!(TreeModel::new().refresh().is_none());
}

#[test]
fn rows_follow_expansion_and_depth() {
    let client = MockClient::new();
    let mut cache = HashMap::new();
    for id in [1001, 1002, 1003, 1004] {
        cache.insert(id, client.get(id).unwrap());
    }
    let mut expanded = HashSet::new();
    expanded.insert(1001);
    expanded.insert(1002);
    let rows = tree_rows(Some(1001), &cache, &expanded);
    assert_eq!(
        rows,
        vec![
            TreeRow::Node { id: 1001, depth: 0 },
            TreeRow::Node { id: 1002, depth: 1 },
            TreeRow::Node { id: 1004, depth: 2 },
            TreeRow::Node { id: 1003, depth: 1 },
        ]
    );
    // A root with a cached parent gets the marker; uncached children are
    // left out.
    let rows = tree_rows(Some(1002), &cache, &expanded);
    assert_eq!(rows[0], TreeRow::MoreAbove);
    assert_eq!(rows.len(), 3);
    assert!(tree_rows(None, &cache, &expanded).is_empty());
}

#[test]
fn cursor_clamps_to_the_nearest_node_row() {
    let flat = vec![
        TreeRow::MoreAbove,
        TreeRow::Node { id: 1, depth: 0 },
        TreeRow::Node { id: 2, depth: 1 },
    ];
    assert_eq!(clamp_tree_selection(&flat, 0), 1);
    assert_eq!(clamp_tree_selection(&flat, 2), 2);
    assert_eq!(clamp_tree_selection(&flat, 9), 2);
    assert_eq!(clamp_tree_selection(&vec![TreeRow::MoreAbove], 3), 0);
    assert_eq!(clamp_tree_selection(&Vec::new(), 3), 0);
}

#[test]
fn step_and_jump_skip_the_marker() {
    let (mut t, _c) = loaded(1004);
    assert_eq!(t.state.flat[0], TreeRow::MoreAbove);
    t.jump(0);
    assert_eq!(selected(&t), Some(1002));
    t.step(1);
    assert_eq!(selected(&t), Some(1004));
    t.jump(isize::MAX);
    assert_eq!(selected(&t), Some(1005));
    t.step(-5);
    assert_eq!(selected(&t), Some(1002));
}

#[test]
fn a_fetch_plan_skips_cached_and_in_flight_items() {
    let (mut t, _c) = loaded(1001);
    // Everything shown is cached: nothing more to fetch.
    assert!(t.ensure_fetched().is_empty());
    t.state.selected = node_row(&t, 1002);
    let first = t.expand_node(1002);
    assert_eq!(first, vec![1004, 1005]);
    // Already in flight: not asked for twice.
    assert!(t.ensure_fetched().is_empty());
}

#[test]
fn a_failed_fetch_is_no_longer_in_flight() {
    let mut t = TreeModel::new();
    let first = t.load_for(42);
    assert_eq!(first, vec![42]);
    t.receive(42, None);
    assert!(t.pending.is_empty());
    // Still needed and neither cached nor in flight: asked for again.
    assert_eq!(t.settle(), vec![42]);
    assert_eq!(node_ids(&t), vec![42]);
}

#[test]
fn recursive_expand_opens_everything_below_the_cursor() {
    let (mut t, client) = loaded(1001);
    assert!(!node_ids(&t).contains(&1004));
    t.state.selected = node_row(&t, 1001);
    let mut needed = t.expand_below();
    needed.sort();
    assert_eq!(needed, vec![1004, 1005]);
    assert!(t.state.expanded.contains(&1002));
    // A leaf is not recorded as expanded.
    assert!(!t.state.expanded.contains(&1003));
    drive(&mut t, &client, needed);
    assert_eq!(node_ids(&t), vec![1001, 1002, 1004, 1005, 1003]);
}

#[test]
fn recursive_expand_on_a_leaf_changes_nothing_shown() {
    let (mut t, _c) = loaded(1001);
    t.state.selected = node_row(&t, 1003);
    let before = node_ids(&t);
    assert!(t.expand_below().is_empty());
    assert_eq!(node_ids(&t), before);
    assert!(!t.state.expanded.contains(&1003));
}

#[test]
fn tree_is_independent_of_timeframe_filter() {
    let client = MockClient::new();
    // Narrow the list filter so most items drop out of the work-items list…
    let mut f = ListFilters::new();
    f.set_timeframe(Timeframe { from: Some(Date::today()), to: None });
    let listed = client.list_assigned(&f.filter()).unwrap();
    assert!(!listed.iter().any(|w| w.id == 1005));
    // …yet the relationship tree, anchored on #1004, still shows its parent
    // (#1002) and sibling (#1005, last changed 12 days ago — outside the
    // window) because the tree fetches directly via the client.
    let mut t = TreeModel::new();
    let first = t.load_for(1004);
    drive(&mut t, &client, first);
    let ids = node_ids(&t);
    assert!(ids.contains(&1002), "parent shown regardless of timeframe");
    assert!(ids.contains(&1005), "sibling shown regardless of timeframe");
}
