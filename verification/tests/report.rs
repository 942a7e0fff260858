use lazyaz::api::models::{WorkItem, WorkItemState};
use lazyaz::report::{esc, mermaid_label, node_label, render_tree_html, state_class};
use std::collections::HashMap;

fn item(id: u32, title: &str, children: Vec<u32>) -> WorkItem {
    WorkItem {
        id,
        title: title.into(),
        item_type: "User Story".into(),
        state: WorkItemState::Active,
        state_name: "Active".into(),
        available_states: vec![],
        assigned_to: "Ada".into(),
        iteration: String::new(),
        description: String::new(),
        notes: String::new(),
        tags: vec![],
        story_points: None,
        parent: None,
        children,
        dev_links: vec![],
        comments: vec![],
        changed_days_ago: 0,
        rev: 1,
    }
}

fn sample() -> HashMap<u32, WorkItem> {
    let mut m = HashMap::new();
    m.insert(1, item(1, "Root epic", vec![2, 3]));
    m.insert(2, item(2, "Child <story> & \"more\"", vec![4]));
    m.insert(3, item(3, "Other child", vec![]));
    m.insert(4, item(4, "Grandchild", vec![]));
    m
}

#[test]
fn renders_all_nodes_and_edges() {
    let html = render_tree_html(1, &sample(), "Tree #1", Some("https://x/edit/"));
    // Every item appears in the graph.
    for id in [1, 2, 3, 4] {
        assert!(html.contains(&format!("n{id}[")), "node {id} missing");
    }
    // Parent → child edges present.
    assert!(html.contains("n1 --> n2"));
    assert!(html.contains("n2 --> n4"));
    // Link prefix applied.
    assert!(html.contains("https://x/edit/1"));
    // Hierarchy uses collapsible details.
    assert!(html.contains("<details open>"));
}

#[test]
fn escapes_html_special_characters() {
    let html = render_tree_html(1, &sample(), "Tree", None);
    // The raw unescaped title must not leak into the document.
    assert!(!html.contains("Child <story>"));
    assert!(html.contains("Child &lt;story&gt;"));
    // Without a url prefix, ids are plain spans (no anchor href).
    assert!(!html.contains("href=\"1\""));
}

#[test]
fn story_point_stats_summarise_subtree() {
    let mut m = HashMap::new();
    let mut epic = item(1, "Epic", vec![2, 3, 4]);
    epic.item_type = "Epic".into();
    m.insert(1, epic);
    // Estimates are held in tenths of a point: 50 is 5 points.
    let mut done = item(2, "Done story", vec![]);
    done.story_points = Some(50);
    done.state_name = "Closed".into();
    m.insert(2, done);
    let mut active = item(3, "Active story", vec![]);
    active.story_points = Some(30);
    active.state_name = "Active".into();
    m.insert(3, active);
    let mut todo = item(4, "New story", vec![]);
    todo.story_points = Some(20);
    todo.state_name = "New".into();
    m.insert(4, todo);

    let html = render_tree_html(1, &m, "Stats", None);
    assert!(html.contains("Story points"));
    // Total = 10, done = 5 (50%).
    assert!(html.contains(r#"<div class="n">10</div>"#), "total points");
    assert!(html.contains("done (50%)"));
    // Per-type table lists the Epic (0 pts) and User Story (10 pts).
    assert!(html.contains("User Story"));
    // Points badge appears in the hierarchy.
    assert!(html.contains("5 pts"));
}

#[test]
fn story_point_stats_handle_no_estimates() {
    let html = render_tree_html(1, &sample(), "No points", None);
    assert!(html.contains("No story points set"));
}

#[test]
fn handles_missing_and_cyclic_nodes() {
    let mut m = HashMap::new();
    m.insert(1, item(1, "A", vec![2]));
    m.insert(2, item(2, "B", vec![1])); // cycle back to 1
    let html = render_tree_html(1, &m, "Cycle", None);
    assert!(html.contains("(cycle)"));

    let mut m2 = HashMap::new();
    m2.insert(1, item(1, "A", vec![99])); // 99 not in cache
    let html2 = render_tree_html(1, &m2, "Missing", None);
    assert!(html2.contains("(not loaded)"));
}

#[test]
fn escape_covers_every_special_character() {
    assert_eq!(esc("a&b<c>d\"e'f"), "a&amp;b&lt;c&gt;d&quot;e&#39;f");
    assert_eq!(esc(""), "");
    assert!(!esc("<<>>\"").contains('<'));
}

#[test]
fn mermaid_labels_collapse_and_replace() {
    assert_eq!(mermaid_label("  a \t b\n c  "), "a b c");
    assert_eq!(mermaid_label("say \"hi\" [x] (y) {z} <w> a|b #1"), "say 'hi'  x   y   z   w  a b  1");
}

#[test]
fn state_classes_follow_names() {
    assert_eq!(state_class("Closed"), "done");
    assert_eq!(state_class("In Progress"), "active");
    assert_eq!(state_class("Removed"), "removed");
    assert_eq!(state_class("Proposed"), "new");
    assert_eq!(state_class("DONE"), "done");
}

#[test]
fn node_label_with_and_without_link() {
    let mut w = item(7, "T", vec![]);
    w.story_points = Some(25);
    let with = node_label(&w, Some("https://h/"));
    assert!(with.starts_with("<a class=\"id\" href=\"https://h/7\" target=\"_blank\">#7</a>"));
    assert!(with.contains("2.5 pts"));
    assert!(with.contains("<span class=\"who\">Ada</span>"));
    w.assigned_to = "  ".into();
    let without = node_label(&w, None);
    assert!(without.starts_with("<span class=\"id\">#7</span>"));
    assert!(!without.contains("who"));
}

#[test]
fn stats_percentages_round_half_to_even() {
    // 1 of 8 points done: 12.5% → "12" (ties to even), bar width 12.5%.
    let mut m = HashMap::new();
    m.insert(1, item(1, "Root", vec![2, 3]));
    let mut a = item(2, "A", vec![]);
    a.story_points = Some(10);
    a.state_name = "Done".into();
    m.insert(2, a);
    let mut b = item(3, "B", vec![]);
    b.story_points = Some(70);
    b.state_name = "New".into();
    m.insert(3, b);
    let html = render_tree_html(1, &m, "Pct", None);
    assert!(html.contains("done (12%)"));
    assert!(html.contains("width:12.5%"));
    assert!(html.contains("width:87.5%"));
    assert!(html.contains("<div class=\"n\">2/3</div>"));
}

#[test]
fn page_counts_walked_items() {
    let html = render_tree_html(1, &sample(), "Count", None);
    assert!(html.contains("Rooted at #1 · 4 work item(s)"));
    assert!(html.contains("<title>Count</title>"));
}
