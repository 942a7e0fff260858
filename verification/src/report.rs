//! Self-contained HTML report of a work-item tree and its dependencies.
//!
//! [`render_tree_html`] turns a cache of [`WorkItem`]s (keyed by id) into a
//! single static HTML document with two views of the subtree rooted at a focus
//! item: a collapsible nested hierarchy (works offline) and an embedded
//! Mermaid dependency graph (parent → child edges, loaded from a CDN), plus a
//! story-points block (totals, done/active/to-do burn-down and a per-type
//! breakdown). Story points are counted in tenths of a point.
use crate::api::models::WorkItem;
use crate::text::{
    chars_of, contains_str, dec, has_sub, is_blank, is_whitespace, is_ws, lex_le, lower_seq, occurs_at,
    push_char, push_dec, push_dec_wide, to_lower, trim,
};
use std::collections::{HashMap, HashSet};
use vstd::prelude::*;

verus! {

// ---------------------------------------------------------------------------
// Text pieces
// ---------------------------------------------------------------------------

/// The HTML escape of one character.
pub open spec fn esc_char(c: char) -> Seq<char> {
    if c == '&' {
        "&amp;"@
    } else if c == '<' {
        "&lt;"@
    } else if c == '>' {
        "&gt;"@
    } else if c == '"' {
        "&quot;"@
    } else if c == '\'' {
        "&#39;"@
    } else {
        seq![c]
    }
}

/// `s` escaped for HTML element content and quoted attributes.
pub open spec fn esc_of(s: Seq<char>) -> Seq<char>
    decreases s.len(),
{
    if s.len() == 0 {
        Seq::empty()
    } else {
        esc_of(s.drop_last()) + esc_char(s.last())
    }
}

/// Escape text for safe inclusion in HTML element content / attributes.
pub fn esc(s: &str) -> (r: String)
    ensures
        r@ == esc_of(s@),
{
    let v = chars_of(s);
    let mut out = String::new();
    let mut i: usize = 0;
    while i < v.len()
        invariant
            i <= v@.len(),
            v@ == s@,
            out@ == esc_of(v@.take(i as int)),
        decreases v.len() - i,
    {
        let c = v[i];
        if c == '&' {
            out.append("&amp;");
        } else if c == '<' {
            out.append("&lt;");
        } else if c == '>' {
            out.append("&gt;");
        } else if c == '"' {
            out.append("&quot;");
        } else if c == '\'' {
            out.append("&#39;");
        } else {
            push_char(&mut out, c);
        }
        assert(v@.take(i + 1).drop_last() =~= v@.take(i as int));
        i = i + 1;
    }
    assert(v@.take(v.len() as int) =~= v@);
    out
}

/// The whitespace-separated words of `s`, in order.
pub open spec fn words(s: Seq<char>) -> Seq<Seq<char>>
    decreases s.len(),
{
    if s.len() == 0 {
        Seq::empty()
    } else {
        let w = words(s.drop_last());
        let c = s.last();
        if is_ws(c) {
            w
        } else if s.len() >= 2 && !is_ws(s[s.len() - 2]) {
            w.drop_last().push(w.last().push(c))
        } else {
            w.push(seq![c])
        }
    }
}

/// The characters that would break a quoted Mermaid label, and their
/// replacements: `"` becomes `'`, brackets, braces, parentheses, angle
/// brackets, `|` and `#` become spaces.
pub open spec fn mermaid_char(c: char) -> char {
    if c == '"' {
        '\''
    } else if c == '[' || c == ']' || c == '{' || c == '}' || c == '(' || c == ')' || c == '<'
        || c == '>' || c == '|' || c == '#' {
        ' '
    } else {
        c
    }
}

/// `s` with whitespace runs collapsed to single spaces (and trimmed), then
/// with [`mermaid_char`] applied to every character.
pub open spec fn mermaid_label_of(s: Seq<char>) -> Seq<char> {
    crate::text::join(words(s), " "@).map_values(|c: char| mermaid_char(c))
}

proof fn lemma_join_extend(w: Seq<Seq<char>>, c: char)
    requires
        w.len() >= 1,
    ensures
        crate::text::join(w.drop_last().push(w.last().push(c)), " "@) == crate::text::join(w, " "@).push(c),
{
    let w2 = w.drop_last().push(w.last().push(c));
    assert(w2.drop_last() =~= w.drop_last());
    if w.len() == 1 {
        assert(crate::text::join(w2, " "@) == w2[0]);
    } else {
        assert((crate::text::join(w.drop_last(), " "@) + " "@ + w.last()).push(c) =~= crate::text::join(
            w.drop_last(),
            " "@,
        ) + " "@ + w.last().push(c));
    }
}

/// Sanitise a string for use inside a quoted Mermaid node label: collapse
/// whitespace and replace characters that would break the diagram syntax.
pub fn mermaid_label(s: &str) -> (r: String)
    ensures
        r@ == mermaid_label_of(s@),
{
    let v = chars_of(s);
    let mut collapsed: Vec<char> = Vec::new();
    let mut i: usize = 0;
    while i < v.len()
        invariant
            i <= v@.len(),
            v@ == s@,
            collapsed@ == crate::text::join(words(v@.take(i as int)), " "@),
            (collapsed@.len() == 0) == (words(v@.take(i as int)).len() == 0),
        decreases v.len() - i,
    {
        let c = v[i];
        let ghost pre = v@.take(i as int);
        let ghost w = words(pre);
        assert(v@.take(i + 1).drop_last() =~= pre);
        if !is_whitespace(c) {
            if i > 0 && !is_whitespace(v[i - 1]) {
                assert(pre.len() >= 1 && !is_ws(pre.last()));
                proof {
                    assert(w.len() >= 1) by {
                        assert(v@.take(i as int).drop_last() =~= v@.take(i - 1));
                    }
                    lemma_join_extend(w, c);
                }
                collapsed.push(c);
            } else {
                if collapsed.len() > 0 {
                    proof {
                        reveal_strlit(" ");
                    }
                    collapsed.push(' ');
                    collapsed.push(c);
                    assert(collapsed@ =~= crate::text::join(w, " "@) + " "@ + seq![c]);
                    assert(w.push(seq![c]).drop_last() =~= w);
                } else {
                    collapsed.push(c);
                    assert(w.push(seq![c]).len() == 1);
                }
            }
        }
        i = i + 1;
    }
    assert(v@.take(v.len() as int) =~= v@);
    let mut out = String::new();
    let mut j: usize = 0;
    while j < collapsed.len()
        invariant
            j <= collapsed@.len(),
            out@ == collapsed@.take(j as int).map_values(|c: char| mermaid_char(c)),
        decreases collapsed.len() - j,
    {
        let c = collapsed[j];
        let m = if c == '"' {
            '\''
        } else if c == '[' || c == ']' || c == '{' || c == '}' || c == '(' || c == ')' || c == '<'
            || c == '>' || c == '|' || c == '#' {
            ' '
        } else {
            c
        };
        push_char(&mut out, m);
        j = j + 1;
        assert(out@ =~= collapsed@.take(j as int).map_values(|c: char| mermaid_char(c)));
    }
    assert(collapsed@.take(collapsed.len() as int) =~= collapsed@);
    out
}

/// The status class of a workflow state name (matched case-insensitively on
/// substrings): "done", "active", "removed" or "new".
pub open spec fn state_class_of(name: Seq<char>) -> Seq<char> {
    let s = lower_seq(name);
    if has_sub(s, "done"@) || has_sub(s, "closed"@) || has_sub(s, "resolved"@) || has_sub(
        s,
        "completed"@,
    ) {
        "done"@
    } else if has_sub(s, "active"@) || has_sub(s, "progress"@) || has_sub(s, "committed"@)
        || has_sub(s, "doing"@) {
        "active"@
    } else if has_sub(s, "removed"@) || has_sub(s, "cut"@) {
        "removed"@
    } else {
        "new"@
    }
}

/// CSS class suffix for a state, so the report can colour nodes by status.
pub fn state_class(state_name: &str) -> (r: &'static str)
    ensures
        r@ == state_class_of(state_name@),
{
    let s = to_lower(state_name);
    let s = s.as_str();
    if contains_str(s, "done") || contains_str(s, "closed") || contains_str(s, "resolved")
        || contains_str(s, "completed") {
        "done"
    } else if contains_str(s, "active") || contains_str(s, "progress") || contains_str(
        s,
        "committed",
    ) || contains_str(s, "doing") {
        "active"
    } else if contains_str(s, "removed") || contains_str(s, "cut") {
        "removed"
    } else {
        "new"
    }
}

/// A points value given in tenths, without a trailing `.0` (`8`, `2.5`).
pub open spec fn pts_text(tenths: nat) -> Seq<char> {
    if tenths % 10 == 0 {
        dec(tenths / 10)
    } else {
        dec(tenths / 10) + "."@ + dec(tenths % 10)
    }
}

/// Append a points value given in tenths (see [`pts_text`]).
pub fn push_pts(s: &mut String, tenths: u128)
    ensures
        final(s)@ == old(s)@ + pts_text(tenths as nat),
{
    push_dec_wide(s, tenths / 10);
    if tenths % 10 != 0 {
        s.append(".");
        push_dec_wide(s, tenths % 10);
    }
    assert(final(s)@ =~= old(s)@ + pts_text(tenths as nat));
}

/// The label of a node: id (a link when `url_prefix` is given), type badge,
/// title, state badge, points badge (when estimated) and assignee (when set).
pub open spec fn node_label_of(item: WorkItem, url_prefix: Option<Seq<char>>) -> Seq<char> {
    let id = dec(item.id as nat);
    let id_html = match url_prefix {
        Some(p) => "<a class=\"id\" href=\""@ + esc_of(p) + id + "\" target=\"_blank\">#"@ + id
            + "</a>"@,
        None => "<span class=\"id\">#"@ + id + "</span>"@,
    };
    let who = if trim(item.assigned_to@).len() == 0 {
        Seq::empty()
    } else {
        "<span class=\"who\">"@ + esc_of(item.assigned_to@) + "</span>"@
    };
    let pts = match item.story_points {
        Some(p) => if p > 0 {
            "<span class=\"type\">"@ + pts_text(p as nat) + " pts</span>"@
        } else {
            Seq::empty()
        },
        None => Seq::empty(),
    };
    id_html + "<span class=\"type\">"@ + esc_of(item.item_type@) + "</span>"@ + esc_of(item.title@)
        + "<span class=\"state "@ + state_class_of(item.state_name@) + "\">"@ + esc_of(
        item.state_name@,
    ) + "</span>"@ + pts + who
}

/// Append `t` (a `String`) to `s`.
fn push_owned(s: &mut String, t: String)
    ensures
        final(s)@ == old(s)@ + t@,
{
    s.append(t.as_str());
}

/// Render a node's label (id link, type, title, state, points, assignee).
pub fn node_label(item: &WorkItem, url_prefix: Option<&str>) -> (r: String)
    ensures
        r@ == node_label_of(
            *item,
            match url_prefix {
                Some(p) => Some(p@),
                None => None,
            },
        ),
{
    let mut out = String::new();
    match url_prefix {
        Some(p) => {
            out.append("<a class=\"id\" href=\"");
            push_owned(&mut out, esc(p));
            push_dec(&mut out, item.id as u64);
            out.append("\" target=\"_blank\">#");
            push_dec(&mut out, item.id as u64);
            out.append("</a>");
        },
        None => {
            out.append("<span class=\"id\">#");
            push_dec(&mut out, item.id as u64);
            out.append("</span>");
        },
    }
    out.append("<span class=\"type\">");
    push_owned(&mut out, esc(item.item_type.as_str()));
    out.append("</span>");
    push_owned(&mut out, esc(item.title.as_str()));
    out.append("<span class=\"state ");
    out.append(state_class(item.state_name.as_str()));
    out.append("\">");
    push_owned(&mut out, esc(item.state_name.as_str()));
    out.append("</span>");
    match item.story_points {
        Some(p) => {
            if p > 0 {
                out.append("<span class=\"type\">");
                push_pts(&mut out, p as u128);
                out.append(" pts</span>");
            }
        },
        None => {},
    }
    if !is_blank(item.assigned_to.as_str()) {
        out.append("<span class=\"who\">");
        push_owned(&mut out, esc(item.assigned_to.as_str()));
        out.append("</span>");
    }
    let ghost want = node_label_of(
        *item,
        match url_prefix {
            Some(p) => Some(p@),
            None => None,
        },
    );
    assert(out@ =~= want);
    out
}

// ---------------------------------------------------------------------------
// The collapsible hierarchy
// ---------------------------------------------------------------------------

/// The cached ids not yet visited.
pub open spec fn unvisited(cache: Map<u32, WorkItem>, visited: Set<u32>) -> nat {
    cache.dom().difference(visited).len()
}

pub proof fn lemma_unvisited_insert(cache: Map<u32, WorkItem>, v: Set<u32>, id: u32)
    requires
        cache.dom().finite(),
        cache.dom().contains(id),
        !v.contains(id),
    ensures
        unvisited(cache, v.insert(id)) + 1 == unvisited(cache, v),
{
    assert(cache.dom().difference(v.insert(id)) =~= cache.dom().difference(v).remove(id));
}

pub proof fn lemma_unvisited_mono(cache: Map<u32, WorkItem>, v: Set<u32>, w: Set<u32>)
    requires
        cache.dom().finite(),
        v.subset_of(w),
    ensures
        unvisited(cache, w) <= unvisited(cache, v),
{
    vstd::set_lib::lemma_len_subset(cache.dom().difference(w), cache.dom().difference(v));
}

/// A node already drawn higher up the hierarchy.
pub open spec fn cycle_html(id: u32) -> Seq<char> {
    "<div class=\"leaf\"><span class=\"id\">#"@ + dec(id as nat) + "</span> <em>(cycle)</em></div>"@
}

/// A node whose item is not in the cache.
pub open spec fn missing_html(id: u32) -> Seq<char> {
    "<div class=\"leaf\"><span class=\"id\">#"@ + dec(id as nat) + "</span> <em>(not loaded)</em></div>"@
}

/// The url prefix as a character sequence.
pub open spec fn prefix_view(url_prefix: Option<&str>) -> Option<Seq<char>> {
    match url_prefix {
        Some(p) => Some(p@),
        None => None,
    }
}

/// The hierarchy HTML of node `id` and its subtree, given the ids `visited`
/// so far (each id is expanded once; a repeat is marked as a cycle), and the
/// ids visited afterwards.
pub open spec fn hier_node(
    cache: Map<u32, WorkItem>,
    prefix: Option<Seq<char>>,
    id: u32,
    visited: Set<u32>,
) -> (Seq<char>, Set<u32>)
    decreases unvisited(cache, visited), 0nat,
    when cache.dom().finite()
{
    if visited.contains(id) {
        (cycle_html(id), visited)
    } else if !cache.contains_key(id) {
        (missing_html(id), visited.insert(id))
    } else {
        let item = cache[id];
        let label = node_label_of(item, prefix);
        if item.children@.len() == 0 {
            ("<div class=\"leaf\">"@ + label + "</div>"@, visited.insert(id))
        } else {
            proof {
                lemma_unvisited_insert(cache, visited, id);
            }
            let (inner, after) = hier_children(cache, prefix, item.children@, visited.insert(id));
            ("<details open><summary>"@ + label + "</summary><ul>"@ + inner + "</ul></details>"@, after)
        }
    }
}

/// The hierarchy HTML of the children `ids` (each in a list item), in order.
pub open spec fn hier_children(
    cache: Map<u32, WorkItem>,
    prefix: Option<Seq<char>>,
    ids: Seq<u32>,
    visited: Set<u32>,
) -> (Seq<char>, Set<u32>)
    decreases unvisited(cache, visited), ids.len() + 1,
    when cache.dom().finite()
{
    if ids.len() == 0 {
        (Seq::empty(), visited)
    } else {
        let (a, v1) = hier_node(cache, prefix, ids[0], visited);
        proof {
            lemma_unvisited_mono(cache, visited, v1.union(visited));
        }
        let (b, v2) = hier_children(cache, prefix, ids.drop_first(), v1.union(visited));
        ("<li>"@ + a + "</li>"@ + b, v2)
    }
}

proof fn lemma_hier_grows(cache: Map<u32, WorkItem>, prefix: Option<Seq<char>>, id: u32, ids: Seq<u32>, visited: Set<u32>)
    requires
        cache.dom().finite(),
    ensures
        visited.subset_of(hier_node(cache, prefix, id, visited).1),
        hier_node(cache, prefix, id, visited).1.contains(id),
        visited.subset_of(hier_children(cache, prefix, ids, visited).1),
    decreases unvisited(cache, visited), ids.len() + 1,
{
    if !visited.contains(id) && cache.contains_key(id) && cache[id].children@.len() > 0 {
        lemma_unvisited_insert(cache, visited, id);
        lemma_hier_grows(cache, prefix, id, cache[id].children@, visited.insert(id));
    }
    if ids.len() > 0 {
        lemma_hier_node_grows(cache, prefix, ids[0], visited);
        let v1 = hier_node(cache, prefix, ids[0], visited).1;
        lemma_unvisited_mono(cache, visited, v1.union(visited));
        lemma_hier_grows(cache, prefix, id, ids.drop_first(), v1.union(visited));
    }
}

proof fn lemma_hier_node_grows(cache: Map<u32, WorkItem>, prefix: Option<Seq<char>>, id: u32, visited: Set<u32>)
    requires
        cache.dom().finite(),
    ensures
        visited.subset_of(hier_node(cache, prefix, id, visited).1),
        hier_node(cache, prefix, id, visited).1.contains(id),
    decreases unvisited(cache, visited), 0nat,
{
    if !visited.contains(id) && cache.contains_key(id) && cache[id].children@.len() > 0 {
        lemma_unvisited_insert(cache, visited, id);
        lemma_hier_grows(cache, prefix, id, cache[id].children@, visited.insert(id));
    }
}

/// Emit the collapsible hierarchy for node `id` (and, recursively, its
/// children), marking repeats as cycles and uncached ids as not loaded.
pub fn render_node(
    id: u32,
    cache: &HashMap<u32, WorkItem>,
    url_prefix: Option<&str>,
    visited: &mut HashSet<u32>,
    out: &mut String,
)
    ensures
        final(out)@ == old(out)@ + hier_node(cache@, prefix_view(url_prefix), id, old(visited)@).0,
        final(visited)@ == hier_node(cache@, prefix_view(url_prefix), id, old(visited)@).1,
    decreases unvisited(cache@, old(visited)@), 0nat,
{
    broadcast use vstd::std_specs::hash::group_hash_axioms;

    let ghost pv = prefix_view(url_prefix);
    let ghost v0 = visited@;
    if !visited.insert(id) {
        out.append("<div class=\"leaf\"><span class=\"id\">#");
        push_dec(out, id as u64);
        out.append("</span> <em>(cycle)</em></div>");
        assert(final(out)@ =~= old(out)@ + cycle_html(id));
        return;
    }
    match cache.get(&id) {
        None => {
            out.append("<div class=\"leaf\"><span class=\"id\">#");
            push_dec(out, id as u64);
            out.append("</span> <em>(not loaded)</em></div>");
            assert(final(out)@ =~= old(out)@ + missing_html(id));
        },
        Some(item) => {
            let label = node_label(item, url_prefix);
            let n = item.children.len();
            if n == 0 {
                out.append("<div class=\"leaf\">");
                out.append(label.as_str());
                out.append("</div>");
                assert(final(out)@ =~= old(out)@ + hier_node(cache@, pv, id, v0).0);
            } else {
                out.append("<details open><summary>");
                out.append(label.as_str());
                out.append("</summary><ul>");
                let ghost ids = item.children@;
                let ghost start = out@;
                let ghost v1 = v0.insert(id);
                proof {
                    lemma_unvisited_insert(cache@, v0, id);
                }
                assert(ids.skip(0) =~= ids);
                let mut k: usize = 0;
                while k < n
                    invariant
                        cache@.dom().finite(),
                        cache@.contains_key(id),
                        cache@[id] == *item,
                        ids == item.children@,
                        n == ids.len(),
                        k <= n,
                        v1 == v0.insert(id),
                        v0 == old(visited)@,
                        unvisited(cache@, v1) + 1 == unvisited(cache@, v0),
                        v1.subset_of(visited@),
                        start + hier_children(cache@, pv, ids, v1).0 == out@ + hier_children(
                            cache@,
                            pv,
                            ids.skip(k as int),
                            visited@,
                        ).0,
                        hier_children(cache@, pv, ids, v1).1 == hier_children(
                            cache@,
                            pv,
                            ids.skip(k as int),
                            visited@,
                        ).1,
                        pv == prefix_view(url_prefix),
                    decreases n - k,
                {
                    let c = item.children[k];
                    let ghost vk = visited@;
                    let ghost rest = ids.skip(k as int);
                    assert(rest[0] == c);
                    assert(rest.drop_first() =~= ids.skip(k + 1));
                    proof {
                        lemma_unvisited_mono(cache@, v1, vk);
                    }
                    out.append("<li>");
                    render_node(c, cache, url_prefix, visited, out);
                    out.append("</li>");
                    proof {
                        lemma_hier_node_grows(cache@, pv, c, vk);
                        let after = hier_node(cache@, pv, c, vk).1;
                        assert(after.union(vk) =~= after);
                        assert(v1.subset_of(visited@));
                    }
                    k = k + 1;
                }
                assert(ids.skip(n as int) =~= Seq::<u32>::empty());
                out.append("</ul></details>");
            }
        },
    }
}

// ---------------------------------------------------------------------------
// The dependency graph
// ---------------------------------------------------------------------------

/// The Mermaid node definition of `id` (with its title, or marked not
/// loaded).
pub open spec fn node_def(id: u32, item: Option<WorkItem>) -> Seq<char> {
    match item {
        Some(w) => "  n"@ + dec(id as nat) + "[\"#"@ + dec(id as nat) + " "@ + mermaid_label_of(w.title@)
            + "\"]\n"@,
        None => "  n"@ + dec(id as nat) + "[\"#"@ + dec(id as nat) + " (not loaded)\"]\n"@,
    }
}

/// The Mermaid edge from `parent` to `child`.
pub open spec fn edge_def(parent: u32, child: u32) -> Seq<char> {
    "  n"@ + dec(parent as nat) + " --> n"@ + dec(child as nat) + "\n"@
}

/// Walking the subtree of `id` with the ids `seen` so far (each drawn once):
/// the node definitions, the edges, the ids seen afterwards, and the newly
/// seen ids in visit order.
pub open spec fn graph_node(cache: Map<u32, WorkItem>, id: u32, seen: Set<u32>) -> (
    Seq<char>,
    Seq<char>,
    Set<u32>,
    Seq<u32>,
)
    decreases unvisited(cache, seen), 0nat,
    when cache.dom().finite()
{
    if seen.contains(id) {
        (Seq::empty(), Seq::empty(), seen, Seq::empty())
    } else if !cache.contains_key(id) {
        (node_def(id, None), Seq::empty(), seen.insert(id), seq![id])
    } else {
        proof {
            lemma_unvisited_insert(cache, seen, id);
        }
        let (n, e, s, o) = graph_children(cache, id, cache[id].children@, seen.insert(id));
        (node_def(id, Some(cache[id])) + n, e, s, seq![id] + o)
    }
}

/// Walking the children `ids` of `parent`, in order.
pub open spec fn graph_children(cache: Map<u32, WorkItem>, parent: u32, ids: Seq<u32>, seen: Set<u32>) -> (
    Seq<char>,
    Seq<char>,
    Set<u32>,
    Seq<u32>,
)
    decreases unvisited(cache, seen), ids.len() + 1,
    when cache.dom().finite()
{
    if ids.len() == 0 {
        (Seq::empty(), Seq::empty(), seen, Seq::empty())
    } else {
        let (n1, e1, s1, o1) = graph_node(cache, ids[0], seen);
        proof {
            lemma_unvisited_mono(cache, seen, s1.union(seen));
        }
        let (n2, e2, s2, o2) = graph_children(cache, parent, ids.drop_first(), s1.union(seen));
        (n1 + n2, edge_def(parent, ids[0]) + e1 + e2, s2, o1 + o2)
    }
}

proof fn lemma_graph_grows(cache: Map<u32, WorkItem>, id: u32, parent: u32, ids: Seq<u32>, seen: Set<u32>)
    requires
        cache.dom().finite(),
    ensures
        seen.subset_of(graph_node(cache, id, seen).2),
        seen.subset_of(graph_children(cache, parent, ids, seen).2),
    decreases unvisited(cache, seen), ids.len() + 1,
{
    if !seen.contains(id) && cache.contains_key(id) {
        lemma_unvisited_insert(cache, seen, id);
        lemma_graph_grows(cache, id, id, cache[id].children@, seen.insert(id));
    }
    if ids.len() > 0 {
        lemma_graph_node_grows(cache, ids[0], seen);
        let s1 = graph_node(cache, ids[0], seen).2;
        lemma_unvisited_mono(cache, seen, s1.union(seen));
        lemma_graph_grows(cache, id, parent, ids.drop_first(), s1.union(seen));
    }
}

proof fn lemma_graph_node_grows(cache: Map<u32, WorkItem>, id: u32, seen: Set<u32>)
    requires
        cache.dom().finite(),
    ensures
        seen.subset_of(graph_node(cache, id, seen).2),
    decreases unvisited(cache, seen), 0nat,
{
    if !seen.contains(id) && cache.contains_key(id) {
        lemma_unvisited_insert(cache, seen, id);
        lemma_graph_grows(cache, id, id, cache[id].children@, seen.insert(id));
    }
}

/// Walk the subtree of `id`, appending Mermaid node definitions to `nodes`,
/// parent → child edges to `edges`, and each newly seen id to `order`.
pub fn build_graph(
    id: u32,
    cache: &HashMap<u32, WorkItem>,
    seen: &mut HashSet<u32>,
    nodes: &mut String,
    edges: &mut String,
    order: &mut Vec<u32>,
)
    ensures
        final(nodes)@ == old(nodes)@ + graph_node(cache@, id, old(seen)@).0,
        final(edges)@ == old(edges)@ + graph_node(cache@, id, old(seen)@).1,
        final(seen)@ == graph_node(cache@, id, old(seen)@).2,
        final(order)@ == old(order)@ + graph_node(cache@, id, old(seen)@).3,
    decreases unvisited(cache@, old(seen)@), 0nat,
{
    broadcast use vstd::std_specs::hash::group_hash_axioms;

    let ghost s0 = seen@;
    if !seen.insert(id) {
        assert(nodes@ =~= old(nodes)@ + Seq::<char>::empty());
        assert(edges@ =~= old(edges)@ + Seq::<char>::empty());
        assert(order@ =~= old(order)@ + Seq::<u32>::empty());
        return;
    }
    order.push(id);
    match cache.get(&id) {
        None => {
            nodes.append("  n");
            push_dec(nodes, id as u64);
            nodes.append("[\"#");
            push_dec(nodes, id as u64);
            nodes.append(" (not loaded)\"]\n");
            assert(nodes@ =~= old(nodes)@ + node_def(id, None));
            assert(edges@ =~= old(edges)@ + Seq::<char>::empty());
            assert(order@ =~= old(order)@ + seq![id]);
        },
        Some(item) => {
            nodes.append("  n");
            push_dec(nodes, id as u64);
            nodes.append("[\"#");
            push_dec(nodes, id as u64);
            nodes.append(" ");
            let label = mermaid_label(item.title.as_str());
            nodes.append(label.as_str());
            nodes.append("\"]\n");
            let ghost ids = item.children@;
            let ghost n0 = nodes@;
            let ghost e0 = edges@;
            let ghost o0 = order@;
            let ghost v1 = s0.insert(id);
            assert(n0 =~= old(nodes)@ + node_def(id, Some(*item)));
            proof {
                lemma_unvisited_insert(cache@, s0, id);
            }
            assert(ids.skip(0) =~= ids);
            let n = item.children.len();
            let mut k: usize = 0;
            while k < n
                invariant
                    cache@.dom().finite(),
                    cache@.contains_key(id),
                    cache@[id] == *item,
                    ids == item.children@,
                    n == ids.len(),
                    k <= n,
                    v1 == s0.insert(id),
                    s0 == old(seen)@,
                    unvisited(cache@, v1) + 1 == unvisited(cache@, s0),
                    v1.subset_of(seen@),
                    ({
                        let all = graph_children(cache@, id, ids, v1);
                        let rest = graph_children(cache@, id, ids.skip(k as int), seen@);
                        &&& n0 + all.0 == nodes@ + rest.0
                        &&& e0 + all.1 == edges@ + rest.1
                        &&& all.2 == rest.2
                        &&& o0 + all.3 == order@ + rest.3
                    }),
                decreases n - k,
            {
                let c = item.children[k];
                let ghost vk = seen@;
                let ghost rest = ids.skip(k as int);
                assert(rest[0] == c);
                assert(rest.drop_first() =~= ids.skip(k + 1));
                proof {
                    lemma_unvisited_mono(cache@, v1, vk);
                }
                edges.append("  n");
                push_dec(edges, id as u64);
                edges.append(" --> n");
                push_dec(edges, c as u64);
                edges.append("\n");
                build_graph(c, cache, seen, nodes, edges, order);
                proof {
                    lemma_graph_node_grows(cache@, c, vk);
                    let after = graph_node(cache@, c, vk).2;
                    assert(after.union(vk) =~= after);
                }
                k = k + 1;
            }
            assert(ids.skip(n as int) =~= Seq::<u32>::empty());
            assert(nodes@ =~= old(nodes)@ + graph_node(cache@, id, s0).0);
            assert(edges@ =~= old(edges)@ + graph_node(cache@, id, s0).1);
            assert(order@ =~= old(order)@ + graph_node(cache@, id, s0).3);
        },
    }
}

// ---------------------------------------------------------------------------
// Story-point statistics
// ---------------------------------------------------------------------------

/// An item's estimate in tenths of a point (0 when unset or zero).
pub open spec fn est_pts(w: WorkItem) -> nat {
    match w.story_points {
        Some(p) => p as nat,
        None => 0,
    }
}

/// The cached items among the ids `order`, in that order.
pub open spec fn items_of(cache: Map<u32, WorkItem>, order: Seq<u32>) -> Seq<WorkItem>
    decreases order.len(),
{
    if order.len() == 0 {
        Seq::empty()
    } else if cache.contains_key(order.last()) {
        items_of(cache, order.drop_last()).push(cache[order.last()])
    } else {
        items_of(cache, order.drop_last())
    }
}

/// Total estimate of `items`.
pub open spec fn points_total(items: Seq<WorkItem>) -> nat
    decreases items.len(),
{
    if items.len() == 0 {
        0
    } else {
        points_total(items.drop_last()) + est_pts(items.last())
    }
}

/// Total estimate of the items of `items` whose state falls in `class`.
pub open spec fn points_in(items: Seq<WorkItem>, class: Seq<char>) -> nat
    decreases items.len(),
{
    if items.len() == 0 {
        0
    } else {
        points_in(items.drop_last(), class) + if state_class_of(items.last().state_name@) == class {
            est_pts(items.last())
        } else {
            0
        }
    }
}

/// How many of `items` carry an estimate (`est` true) or not.
pub open spec fn count_estimated(items: Seq<WorkItem>, est: bool) -> nat
    decreases items.len(),
{
    if items.len() == 0 {
        0
    } else {
        count_estimated(items.drop_last(), est) + if (est_pts(items.last()) > 0) == est {
            1nat
        } else {
            0
        }
    }
}

/// Total estimate and number of the items of `items` of type `ty`.
pub open spec fn type_tally(items: Seq<WorkItem>, ty: Seq<char>) -> (nat, nat)
    decreases items.len(),
{
    if items.len() == 0 {
        (0, 0)
    } else {
        let (p, c) = type_tally(items.drop_last(), ty);
        if items.last().item_type@ == ty {
            (p + est_pts(items.last()), c + 1)
        } else {
            (p, c)
        }
    }
}

/// Points and item count of one work-item type.
pub struct TypeTally {
    pub name: String,
    pub points: u128,
    pub count: usize,
}

/// Aggregated story-point statistics over a set of work items (points in
/// tenths).
pub struct PointStats {
    pub total: u128,
    pub done: u128,
    pub active: u128,
    pub todo: u128,
    pub estimated: usize,
    pub unestimated: usize,
    /// One entry per item type, sorted by type name.
    pub by_type: Vec<TypeTally>,
}

/// `bt` holds one entry per type of `items`, in strictly increasing name
/// order, each with the total estimate and number of items of that type.
pub open spec fn types_of(bt: Seq<TypeTally>, items: Seq<WorkItem>) -> bool {
    &&& forall|j: int, k: int|
        0 <= j < k < bt.len() ==> lex_le(#[trigger] bt[j].name@, #[trigger] bt[k].name@) && bt[j].name@
            != bt[k].name@
    &&& forall|j: int|
        0 <= j < bt.len() ==> type_tally(items, (#[trigger] bt[j]).name@) == (
            bt[j].points as nat,
            bt[j].count as nat,
        )
    &&& forall|i: int|
        0 <= i < items.len() ==> exists|j: int|
            0 <= j < bt.len() && (#[trigger] bt[j]).name@ == (#[trigger] items[i]).item_type@
}

/// `s` holds the statistics of `items`: the sums, the counts, and one entry
/// per item type in strictly increasing name order.
pub open spec fn stats_of(s: PointStats, items: Seq<WorkItem>) -> bool {
    &&& s.total == points_total(items)
    &&& s.done == points_in(items, "done"@)
    &&& s.active == points_in(items, "active"@)
    &&& s.todo == points_in(items, "new"@)
    &&& s.estimated == count_estimated(items, true)
    &&& s.unestimated == count_estimated(items, false)
    &&& types_of(s.by_type@, items)
}

proof fn lemma_tally_absent(items: Seq<WorkItem>, ty: Seq<char>)
    requires
        forall|i: int| 0 <= i < items.len() ==> (#[trigger] items[i]).item_type@ != ty,
    ensures
        type_tally(items, ty) == (0nat, 0nat),
    decreases items.len(),
{
    if items.len() > 0 {
        assert forall|i: int| 0 <= i < items.drop_last().len() implies (
        #[trigger] items.drop_last()[i]).item_type@ != ty by {
            assert(items.drop_last()[i] == items[i]);
        }
        lemma_tally_absent(items.drop_last(), ty);
    }
}

proof fn lemma_items_of_step(cache: Map<u32, WorkItem>, order: Seq<u32>, i: int)
    requires
        0 <= i < order.len(),
    ensures
        items_of(cache, order.take(i + 1)) == if cache.contains_key(order[i]) {
            items_of(cache, order.take(i)).push(cache[order[i]])
        } else {
            items_of(cache, order.take(i))
        },
        items_of(cache, order.take(i)).len() <= i,
    decreases i,
{
    assert(order.take(i + 1).drop_last() =~= order.take(i));
    if i > 0 {
        lemma_items_of_step(cache, order, i - 1);
    }
}

/// Where type name `t` sits among the sorted entries `v`: its index when
/// present (`true`), else the index at which to insert it (`false`).
fn find_type_slot(v: &Vec<TypeTally>, t: &Vec<char>) -> (r: (usize, bool))
    ensures
        r.0 <= v@.len(),
        forall|j: int| 0 <= j < r.0 ==> lex_le(#[trigger] v@[j].name@, t@) && v@[j].name@ != t@,
        r.1 ==> r.0 < v@.len() && v@[r.0 as int].name@ == t@,
        !r.1 ==> r.0 == v@.len() || (lex_le(t@, v@[r.0 as int].name@) && v@[r.0 as int].name@ != t@),
{
    let mut pos: usize = 0;
    while pos < v.len()
        invariant
            pos <= v@.len(),
            forall|j: int| 0 <= j < pos ==> lex_le(#[trigger] v@[j].name@, t@) && v@[j].name@ != t@,
        decreases v.len() - pos,
    {
        let nm = chars_of(v[pos].name.as_str());
        if crate::text::chars_eq(&nm, t) {
            return (pos, true);
        }
        if !crate::text::chars_le(&nm, t) {
            proof {
                crate::text::lemma_lex_total(nm@, t@);
            }
            return (pos, false);
        }
        pos = pos + 1;
    }
    (pos, false)
}

/// Count item `w` (estimate `p`) in the per-type entries of `prev`.
fn tally_type(
    bt: &mut Vec<TypeTally>,
    w: &WorkItem,
    p: u128,
    Ghost(prev): Ghost<Seq<WorkItem>>,
    Ghost(tot): Ghost<nat>,
    Ghost(n): Ghost<nat>,
)
    requires
        types_of(old(bt)@, prev),
        p == est_pts(*w),
        tot + p <= u128::MAX,
        n < usize::MAX,
        forall|j: int| 0 <= j < old(bt)@.len() ==> (#[trigger] old(bt)@[j]).points <= tot
            && old(bt)@[j].count <= n,
    ensures
        types_of(final(bt)@, prev.push(*w)),
        forall|j: int| 0 <= j < final(bt)@.len() ==> (#[trigger] final(bt)@[j]).points <= tot + p
            && final(bt)@[j].count <= n + 1,
{
    let ghost items = prev.push(*w);
    assert(items.drop_last() =~= prev);
    // Keep the entries sorted by name.
    let t = chars_of(w.item_type.as_str());
    let (pos, found) = find_type_slot(bt, &t);
    let ghost bt0 = bt@;
    let ghost tv = t@;
    proof {
        assert(type_tally(items, tv) == ((type_tally(prev, tv).0 + p) as nat, type_tally(prev, tv).1 + 1));
        assert forall|nm: Seq<char>| nm != tv implies #[trigger] type_tally(items, nm) == type_tally(prev, nm) by {}
    }
    if found {
        let e = bt.remove(pos);
        bt.insert(pos, TypeTally { name: e.name, points: e.points + p, count: e.count + 1 });
        proof {
            assert forall|j: int| 0 <= j < bt@.len() implies type_tally(items, (#[trigger] bt@[j]).name@) == (
                bt@[j].points as nat,
                bt@[j].count as nat,
            ) by {
                if j != pos {
                    assert(bt@[j] == bt0[j]);
                    if j < pos {
                        assert(bt0[j].name@ != bt0[pos as int].name@);
                    } else {
                        assert(bt0[pos as int].name@ != bt0[j].name@);
                    }
                }
            }
            assert forall|k: int| 0 <= k < items.len() implies exists|j: int|
                0 <= j < bt@.len() && (#[trigger] bt@[j]).name@ == (#[trigger] items[k]).item_type@ by {
                if k < prev.len() {
                    assert(items[k] == prev[k]);
                    let j = choose|j: int| 0 <= j < bt0.len() && (#[trigger] bt0[j]).name@ == prev[k].item_type@;
                    assert(bt@[j].name@ == bt0[j].name@);
                } else {
                    assert(bt@[pos as int].name@ == tv);
                }
            }
            assert forall|a: int, b: int|
                0 <= a < b < bt@.len() implies lex_le(#[trigger] bt@[a].name@, #[trigger] bt@[b].name@)
                    && bt@[a].name@ != bt@[b].name@ by {
                assert(bt@[a].name@ == bt0[a].name@);
                assert(bt@[b].name@ == bt0[b].name@);
            }
        }
    } else {
        proof {
            assert forall|k: int| 0 <= k < prev.len() implies (#[trigger] prev[k]).item_type@ != tv by {
                let j = choose|j: int| 0 <= j < bt0.len() && (#[trigger] bt0[j]).name@ == prev[k].item_type@;
                if j >= pos {
                    if bt0[j].name@ == tv {
                        if j > pos {
                            crate::text::lemma_lex_antisym(bt0[pos as int].name@, tv);
                        }
                    }
                }
            }
            lemma_tally_absent(prev, tv);
        }
        let name = w.item_type.clone();
        bt.insert(pos, TypeTally { name, points: p, count: 1 });
        proof {
            assert forall|j: int| 0 <= j < bt@.len() implies type_tally(items, (#[trigger] bt@[j]).name@) == (
                bt@[j].points as nat,
                bt@[j].count as nat,
            ) by {
                if j < pos {
                    assert(bt@[j] == bt0[j]);
                } else if j > pos {
                    assert(bt@[j] == bt0[j - 1]);
                    if bt0[j - 1].name@ == tv {
                        if j - 1 > pos {
                            crate::text::lemma_lex_antisym(bt0[pos as int].name@, tv);
                        }
                    }
                }
            }
            assert forall|k: int| 0 <= k < items.len() implies exists|j: int|
                0 <= j < bt@.len() && (#[trigger] bt@[j]).name@ == (#[trigger] items[k]).item_type@ by {
                if k < prev.len() {
                    assert(items[k] == prev[k]);
                    let j = choose|j: int| 0 <= j < bt0.len() && (#[trigger] bt0[j]).name@ == prev[k].item_type@;
                    if j < pos {
                        assert(bt@[j].name@ == bt0[j].name@);
                    } else {
                        assert(bt@[j + 1].name@ == bt0[j].name@);
                    }
                } else {
                    assert(bt@[pos as int].name@ == tv);
                }
            }
            assert forall|a: int, b: int|
                0 <= a < b < bt@.len() implies lex_le(#[trigger] bt@[a].name@, #[trigger] bt@[b].name@)
                    && bt@[a].name@ != bt@[b].name@ by {
                if pos < bt0.len() {
                    assert(lex_le(tv, bt0[pos as int].name@));
                }
                if a < pos && b < pos {
                    assert(bt@[a] == bt0[a] && bt@[b] == bt0[b]);
                } else if a < pos && b == pos {
                    assert(bt@[a] == bt0[a]);
                } else if a < pos && b > pos {
                    assert(bt@[a] == bt0[a] && bt@[b] == bt0[b - 1]);
                } else if a == pos {
                    assert(bt@[b] == bt0[b - 1]);
                    if b - 1 > pos {
                        crate::text::lemma_lex_trans(tv, bt0[pos as int].name@, bt0[b - 1].name@);
                        if tv == bt0[b - 1].name@ {
                            crate::text::lemma_lex_antisym(bt0[pos as int].name@, tv);
                        }
                    }
                } else {
                    assert(bt@[a] == bt0[a - 1] && bt@[b] == bt0[b - 1]);
                }
            }
        }
    }
}

/// Gather the statistics of the cached items among `order`.
pub fn collect_stats(cache: &HashMap<u32, WorkItem>, order: &Vec<u32>) -> (s: PointStats)
    ensures
        stats_of(s, items_of(cache@, order@)),
        stats_bounded(s),
{
    broadcast use vstd::std_specs::hash::group_hash_axioms;

    let mut s = PointStats {
        total: 0,
        done: 0,
        active: 0,
        todo: 0,
        estimated: 0,
        unestimated: 0,
        by_type: Vec::new(),
    };
    let mut i: usize = 0;
    assert(items_of(cache@, order@.take(0)) =~= Seq::<WorkItem>::empty());
    while i < order.len()
        invariant
            i <= order@.len(),
            stats_of(s, items_of(cache@, order@.take(i as int))),
            items_of(cache@, order@.take(i as int)).len() <= i,
            s.total <= items_of(cache@, order@.take(i as int)).len() * 0xFFFF_FFFFnat,
            s.done <= s.total,
            s.active <= s.total,
            s.todo <= s.total,
            s.estimated + s.unestimated == items_of(cache@, order@.take(i as int)).len(),
            forall|j: int|
                0 <= j < s.by_type@.len() ==> (#[trigger] s.by_type@[j]).points <= s.total
                    && s.by_type@[j].count <= items_of(cache@, order@.take(i as int)).len(),
        decreases order.len() - i,
    {
        let ghost prev = items_of(cache@, order@.take(i as int));
        proof {
            lemma_items_of_step(cache@, order@, i as int);
        }
        let id = order[i];
        match cache.get(&id) {
            None => {},
            Some(w) => {
                let ghost items = prev.push(*w);
                assert(items.drop_last() =~= prev);
                let p: u128 = match w.story_points {
                    Some(p) => p as u128,
                    None => 0,
                };
                assert(p == est_pts(*w));
                proof {
                    reveal_strlit("done");
                    reveal_strlit("active");
                    reveal_strlit("new");
                    assert("active"@.len() == 6 && "done"@.len() == 4 && "new"@.len() == 3);
                }
                assert(s.total + p <= items.len() * 0xFFFF_FFFFnat) by (nonlinear_arith)
                    requires
                        s.total <= prev.len() * 0xFFFF_FFFFnat,
                        p <= 0xFFFF_FFFF,
                        items.len() == prev.len() + 1,
                ;
                assert(items.len() <= usize::MAX) by {
                    lemma_items_of_step(cache@, order@, i as int);
                }
                assert(items.len() * 0xFFFF_FFFFnat <= u128::MAX) by (nonlinear_arith)
                    requires
                        items.len() <= usize::MAX,
                ;
                tally_type(&mut s.by_type, w, p, Ghost(prev), Ghost(s.total as nat), Ghost(prev.len()));
                s.total = s.total + p;
                if p > 0 {
                    s.estimated = s.estimated + 1;
                    let class = state_class(w.state_name.as_str());
                    if crate::text::str_eq(class, "done") {
                        s.done = s.done + p;
                    } else if crate::text::str_eq(class, "active") {
                        s.active = s.active + p;
                    } else if crate::text::str_eq(class, "new") {
                        s.todo = s.todo + p;
                    }
                } else {
                    s.unestimated = s.unestimated + 1;
                }
            },
        }
        i = i + 1;
    }
    assert(order@.take(order.len() as int) =~= order@);
    assert(s.total < 0x1_0000_0000_0000_0000_0000_0000) by (nonlinear_arith)
        requires
            s.total <= items_of(cache@, order@).len() * 0xFFFF_FFFFnat,
            items_of(cache@, order@).len() <= usize::MAX,
    ;
    s
}

// ---------------------------------------------------------------------------
// The statistics block and the page
// ---------------------------------------------------------------------------

pub const PAGE_0: &'static str = "<!DOCTYPE html>\n<html lang=\"en\">\n<head>\n<meta charset=\"utf-8\">\n<meta name=\"viewport\" content=\"width=device-width, initial-scale=1\">\n<title>";
pub const PAGE_1: &'static str = "</title>\n<style>\n  :root { color-scheme: light dark; }\n  body { font-family: -apple-system, Segoe UI, Roboto, Helvetica, Arial, sans-serif;\n         margin: 0; padding: 1.5rem 2rem; line-height: 1.5; }\n  h1 { font-size: 1.4rem; margin: 0 0 .25rem; }\n  .meta { color: #888; font-size: .85rem; margin-bottom: 1.5rem; }\n  .cols { display: flex; gap: 2rem; align-items: flex-start; flex-wrap: wrap; }\n  .col { flex: 1 1 420px; min-width: 320px; }\n  h2 { font-size: 1rem; text-transform: uppercase; letter-spacing: .05em; color: #888;\n        border-bottom: 1px solid #8884; padding-bottom: .3rem; }\n  ul { list-style: none; padding-left: 1.1rem; margin: .2rem 0; }\n  li { margin: .15rem 0; }\n  details > summary { cursor: pointer; }\n  .leaf { padding-left: 1.1rem; }\n  .id { font-variant-numeric: tabular-nums; color: #888; }\n  a { text-decoration: none; } a:hover { text-decoration: underline; }\n  .type { font-size: .72rem; padding: .05rem .4rem; border-radius: .6rem;\n           background: #8883; margin: 0 .35rem; white-space: nowrap; }\n  .state { font-size: .72rem; padding: .05rem .4rem; border-radius: .6rem; margin-left: .35rem; }\n  .state.new { background:#9993; color:#bbb; }\n  .state.active { background:#2d8cff33; color:#4ea0ff; }\n  .state.done { background:#27ae6033; color:#2ecc71; }\n  .state.removed { background:#e74c3c33; color:#e74c3c; }\n  .who { color:#888; font-size:.8rem; margin-left:.35rem; }\n  .mermaid { background: transparent; }\n  .stats { margin-bottom: 1.5rem; }\n  .cards { display:flex; gap:1rem; flex-wrap:wrap; margin:.5rem 0 1rem; }\n  .card { background:#8881; border-radius:.6rem; padding:.6rem 1rem; min-width:6rem; }\n  .card .n { font-size:1.6rem; font-weight:600; font-variant-numeric:tabular-nums; }\n  .card .l { font-size:.72rem; text-transform:uppercase; letter-spacing:.05em; color:#888; }\n  .bar { display:flex; height:1.1rem; border-radius:.55rem; overflow:hidden; max-width:640px;\n          background:#8882; font-size:.7rem; }\n  .bar > span { display:flex; align-items:center; justify-content:center; color:#0008; white-space:nowrap; }\n  .bar .b-done { background:#2ecc71; }\n  .bar .b-active { background:#4ea0ff; }\n  .bar .b-todo { background:#9995; color:#fffa; }\n  table { border-collapse:collapse; font-size:.85rem; margin-top:.4rem; }\n  th, td { text-align:left; padding:.2rem .9rem .2rem 0; }\n  th { color:#888; font-weight:500; border-bottom:1px solid #8884; }\n  td.num, th.num { text-align:right; font-variant-numeric:tabular-nums; }\n</style>\n</head>\n<body>\n  <h1>";
pub const PAGE_2: &'static str = "</h1>\n  <div class=\"meta\">Rooted at #";
pub const PAGE_3: &'static str = " · ";
pub const PAGE_4: &'static str = " work item(s) · generated by lazyaz</div>\n  ";
pub const PAGE_5: &'static str = "\n  <div class=\"cols\">\n    <div class=\"col\">\n      <h2>Hierarchy</h2>\n      ";
pub const PAGE_6: &'static str = "\n    </div>\n    <div class=\"col\">\n      <h2>Dependency graph</h2>\n      <pre class=\"mermaid\">\nflowchart TD\n";
pub const PAGE_7: &'static str = "";
pub const PAGE_8: &'static str = "      </pre>\n    </div>\n  </div>\n  <script type=\"module\">\n    import mermaid from 'https://cdn.jsdelivr.net/npm/mermaid@11/dist/mermaid.esm.min.mjs';\n    mermaid.initialize({ startOnLoad: true, securityLevel: 'loose' });\n  </script>\n</body>\n</html>\n";
pub const STATS_0: &'static str = "<div class=\"stats\">\n      <h2>Story points</h2>\n      <div class=\"cards\">\n        <div class=\"card\"><div class=\"n\">";
pub const STATS_1: &'static str = "</div><div class=\"l\">total points</div></div>\n        <div class=\"card\"><div class=\"n\">";
pub const STATS_2: &'static str = "</div><div class=\"l\">done (";
pub const STATS_3: &'static str = "%)</div></div>\n        <div class=\"card\"><div class=\"n\">";
pub const STATS_4: &'static str = "</div><div class=\"l\">in progress</div></div>\n        <div class=\"card\"><div class=\"n\">";
pub const STATS_5: &'static str = "</div><div class=\"l\">to do</div></div>\n        <div class=\"card\"><div class=\"n\">";
pub const STATS_6: &'static str = "/";
pub const STATS_7: &'static str = "</div><div class=\"l\">estimated</div></div>\n      </div>\n      ";
pub const STATS_8: &'static str = "\n      <table>\n        <tr><th>Type</th><th class=\"num\">Items</th><th class=\"num\">Points</th></tr>\n        ";
pub const STATS_9: &'static str = "\n      </table>\n    </div>";

/// `a / b` rounded to the nearest integer, ties to even (how a ratio prints
/// with no decimals); 0 when `b` is 0.
pub open spec fn round_half_even(a: nat, b: nat) -> nat {
    if b == 0 {
        0
    } else {
        let q = a / b;
        let r = a % b;
        if 2 * r > b || (2 * r == b && q % 2 == 1) {
            q + 1
        } else {
            q
        }
    }
}

/// Executable [`round_half_even`].
fn round_div(a: u128, b: u128) -> (r: u128)
    requires
        a < 0x1_0000_0000_0000_0000_0000_0000_0000,
    ensures
        r == round_half_even(a as nat, b as nat),
{
    if b == 0 {
        return 0;
    }
    let q = a / b;
    let r = a % b;
    if r > b - r || (r == b - r && q % 2 == 1) {
        q + 1
    } else {
        q
    }
}

/// `v` as a percentage of `total` with one decimal (`12.5`).
pub open spec fn pct_tenths_text(v: nat, total: nat) -> Seq<char> {
    let t = round_half_even(v * 1000, total);
    dec(t / 10) + "."@ + dec(t % 10)
}

/// One segment of the burn-down bar (nothing for a zero value).
pub open spec fn seg_of(class: Seq<char>, label: Seq<char>, v: nat, total: nat) -> Seq<char> {
    if v == 0 {
        Seq::empty()
    } else {
        "<span class=\""@ + class + "\" style=\"width:"@ + pct_tenths_text(v, total) + "%\">"@ + pts_text(v) + " "@
            + label + "</span>"@
    }
}

/// The per-type table rows.
pub open spec fn rows_of(bt: Seq<TypeTally>) -> Seq<char>
    decreases bt.len(),
{
    if bt.len() == 0 {
        Seq::empty()
    } else {
        rows_of(bt.drop_last()) + "<tr><td>"@ + esc_of(bt.last().name@) + "</td><td class=\"num\">"@ + dec(
            bt.last().count as nat,
        ) + "</td><td class=\"num\">"@ + pts_text(bt.last().points as nat) + "</td></tr>"@
    }
}

/// The statistics block: a note when nothing is estimated, else the summary
/// cards (with the done share rounded to a whole percent), the burn-down bar
/// and the per-type table.
pub open spec fn stats_html_of(s: PointStats) -> Seq<char> {
    if s.estimated == 0 {
        "<div class=\"stats\"><h2>Story points</h2><p class=\"meta\">No story points set on these items ("@
            + dec(s.unestimated as nat) + " unestimated).</p></div>"@
    } else {
        let bar = "<div class=\"bar\">"@ + seg_of("b-done"@, "done"@, s.done as nat, s.total as nat) + seg_of(
            "b-active"@,
            "active"@,
            s.active as nat,
            s.total as nat,
        ) + seg_of("b-todo"@, "to do"@, s.todo as nat, s.total as nat) + "</div>"@;
        STATS_0@ + pts_text(s.total as nat) + STATS_1@ + pts_text(s.done as nat) + STATS_2@ + dec(
            round_half_even(s.done as nat * 100, s.total as nat),
        ) + STATS_3@ + pts_text(s.active as nat) + STATS_4@ + pts_text(s.todo as nat) + STATS_5@ + dec(
            s.estimated as nat,
        ) + STATS_6@ + dec((s.estimated + s.unestimated) as nat) + STATS_7@ + bar + STATS_8@ + rows_of(
            s.by_type@,
        ) + STATS_9@
    }
}

/// The sums of `s` are small enough for the percentage arithmetic, and the
/// item counts add up within `usize`.
pub open spec fn stats_bounded(s: PointStats) -> bool {
    &&& s.total < 0x1_0000_0000_0000_0000_0000_0000
    &&& s.done <= s.total
    &&& s.active <= s.total
    &&& s.todo <= s.total
    &&& s.estimated + s.unestimated <= usize::MAX
}

/// Append one burn-down segment.
fn push_seg(out: &mut String, class: &str, label: &str, v: u128, total: u128)
    requires
        v <= total < 0x1_0000_0000_0000_0000_0000_0000,
    ensures
        final(out)@ == old(out)@ + seg_of(class@, label@, v as nat, total as nat),
{
    if v == 0 {
        assert(final(out)@ =~= old(out)@ + Seq::<char>::empty());
        return;
    }
    out.append("<span class=\"");
    out.append(class);
    out.append("\" style=\"width:");
    let t = round_div(v * 1000, total);
    push_dec_wide(out, t / 10);
    out.append(".");
    push_dec_wide(out, t % 10);
    out.append("%\">");
    push_pts(out, v);
    out.append(" ");
    out.append(label);
    out.append("</span>");
    assert(final(out)@ =~= old(out)@ + seg_of(class@, label@, v as nat, total as nat));
}

/// Render the story-points block (summary cards, a done/active/to-do
/// burn-down bar, and a per-type table).
pub fn render_stats(s: &PointStats) -> (r: String)
    requires
        stats_bounded(*s),
    ensures
        r@ == stats_html_of(*s),
{
    let mut out = String::new();
    if s.estimated == 0 {
        out.append("<div class=\"stats\"><h2>Story points</h2><p class=\"meta\">No story points set on these items (");
        push_dec(&mut out, s.unestimated as u64);
        out.append(" unestimated).</p></div>");
        assert(out@ =~= stats_html_of(*s));
        return out;
    }
    let mut bar = String::new();
    bar.append("<div class=\"bar\">");
    push_seg(&mut bar, "b-done", "done", s.done, s.total);
    push_seg(&mut bar, "b-active", "active", s.active, s.total);
    push_seg(&mut bar, "b-todo", "to do", s.todo, s.total);
    bar.append("</div>");
    let mut rows = String::new();
    let mut i: usize = 0;
    while i < s.by_type.len()
        invariant
            i <= s.by_type@.len(),
            rows@ == rows_of(s.by_type@.take(i as int)),
        decreases s.by_type.len() - i,
    {
        let e = &s.by_type[i];
        rows.append("<tr><td>");
        push_owned(&mut rows, esc(e.name.as_str()));
        rows.append("</td><td class=\"num\">");
        push_dec(&mut rows, e.count as u64);
        rows.append("</td><td class=\"num\">");
        push_pts(&mut rows, e.points);
        rows.append("</td></tr>");
        assert(s.by_type@.take(i + 1).drop_last() =~= s.by_type@.take(i as int));
        i = i + 1;
    }
    assert(s.by_type@.take(s.by_type.len() as int) =~= s.by_type@);
    out.append(STATS_0);
    push_pts(&mut out, s.total);
    out.append(STATS_1);
    push_pts(&mut out, s.done);
    out.append(STATS_2);
    push_dec_wide(&mut out, round_div(s.done * 100, s.total));
    out.append(STATS_3);
    push_pts(&mut out, s.active);
    out.append(STATS_4);
    push_pts(&mut out, s.todo);
    out.append(STATS_5);
    push_dec(&mut out, s.estimated as u64);
    out.append(STATS_6);
    push_dec(&mut out, (s.estimated + s.unestimated) as u64);
    out.append(STATS_7);
    out.append(bar.as_str());
    out.append(STATS_8);
    out.append(rows.as_str());
    out.append(STATS_9);
    assert(out@ =~= stats_html_of(*s));
    out
}

/// The whole page: the title (verbatim, in the head and as the heading), the
/// root id, the number of items walked, the statistics block, the hierarchy,
/// and the Mermaid node and edge lines.
pub open spec fn page_of(
    title: Seq<char>,
    root: u32,
    total: nat,
    stats: Seq<char>,
    hier: Seq<char>,
    nodes: Seq<char>,
    edges: Seq<char>,
) -> Seq<char> {
    PAGE_0@ + title + PAGE_1@ + title + PAGE_2@ + dec(root as nat) + PAGE_3@ + dec(total) + PAGE_4@ + stats
        + PAGE_5@ + hier + PAGE_6@ + nodes + PAGE_7@ + edges + PAGE_8@
}

/// Build the full HTML document for the subtree rooted at `root`.
/// `url_prefix`, when set, is prepended to an id to link each item to the web
/// UI (`{prefix}{id}`).
pub fn render_tree_html(root: u32, cache: &HashMap<u32, WorkItem>, title: &str, url_prefix: Option<&str>) -> (r:
    String)
    ensures
        ({
            let hier = hier_node(cache@, prefix_view(url_prefix), root, Set::empty());
            let graph = graph_node(cache@, root, Set::empty());
            exists|s: PointStats|
                stats_of(s, items_of(cache@, graph.3)) && stats_bounded(s) && r@ == page_of(
                    title@,
                    root,
                    graph.2.len(),
                    stats_html_of(s),
                    hier.0,
                    graph.0,
                    graph.1,
                )
        }),
{
    broadcast use vstd::std_specs::hash::group_hash_axioms;

    let mut hierarchy = String::new();
    let mut visited: HashSet<u32> = HashSet::new();
    render_node(root, cache, url_prefix, &mut visited, &mut hierarchy);
    let mut nodes = String::new();
    let mut edges = String::new();
    let mut seen: HashSet<u32> = HashSet::new();
    let mut order: Vec<u32> = Vec::new();
    build_graph(root, cache, &mut seen, &mut nodes, &mut edges, &mut order);
    let total = seen.len();
    let stats = collect_stats(cache, &order);
    let stats_html = render_stats(&stats);
    let mut out = String::new();
    out.append(PAGE_0);
    out.append(title);
    out.append(PAGE_1);
    out.append(title);
    out.append(PAGE_2);
    push_dec(&mut out, root as u64);
    out.append(PAGE_3);
    push_dec(&mut out, total as u64);
    out.append(PAGE_4);
    out.append(stats_html.as_str());
    out.append(PAGE_5);
    out.append(hierarchy.as_str());
    out.append(PAGE_6);
    out.append(nodes.as_str());
    out.append(PAGE_7);
    out.append(edges.as_str());
    out.append(PAGE_8);
    assert(hierarchy@ =~= hier_node(cache@, prefix_view(url_prefix), root, Set::empty()).0);
    assert(nodes@ =~= graph_node(cache@, root, Set::empty()).0);
    assert(edges@ =~= graph_node(cache@, root, Set::empty()).1);
    assert(order@ =~= graph_node(cache@, root, Set::empty()).3);
    assert(out@ =~= page_of(
        title@,
        root,
        seen@.len(),
        stats_html@,
        hierarchy@,
        nodes@,
        edges@,
    ));
    out
}


/// Escaped text holds no markup characters: no `<`, `>` or `"`, so item text
/// can never open a tag or end an attribute.
pub proof fn law_escaped_has_no_markup(s: Seq<char>)
    ensures
        forall|i: int|
            0 <= i < esc_of(s).len() ==> #[trigger] esc_of(s)[i] != '<' && esc_of(s)[i] != '>' && esc_of(s)[i]
                != '"',
    decreases s.len(),
{
    reveal_strlit("&amp;");
    reveal_strlit("&lt;");
    reveal_strlit("&gt;");
    reveal_strlit("&quot;");
    reveal_strlit("&#39;");
    if s.len() > 0 {
        law_escaped_has_no_markup(s.drop_last());
        let a = esc_of(s.drop_last());
        let b = esc_char(s.last());
        assert forall|i: int| 0 <= i < b.len() implies #[trigger] b[i] != '<' && b[i] != '>' && b[i] != '"' by {}
        assert forall|i: int| 0 <= i < esc_of(s).len() implies #[trigger] esc_of(s)[i] != '<' && esc_of(s)[i] != '>'
            && esc_of(s)[i] != '"' by {
            if i < a.len() {
                assert(esc_of(s)[i] == a[i]);
            } else {
                assert(esc_of(s)[i] == b[i - a.len()]);
            }
        }
    }
}

/// A Mermaid label holds no double quote and no bracket, so it cannot end
/// the quoted label or the node shape.
pub proof fn law_mermaid_label_is_safe(s: Seq<char>)
    ensures
        forall|i: int|
            0 <= i < mermaid_label_of(s).len() ==> #[trigger] mermaid_label_of(s)[i] != '"' && mermaid_label_of(s)[i]
                != '[' && mermaid_label_of(s)[i] != ']',
{
}


/// How a state name is classed: it is "done" when its lower-cased text
/// contains "done", "closed", "resolved" or "completed"; else "active" when
/// it contains "active", "progress", "committed" or "doing"; else "removed"
/// when it contains "removed" or "cut"; and "new" otherwise.
pub proof fn law_state_classes(name: Seq<char>)
    ensures
        forall|w: Seq<char>, i: int|
            (w == "done"@ || w == "closed"@ || w == "resolved"@ || w == "completed"@) && #[trigger] occurs_at(
                lower_seq(name),
                w,
                i,
            ) ==> state_class_of(name) == "done"@,
        state_class_of(name) == "done"@ ==> exists|w: Seq<char>, i: int|
            (w == "done"@ || w == "closed"@ || w == "resolved"@ || w == "completed"@) && #[trigger] occurs_at(
                lower_seq(name),
                w,
                i,
            ),
        state_class_of(name) != "done"@ ==> forall|w: Seq<char>, i: int|
            (w == "active"@ || w == "progress"@ || w == "committed"@ || w == "doing"@) && #[trigger] occurs_at(
                lower_seq(name),
                w,
                i,
            ) ==> state_class_of(name) == "active"@,
        state_class_of(name) == "active"@ ==> exists|w: Seq<char>, i: int|
            (w == "active"@ || w == "progress"@ || w == "committed"@ || w == "doing"@) && #[trigger] occurs_at(
                lower_seq(name),
                w,
                i,
            ),
        state_class_of(name) != "done"@ && state_class_of(name) != "active"@ ==> forall|
            w: Seq<char>,
            i: int,
        |
            (w == "removed"@ || w == "cut"@) && #[trigger] occurs_at(lower_seq(name), w, i)
                ==> state_class_of(name) == "removed"@,
        state_class_of(name) == "removed"@ ==> exists|w: Seq<char>, i: int|
            (w == "removed"@ || w == "cut"@) && #[trigger] occurs_at(lower_seq(name), w, i),
        state_class_of(name) == "done"@ || state_class_of(name) == "active"@ || state_class_of(name)
            == "removed"@ || state_class_of(name) == "new"@,
{
    reveal_strlit("done");
    reveal_strlit("active");
    reveal_strlit("removed");
    reveal_strlit("new");
    let s = lower_seq(name);
    // The four classes differ in length.
    assert("done"@.len() == 4 && "active"@.len() == 6 && "removed"@.len() == 7 && "new"@.len()
        == 3);
    if state_class_of(name) == "done"@ {
        let w = if has_sub(s, "done"@) {
            "done"@
        } else if has_sub(s, "closed"@) {
            "closed"@
        } else if has_sub(s, "resolved"@) {
            "resolved"@
        } else {
            "completed"@
        };
        assert(has_sub(s, w));
        let i = choose|i: int| occurs_at(s, w, i);
        assert(occurs_at(lower_seq(name), w, i));
    }
    if state_class_of(name) == "active"@ {
        let w = if has_sub(s, "active"@) {
            "active"@
        } else if has_sub(s, "progress"@) {
            "progress"@
        } else if has_sub(s, "committed"@) {
            "committed"@
        } else {
            "doing"@
        };
        assert(has_sub(s, w));
        let i = choose|i: int| occurs_at(s, w, i);
        assert(occurs_at(lower_seq(name), w, i));
    }
    if state_class_of(name) == "removed"@ {
        let w = if has_sub(s, "removed"@) {
            "removed"@
        } else {
            "cut"@
        };
        assert(has_sub(s, w));
        let i = choose|i: int| occurs_at(s, w, i);
        assert(occurs_at(lower_seq(name), w, i));
    }
    assert forall|w: Seq<char>, i: int|
        (w == "done"@ || w == "closed"@ || w == "resolved"@ || w == "completed"@) && #[trigger] occurs_at(
            s,
            w,
            i,
        ) implies state_class_of(name) == "done"@ by {
        assert(has_sub(s, w));
    }
    assert forall|w: Seq<char>, i: int|
        state_class_of(name) != "done"@ && (w == "active"@ || w == "progress"@ || w == "committed"@
            || w == "doing"@) && #[trigger] occurs_at(s, w, i) implies state_class_of(name)
        == "active"@ by {
        assert(has_sub(s, w));
    }
    assert forall|w: Seq<char>, i: int|
        state_class_of(name) != "done"@ && state_class_of(name) != "active"@ && (w == "removed"@
            || w == "cut"@) && #[trigger] occurs_at(s, w, i) implies state_class_of(name)
        == "removed"@ by {
        assert(has_sub(s, w));
    }
}

} // verus!
