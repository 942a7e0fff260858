//! The relationship tree behind the Tree tab: which work items are cached,
//! which nodes are expanded, the flattened rows that are drawn, the cursor,
//! and the fetch plan that tells the caller which items to load next.
//!
//! Fetching itself happens elsewhere (on a background thread): the methods
//! that may need new items return their ids, and [`TreeModel::receive`] takes
//! each fetched item back.
use crate::api::models::WorkItem;
use crate::app::{item_haystack, passes, FuzzyFilter};
use crate::ui::tree::{TreeRow, TreeState};
use std::collections::{HashMap, HashSet};
use vstd::prelude::*;

verus! {

broadcast use vstd::std_specs::hash::group_hash_axioms;

/// The cached parent of `id` (none when `id` is not cached).
pub open spec fn parent_of(cache: Map<u32, WorkItem>, id: u32) -> Option<u32> {
    if cache.contains_key(id) {
        cache[id].parent
    } else {
        None
    }
}

/// The rows for node `id` at `depth`: its own row, then, when it is expanded
/// and cached, the subtrees of its cached children in order. `fuel` bounds
/// the depth of the walk (the caller passes the cache size, which no chain of
/// distinct cached items exceeds).
pub open spec fn node_rows(
    cache: Map<u32, WorkItem>,
    expanded: Set<u32>,
    id: u32,
    depth: usize,
    fuel: nat,
) -> Seq<TreeRow>
    decreases fuel, 0nat,
{
    let row = TreeRow::Node { id, depth };
    if fuel > 0 && expanded.contains(id) && cache.contains_key(id) {
        seq![row] + child_rows(cache, expanded, cache[id].children@, (depth + 1) as usize, (fuel - 1) as nat)
    } else {
        seq![row]
    }
}

/// The subtrees of the cached ids among `ids`, in order, at `depth`.
pub open spec fn child_rows(
    cache: Map<u32, WorkItem>,
    expanded: Set<u32>,
    ids: Seq<u32>,
    depth: usize,
    fuel: nat,
) -> Seq<TreeRow>
    decreases fuel, ids.len(),
{
    if ids.len() == 0 {
        Seq::empty()
    } else {
        let first = if cache.contains_key(ids[0]) {
            node_rows(cache, expanded, ids[0], depth, fuel)
        } else {
            Seq::empty()
        };
        first + child_rows(cache, expanded, ids.drop_first(), depth, fuel)
    }
}

/// The unfiltered rows of a tree shown from `root`: a `…` marker when the
/// root has a cached parent, then the root's subtree at depth 0.
pub open spec fn tree_rows_of(cache: Map<u32, WorkItem>, expanded: Set<u32>, root: Option<u32>) -> Seq<
    TreeRow,
> {
    match root {
        None => Seq::empty(),
        Some(r) => {
            let marker = if parent_of(cache, r) is Some {
                seq![TreeRow::MoreAbove]
            } else {
                Seq::empty()
            };
            marker + node_rows(cache, expanded, r, 0, cache.len())
        },
    }
}

/// Append the rows of node `id` (see [`node_rows`]) to `out`.
fn flatten_into(
    cache: &HashMap<u32, WorkItem>,
    expanded: &HashSet<u32>,
    id: u32,
    depth: usize,
    fuel: usize,
    out: &mut Vec<TreeRow>,
)
    requires
        depth + fuel <= usize::MAX,
    ensures
        final(out)@ == old(out)@ + node_rows(cache@, expanded@, id, depth, fuel as nat),
    decreases fuel,
{
    let ghost start = out@;
    out.push(TreeRow::Node { id, depth });
    if fuel > 0 && expanded.contains(&id) {
        match cache.get(&id) {
            Some(item) => {
                let ghost ids = item.children@;
                let ghost after_row = out@;
                assert(ids.skip(0) =~= ids);
                let mut k: usize = 0;
                while k < item.children.len()
                    invariant
                        cache@.contains_key(id),
                        cache@[id] == *item,
                        ids == item.children@,
                        k <= ids.len(),
                        0 < fuel,
                        depth + fuel <= usize::MAX,
                        after_row + child_rows(cache@, expanded@, ids, (depth + 1) as usize, (fuel - 1) as nat)
                            == out@ + child_rows(
                            cache@,
                            expanded@,
                            ids.skip(k as int),
                            (depth + 1) as usize,
                            (fuel - 1) as nat,
                        ),
                    decreases ids.len() - k,
                {
                    let c = item.children[k];
                    let ghost rest = ids.skip(k as int);
                    assert(rest[0] == c);
                    assert(rest.drop_first() =~= ids.skip(k + 1));
                    let ghost before = out@;
                    if cache.contains_key(&c) {
                        flatten_into(cache, expanded, c, depth + 1, fuel - 1, out);
                    }
                    assert(before + child_rows(cache@, expanded@, rest, (depth + 1) as usize, (fuel - 1) as nat)
                        =~= out@ + child_rows(
                        cache@,
                        expanded@,
                        ids.skip(k + 1),
                        (depth + 1) as usize,
                        (fuel - 1) as nat,
                    ));
                    k = k + 1;
                }
                assert(ids.skip(k as int) =~= Seq::<u32>::empty());
                assert(out@ =~= start + node_rows(cache@, expanded@, id, depth, fuel as nat));
            },
            None => {
                assert(out@ =~= start + node_rows(cache@, expanded@, id, depth, fuel as nat));
            },
        }
    } else {
        assert(out@ =~= start + node_rows(cache@, expanded@, id, depth, fuel as nat));
    }
}

/// The unfiltered rows of the tree shown from `root` (see [`tree_rows_of`]).
pub fn tree_rows(root: Option<u32>, cache: &HashMap<u32, WorkItem>, expanded: &HashSet<u32>) -> (r: Vec<
    TreeRow,
>)
    ensures
        r@ == tree_rows_of(cache@, expanded@, root),
{
    let mut out: Vec<TreeRow> = Vec::new();
    match root {
        None => {},
        Some(r) => {
            let has_parent = match cache.get(&r) {
                Some(w) => w.parent.is_some(),
                None => false,
            };
            if has_parent {
                out.push(TreeRow::MoreAbove);
            }
            let ghost marker = out@;
            flatten_into(cache, expanded, r, 0, cache.len(), &mut out);
            assert(marker =~= (if parent_of(cache@, r) is Some {
                seq![TreeRow::MoreAbove]
            } else {
                Seq::empty()
            }));
        },
    }
    out
}

/// The ids of the node rows of `flat`.
pub open spec fn shown_ids(flat: Seq<TreeRow>) -> Set<u32> {
    Set::new(|id: u32| exists|j: int| 0 <= j < flat.len() && flat[j] == (TreeRow::Node { id, depth: flat[j]->depth }))
}

/// Row `j` of `flat` is a node row for `id`.
pub open spec fn row_is(flat: Seq<TreeRow>, j: int, id: u32) -> bool {
    flat[j] matches TreeRow::Node { id: i, .. } && i == id
}

/// The ancestors of `id` reached by following cached parents while they stay
/// within `shown`, taking at most `fuel` steps.
pub open spec fn ancestors_in(cache: Map<u32, WorkItem>, shown: Set<u32>, id: u32, fuel: nat) -> Set<u32>
    decreases fuel,
{
    if fuel == 0 {
        Set::empty()
    } else {
        match parent_of(cache, id) {
            Some(p) => if shown.contains(p) {
                ancestors_in(cache, shown, p, (fuel - 1) as nat).insert(p)
            } else {
                Set::empty()
            },
            None => Set::empty(),
        }
    }
}

/// Node `m` is cached and its item fuzzy-matches the filter.
pub open spec fn hit(cache: Map<u32, WorkItem>, f: FuzzyFilter, m: u32) -> bool {
    cache.contains_key(m) && passes(f, cache[m])
}

/// The ids a filtered tree keeps: every shown node whose item matches, and
/// the chain of its shown ancestors (walked at most `flat.len()` steps, which
/// covers every chain of distinct shown nodes).
pub open spec fn kept_ids(cache: Map<u32, WorkItem>, flat: Seq<TreeRow>, f: FuzzyFilter) -> Set<u32> {
    Set::new(
        |k: u32|
            exists|j: int|
                0 <= j < flat.len() && #[trigger] keeps_via(cache, flat, f, flat[j], k),
    )
}

/// Row `r` is a matching node whose keep-chain includes `k`.
pub open spec fn keeps_via(cache: Map<u32, WorkItem>, flat: Seq<TreeRow>, f: FuzzyFilter, r: TreeRow, k: u32) -> bool {
    match r {
        TreeRow::Node { id: m, .. } => hit(cache, f, m) && (k == m || ancestors_in(
            cache,
            shown_ids(flat),
            m,
            flat.len(),
        ).contains(k)),
        TreeRow::MoreAbove => false,
    }
}

/// Row `r` survives filtering with the kept ids `keep`.
pub open spec fn row_kept(r: TreeRow, keep: Set<u32>) -> bool {
    r matches TreeRow::Node { id, .. } && keep.contains(id)
}

/// The rows of `flat` that survive filtering, in order: node rows whose id
/// is kept (the `…` marker is dropped).
pub open spec fn filtered_rows(cache: Map<u32, WorkItem>, flat: Seq<TreeRow>, f: FuzzyFilter) -> Seq<TreeRow> {
    flat.filter(|r: TreeRow| row_kept(r, kept_ids(cache, flat, f)))
}

/// The set of ids of the node rows of `flat`.
fn shown_set(flat: &Vec<TreeRow>) -> (r: HashSet<u32>)
    ensures
        r@ == shown_ids(flat@),
{
    let mut s: HashSet<u32> = HashSet::new();
    let mut i: usize = 0;
    while i < flat.len()
        invariant
            i <= flat@.len(),
            s@ == Set::new(|id: u32| exists|j: int| 0 <= j < i && flat@[j] == (TreeRow::Node { id, depth: flat@[j]->depth })),
        decreases flat.len() - i,
    {
        match flat[i] {
            TreeRow::Node { id, depth } => {
                s.insert(id);
            },
            TreeRow::MoreAbove => {},
        }
        i = i + 1;
        assert(s@ =~= Set::new(|id: u32| exists|j: int| 0 <= j < i && flat@[j] == (TreeRow::Node { id, depth: flat@[j]->depth })));
    }
    assert(s@ =~= shown_ids(flat@));
    s
}

/// Keep only tree rows that fuzzy-match the filter, plus the shown ancestor
/// path of each match, so the matches stay located in the hierarchy; drops
/// the `…` marker (see [`filtered_rows`]).
pub fn filter_rows(flat: Vec<TreeRow>, cache: &HashMap<u32, WorkItem>, filter: &FuzzyFilter) -> (r: Vec<TreeRow>)
    ensures
        r@ == filtered_rows(cache@, flat@, *filter),
{
    let shown = shown_set(&flat);
    let ghost sh = shown@;
    let n = flat.len();
    let mut keep: HashSet<u32> = HashSet::new();
    let mut i: usize = 0;
    while i < n
        invariant
            n == flat@.len(),
            i <= n,
            sh == shown_ids(flat@),
            shown@ == sh,
            keep@ == Set::new(|k: u32| exists|j: int| 0 <= j < i && #[trigger] keeps_via(cache@, flat@, *filter, flat@[j], k)),
        decreases n - i,
    {
        let ghost before = keep@;
        match flat[i] {
            TreeRow::Node { id, .. } => {
                let matched = match cache.get(&id) {
                    Some(w) => {
                        let h = item_haystack(w);
                        filter.matches(h.as_str())
                    },
                    None => false,
                };
                if matched {
                    keep.insert(id);
                    let mut cur = id;
                    let mut steps: usize = 0;
                    let mut going = true;
                    while going && steps < n
                        invariant
                            n == flat@.len(),
                            steps <= n,
                            shown@ == sh,
                            sh == shown_ids(flat@),
                            keep@.union(ancestors_in(cache@, sh, cur, (n - steps) as nat)) =~= before.insert(id).union(
                                ancestors_in(cache@, sh, id, n as nat),
                            ),
                            !going ==> ancestors_in(cache@, sh, cur, (n - steps) as nat) =~= Set::<u32>::empty(),
                        decreases n - steps + (if going { 1int } else { 0int }),
                    {
                        let p = match cache.get(&cur) {
                            Some(w) => w.parent,
                            None => None,
                        };
                        match p {
                            Some(q) => {
                                if shown.contains(&q) {
                                    let ghost a_old = ancestors_in(cache@, sh, cur, (n - steps) as nat);
                                    let ghost a_new = ancestors_in(cache@, sh, q, (n - steps - 1) as nat);
                                    assert(a_old == a_new.insert(q));
                                    keep.insert(q);
                                    cur = q;
                                    steps = steps + 1;
                                } else {
                                    going = false;
                                }
                            },
                            None => {
                                going = false;
                            },
                        }
                    }
                    assert(keep@ =~= before.insert(id).union(ancestors_in(cache@, sh, id, n as nat)));
                }
            },
            TreeRow::MoreAbove => {},
        }
        i = i + 1;
        assert(keep@ =~= Set::new(|k: u32| exists|j: int| 0 <= j < i && #[trigger] keeps_via(cache@, flat@, *filter, flat@[j], k))) by {
            assert forall|k: u32| (exists|j: int| 0 <= j < i && #[trigger] keeps_via(cache@, flat@, *filter, flat@[j], k)) implies keep@.contains(k) by {
                let j = choose|j: int| 0 <= j < i && #[trigger] keeps_via(cache@, flat@, *filter, flat@[j], k);
                if j < i - 1 {
                    assert(before.contains(k));
                }
            }
            assert forall|k: u32| keep@.contains(k) implies (exists|j: int| 0 <= j < i && #[trigger] keeps_via(cache@, flat@, *filter, flat@[j], k)) by {
                if !before.contains(k) {
                    assert(keeps_via(cache@, flat@, *filter, flat@[i - 1], k));
                }
            }
        }
    }
    let ghost keep_set = kept_ids(cache@, flat@, *filter);
    assert(keep@ =~= keep_set);
    let mut out: Vec<TreeRow> = Vec::new();
    let mut k: usize = 0;
    while k < n
        invariant
            n == flat@.len(),
            k <= n,
            keep@ == keep_set,
            out@ == flat@.take(k as int).filter(|r: TreeRow| row_kept(r, keep_set)),
        decreases n - k,
    {
        proof {
            reveal(Seq::filter);
            assert(flat@.take(k + 1).drop_last() =~= flat@.take(k as int));
        }
        let r = flat[k];
        let keep_row = match r {
            TreeRow::Node { id, .. } => keep.contains(&id),
            TreeRow::MoreAbove => false,
        };
        if keep_row {
            out.push(r);
        }
        k = k + 1;
    }
    assert(flat@.take(n as int) =~= flat@);
    out
}

/// The positions of the node rows of `flat`, in order.
pub open spec fn node_positions(flat: Seq<TreeRow>) -> Seq<usize>
    decreases flat.len(),
{
    if flat.len() == 0 {
        Seq::empty()
    } else {
        let r = node_positions(flat.drop_last());
        if flat.last() is Node {
            r.push((flat.len() - 1) as usize)
        } else {
            r
        }
    }
}

/// Distance between two positions.
pub open spec fn dist(a: int, b: int) -> int {
    if a >= b {
        a - b
    } else {
        b - a
    }
}

/// The first entry of `ps` closest to `sel`.
pub open spec fn nearest(ps: Seq<usize>, sel: usize) -> usize
    decreases ps.len(),
{
    if ps.len() <= 1 {
        ps[0]
    } else {
        let b = nearest(ps.drop_last(), sel);
        if dist(ps.last() as int, sel as int) < dist(b as int, sel as int) {
            ps.last()
        } else {
            b
        }
    }
}

/// The cursor kept on a node row: row 0 when there is none, the cursor when
/// it is on one, else the nearest node row (the upper one on a tie).
pub open spec fn clamped_sel(flat: Seq<TreeRow>, sel: usize) -> usize {
    let ps = node_positions(flat);
    if ps.len() == 0 {
        0
    } else if ps.contains(sel) {
        sel
    } else {
        nearest(ps, sel)
    }
}

proof fn lemma_node_positions(flat: Seq<TreeRow>)
    requires
        flat.len() <= usize::MAX,
    ensures
        forall|k: int|
            0 <= k < node_positions(flat).len() ==> (#[trigger] node_positions(flat)[k]) < flat.len()
                && flat[node_positions(flat)[k] as int] is Node,
        forall|j: int| 0 <= j < flat.len() && flat[j] is Node ==> node_positions(flat).contains(j as usize),
        forall|a: int, b: int|
            0 <= a < b < node_positions(flat).len() ==> node_positions(flat)[a] < node_positions(flat)[b],
    decreases flat.len(),
{
    if flat.len() > 0 {
        let q = flat.drop_last();
        lemma_node_positions(q);
        let pq = node_positions(q);
        let pf = node_positions(flat);
        assert forall|k: int| 0 <= k < pf.len() implies (#[trigger] pf[k]) < flat.len() && flat[pf[k] as int] is Node by {
            if k < pq.len() {
                assert(pf[k] == pq[k]);
                assert(q[pq[k] as int] == flat[pq[k] as int]);
            }
        }
        assert forall|a: int, b: int| 0 <= a < b < pf.len() implies pf[a] < pf[b] by {
            if b < pq.len() {
                assert(pf[a] == pq[a] && pf[b] == pq[b]);
            } else {
                assert(pf[a] == pq[a]);
                assert(pq[a] < q.len());
            }
        }
        assert forall|j: int| 0 <= j < flat.len() && flat[j] is Node implies pf.contains(j as usize) by {
            if j < flat.len() - 1 {
                assert(q[j] == flat[j]);
                let k = choose|k: int| 0 <= k < pq.len() && pq[k] == j as usize;
                assert(pf[k] == j as usize);
            } else {
                assert(pf[pf.len() - 1] == j as usize);
            }
        }
    }
}

proof fn lemma_nearest_in(ps: Seq<usize>, sel: usize)
    requires
        ps.len() > 0,
    ensures
        ps.contains(nearest(ps, sel)),
    decreases ps.len(),
{
    if ps.len() > 1 {
        lemma_nearest_in(ps.drop_last(), sel);
        let k = choose|k: int| 0 <= k < ps.drop_last().len() && ps.drop_last()[k] == nearest(ps.drop_last(), sel);
        assert(ps[k] == nearest(ps.drop_last(), sel));
        assert(ps[ps.len() - 1] == ps.last());
    } else {
        assert(ps[0] == nearest(ps, sel));
    }
}

/// After clamping, the cursor is on a node row whenever the tree has one.
pub proof fn law_clamped_cursor_on_node(flat: Seq<TreeRow>, sel: usize)
    requires
        flat.len() <= usize::MAX,
        exists|j: int| 0 <= j < flat.len() && flat[j] is Node,
    ensures
        clamped_sel(flat, sel) < flat.len(),
        flat[clamped_sel(flat, sel) as int] is Node,
{
    lemma_node_positions(flat);
    let ps = node_positions(flat);
    let j = choose|j: int| 0 <= j < flat.len() && flat[j] is Node;
    assert(ps.contains(j as usize));
    let c = clamped_sel(flat, sel);
    if ps.contains(sel) {
        let k = choose|k: int| 0 <= k < ps.len() && ps[k] == sel;
        assert(ps[k] < flat.len());
    } else {
        lemma_nearest_in(ps, sel);
        let k = choose|k: int| 0 <= k < ps.len() && ps[k] == nearest(ps, sel);
        assert(ps[k] < flat.len());
    }
}

/// Positions of the node rows of `flat` (the selectable rows).
pub fn node_rows_at(flat: &Vec<TreeRow>) -> (r: Vec<usize>)
    ensures
        r@ == node_positions(flat@),
{
    let mut out: Vec<usize> = Vec::new();
    let mut i: usize = 0;
    while i < flat.len()
        invariant
            i <= flat@.len(),
            out@ == node_positions(flat@.take(i as int)),
        decreases flat.len() - i,
    {
        assert(flat@.take(i + 1).drop_last() =~= flat@.take(i as int));
        match flat[i] {
            TreeRow::Node { .. } => {
                out.push(i);
            },
            TreeRow::MoreAbove => {},
        }
        i = i + 1;
    }
    assert(flat@.take(flat.len() as int) =~= flat@);
    out
}

/// Keep the cursor on a node row after a rebuild (see [`clamped_sel`]).
pub fn clamp_tree_selection(flat: &Vec<TreeRow>, sel: usize) -> (r: usize)
    ensures
        r == clamped_sel(flat@, sel),
{
    let ps = node_rows_at(flat);
    if ps.len() == 0 {
        return 0;
    }
    let mut found = false;
    let mut i: usize = 0;
    while i < ps.len()
        invariant
            i <= ps@.len(),
            found == ps@.take(i as int).contains(sel),
        decreases ps.len() - i,
    {
        let ghost t = ps@.take(i as int);
        assert(ps@.take(i + 1) =~= t.push(ps@[i as int]));
        if ps[i] == sel {
            found = true;
            assert(ps@.take(i + 1)[i as int] == sel);
        } else {
            assert(ps@.take(i + 1).contains(sel) ==> t.contains(sel)) by {
                let u = ps@.take(i + 1);
                if u.contains(sel) {
                    let k = choose|k: int| 0 <= k < u.len() && #[trigger] u[k] == sel;
                    assert(t[k] == sel);
                }
            }
        }
        i = i + 1;
    }
    assert(ps@.take(ps.len() as int) =~= ps@);
    if found {
        return sel;
    }
    let mut best = ps[0];
    let mut k: usize = 1;
    assert(ps@.take(1).drop_last() =~= Seq::<usize>::empty());
    while k < ps.len()
        invariant
            1 <= k <= ps@.len(),
            best == nearest(ps@.take(k as int), sel),
        decreases ps.len() - k,
    {
        assert(ps@.take(k + 1).drop_last() =~= ps@.take(k as int));
        let p = ps[k];
        let dp: usize = if p >= sel { p - sel } else { sel - p };
        let db: usize = if best >= sel { best - sel } else { sel - best };
        if dp < db {
            best = p;
        }
        k = k + 1;
    }
    assert(ps@.take(ps.len() as int) =~= ps@);
    best
}

/// The first node row for `id` at or after row `i`.
pub open spec fn first_row_from(flat: Seq<TreeRow>, id: u32, i: int) -> Option<usize>
    decreases flat.len() - i,
{
    if i < 0 || i >= flat.len() {
        None
    } else if row_is(flat, i, id) {
        Some(i as usize)
    } else {
        first_row_from(flat, id, i + 1)
    }
}

/// The first node row for `id`.
pub open spec fn first_row(flat: Seq<TreeRow>, id: u32) -> Option<usize> {
    first_row_from(flat, id, 0)
}

/// The position of the first `x` in `s` at or after `i` (0 when absent).
pub open spec fn first_index_from<T>(s: Seq<T>, x: T, i: int) -> int
    decreases s.len() - i,
{
    if i < 0 || i >= s.len() {
        0
    } else if s[i] == x {
        i
    } else {
        first_index_from(s, x, i + 1)
    }
}

proof fn lemma_first_index_bound<T>(s: Seq<T>, x: T, i: int)
    requires
        0 <= i,
    ensures
        0 <= first_index_from(s, x, i),
        s.len() > 0 ==> first_index_from(s, x, i) < s.len(),
    decreases s.len() - i,
{
    if i < s.len() && s[i] != x {
        lemma_first_index_bound(s, x, i + 1);
    }
}

/// The first node row of `flat` for `id`, if any (see [`first_row`]).
pub fn row_of(flat: &Vec<TreeRow>, id: u32) -> (r: Option<usize>)
    ensures
        r == first_row(flat@, id),
{
    let mut i: usize = 0;
    while i < flat.len()
        invariant
            i <= flat@.len(),
            first_row(flat@, id) == first_row_from(flat@, id, i as int),
        decreases flat.len() - i,
    {
        match flat[i] {
            TreeRow::Node { id: k, .. } => {
                if k == id {
                    return Some(i);
                }
            },
            TreeRow::MoreAbove => {},
        }
        i = i + 1;
    }
    None
}

/// The position of the first `x` in `v` (0 when absent).
fn position_of(v: &Vec<u32>, x: u32) -> (r: usize)
    ensures
        r == first_index_from(v@, x, 0),
{
    let mut i: usize = 0;
    while i < v.len()
        invariant
            i <= v@.len(),
            first_index_from(v@, x, 0) == first_index_from(v@, x, i as int),
        decreases v.len() - i,
    {
        if v[i] == x {
            return i;
        }
        i = i + 1;
    }
    0
}

/// The position of the first `x` in `v` (0 when absent).
fn position_of_usize(v: &Vec<usize>, x: usize) -> (r: usize)
    ensures
        r == first_index_from(v@, x, 0),
{
    let mut i: usize = 0;
    while i < v.len()
        invariant
            i <= v@.len(),
            first_index_from(v@, x, 0) == first_index_from(v@, x, i as int),
        decreases v.len() - i,
    {
        if v[i] == x {
            return i;
        }
        i = i + 1;
    }
    0
}

/// The selected row's id and depth, when the cursor is on a node row.
pub open spec fn current_of(flat: Seq<TreeRow>, sel: usize) -> Option<(u32, usize)> {
    if sel < flat.len() {
        match flat[sel as int] {
            TreeRow::Node { id, depth } => Some((id, depth)),
            TreeRow::MoreAbove => None,
        }
    } else {
        None
    }
}

/// The ids of the node rows whose cached parent is `parent` (uncached nodes
/// count as parentless), in row order.
pub open spec fn siblings_of(cache: Map<u32, WorkItem>, flat: Seq<TreeRow>, parent: Option<u32>) -> Seq<u32>
    decreases flat.len(),
{
    if flat.len() == 0 {
        Seq::empty()
    } else {
        let r = siblings_of(cache, flat.drop_last(), parent);
        match flat.last() {
            TreeRow::Node { id, .. } => if parent_of(cache, id) == parent {
                r.push(id)
            } else {
                r
            },
            TreeRow::MoreAbove => r,
        }
    }
}

/// The cursor after jumping to the row of `id` (unchanged when not shown).
pub open spec fn select_row(flat: Seq<TreeRow>, sel: usize, id: u32) -> usize {
    match first_row(flat, id) {
        Some(p) => p,
        None => sel,
    }
}

/// The cursor after `J`/`K` (`delta` of +1/-1): the sibling `delta` places
/// away among the nodes sharing the current node's parent, clamped to the
/// first and last.
pub open spec fn sibling_sel(cache: Map<u32, WorkItem>, flat: Seq<TreeRow>, sel: usize, delta: int) -> usize {
    match current_of(flat, sel) {
        None => sel,
        Some((id, _)) => {
            let s = siblings_of(cache, flat, parent_of(cache, id));
            if s.len() == 0 {
                sel
            } else {
                let k = crate::app::clamp_int(first_index_from(s, id, 0) + delta, 0, s.len() - 1);
                select_row(flat, sel, s[k])
            }
        },
    }
}

/// The cursor after moving `delta` node rows (the `…` marker is skipped),
/// clamped to the first and last node.
pub open spec fn step_sel(flat: Seq<TreeRow>, sel: usize, delta: int) -> usize {
    let ps = node_positions(flat);
    if ps.len() == 0 {
        sel
    } else {
        ps[crate::app::clamp_int(first_index_from(ps, sel, 0) + delta, 0, ps.len() - 1)]
    }
}

/// The cursor after jumping to the `target`-th node row (clamped).
pub open spec fn jump_sel(flat: Seq<TreeRow>, sel: usize, target: int) -> usize {
    let ps = node_positions(flat);
    if ps.len() == 0 {
        sel
    } else {
        ps[crate::app::clamp_int(target, 0, ps.len() - 1)]
    }
}

/// `c` is shown under `x`: `x` is expanded and cached, and lists `c` as a
/// child.
pub open spec fn opens(cache: Map<u32, WorkItem>, expanded: Set<u32>, x: u32, c: u32) -> bool {
    expanded.contains(x) && cache.contains_key(x) && cache[x].children@.contains(c)
}

/// `p` is a path from `root` down through expanded, cached nodes.
pub open spec fn is_walk(cache: Map<u32, WorkItem>, expanded: Set<u32>, root: u32, p: Seq<u32>) -> bool {
    &&& p.len() > 0
    &&& p[0] == root
    &&& forall|i: int| 0 <= i < p.len() - 1 ==> #[trigger] opens(cache, expanded, p[i], p[i + 1])
}

/// `id` is needed to draw the tree from `root`: the root itself, or a child
/// of a node reached through expanded, cached nodes.
pub open spec fn wanted(cache: Map<u32, WorkItem>, expanded: Set<u32>, root: Option<u32>, id: u32) -> bool {
    match root {
        Some(r) => exists|p: Seq<u32>| #[trigger] is_walk(cache, expanded, r, p) && p.last() == id,
        None => false,
    }
}

/// The ids to fetch: needed, not cached, and not already being fetched.
pub open spec fn fetch_plan(cache: Map<u32, WorkItem>, expanded: Set<u32>, pending: Set<u32>, root: Option<u32>) -> Set<
    u32,
> {
    Set::new(|id: u32| wanted(cache, expanded, root, id) && !cache.contains_key(id) && !pending.contains(id))
}

proof fn lemma_walk_closed(cache: Map<u32, WorkItem>, expanded: Set<u32>, r: u32, want: Set<u32>, p: Seq<u32>)
    requires
        is_walk(cache, expanded, r, p),
        want.contains(r),
        forall|x: u32, c: u32| want.contains(x) && #[trigger] opens(cache, expanded, x, c) ==> want.contains(c),
    ensures
        want.contains(p.last()),
    decreases p.len(),
{
    if p.len() > 1 {
        let q = p.drop_last();
        assert(is_walk(cache, expanded, r, q)) by {
            assert forall|i: int| 0 <= i < q.len() - 1 implies #[trigger] opens(cache, expanded, q[i], q[i + 1]) by {
                assert(opens(cache, expanded, p[i], p[i + 1]));
            }
        }
        lemma_walk_closed(cache, expanded, r, want, q);
        let i = p.len() - 2;
        assert(opens(cache, expanded, p[i], p[i + 1]));
        assert(q.last() == p[i]);
    }
}

proof fn lemma_walk_extend(cache: Map<u32, WorkItem>, expanded: Set<u32>, r: u32, p: Seq<u32>, c: u32)
    requires
        is_walk(cache, expanded, r, p),
        opens(cache, expanded, p.last(), c),
    ensures
        is_walk(cache, expanded, r, p.push(c)),
        p.push(c).last() == c,
{
    let q = p.push(c);
    assert forall|i: int| 0 <= i < q.len() - 1 implies #[trigger] opens(cache, expanded, q[i], q[i + 1]) by {
        if i < p.len() - 1 {
            assert(opens(cache, expanded, p[i], p[i + 1]));
        }
    }
}

/// Every id reached from `r` down through nodes that are cached and
/// expanded (with `all`, through every cached node), each once, in the order
/// a depth-first walk meets them.
fn reach(cache_map: &HashMap<u32, WorkItem>, expanded: &HashSet<u32>, all: bool, r: u32) -> (order: Vec<u32>)
    ensures
        order@.no_duplicates(),
        order@.to_set() == Set::new(|x: u32| wanted(cache_map@, reach_scope(cache_map@, expanded@, all), Some(r), x)),
{
    let ghost cache = cache_map@;
    let ghost exp = reach_scope(cache_map@, expanded@, all);
    let mut order: Vec<u32> = Vec::new();
    let mut want: HashSet<u32> = HashSet::new();
    let mut stack: Vec<u32> = Vec::new();
    want.insert(r);
    order.push(r);
    stack.push(r);
    let ghost mut done: Set<u32> = Set::empty();
    let ghost w = seq![r];
    assert(w.len() == 1 && w[0] == r);
    assert(is_walk(cache, exp, r, w));
    assert(w.last() == r);
    let ghost top: Option<u32> = Some(r);
    assert(top matches Some(q) && q == r);
    assert(wanted(cache, exp, top, r)) by {
        assert(is_walk(cache, exp, r, w) && w.last() == r);
    }
    assert(want@ =~= Set::empty().insert(r));
    while stack.len() > 0
        invariant
            cache == cache_map@,
            exp == reach_scope(cache_map@, expanded@, all),
            want@.contains(r),
            order@.to_set() == want@,
            order@.no_duplicates(),
            stack@.no_duplicates(),
            forall|i: int| 0 <= i < stack@.len() ==> want@.contains(#[trigger] stack@[i]),
            forall|i: int| 0 <= i < stack@.len() ==> !done.contains(#[trigger] stack@[i]),
            done.subset_of(want@),
            done.finite(),
            forall|x: u32| #[trigger] want@.contains(x) ==> wanted(cache, exp, Some(r), x),
            forall|x: u32, c: u32|
                want@.contains(x) && !stack@.contains(x) && #[trigger] opens(cache, exp, x, c)
                    ==> want@.contains(c),
        decreases cache.dom().difference(done).len(), stack.len(),
    {
        let ghost sp = stack@;
        let x = stack.pop().unwrap();
        let ghost st = stack@;
        assert(sp == st.push(x));
        assert(sp[sp.len() - 1] == x);
        assert(want@.contains(x));
        assert(!st.contains(x)) by {
            if st.contains(x) {
                let k = choose|k: int| 0 <= k < st.len() && st[k] == x;
                assert(sp[k] == sp[sp.len() - 1]);
            }
        }
        let ghost done0 = done;
        proof {
            done = done.insert(x);
            if cache.contains_key(x) {
                assert(cache.dom().difference(done) =~= cache.dom().difference(done0).remove(x));
            } else {
                assert(cache.dom().difference(done) =~= cache.dom().difference(done0));
            }
        }
        if all || expanded.contains(&x) {
            match cache_map.get(&x) {
                Some(item) => {
                    assert(exp.contains(x));
                    let ghost px = choose|p: Seq<u32>| #[trigger] is_walk(cache, exp, r, p) && p.last() == x;
                    let mut k: usize = 0;
                    while k < item.children.len()
                        invariant
                            cache == cache_map@,
                            exp == reach_scope(cache_map@, expanded@, all),
                            cache.contains_key(x),
                            cache[x] == *item,
                            exp.contains(x),
                            is_walk(cache, exp, r, px) && px.last() == x,
                            k <= item.children@.len(),
                            want@.contains(r),
                            want@.contains(x),
                            order@.to_set() == want@,
                            order@.no_duplicates(),
                            stack@.no_duplicates(),
                            !stack@.contains(x),
                            forall|i: int| 0 <= i < stack@.len() ==> want@.contains(#[trigger] stack@[i]),
                            forall|i: int| 0 <= i < stack@.len() ==> !done.contains(#[trigger] stack@[i]),
                            done.subset_of(want@),
                            done.finite(),
                            done.contains(x),
                            forall|x: u32| #[trigger] want@.contains(x) ==> wanted(cache, exp, Some(r), x),
                            forall|j: int| 0 <= j < k ==> want@.contains(#[trigger] item.children@[j]),
                            forall|y: u32, c: u32|
                                y != x && want@.contains(y) && !stack@.contains(y) && #[trigger] opens(cache, exp, y, c)
                                    ==> want@.contains(c),
                            cache.dom().difference(done).len() < cache.dom().difference(done0).len() || !cache.contains_key(x),
                        decreases item.children.len() - k,
                    {
                        let c = item.children[k];
                        let ghost w0 = want@;
                        let ghost s0 = stack@;
                        let ghost o0 = order@;
                        assert(item.children@[k as int] == c);
                        if want.insert(c) {
                            proof {
                                assert(item.children@.contains(c));
                                assert(opens(cache, exp, x, c));
                                lemma_walk_extend(cache, exp, r, px, c);
                                o0.lemma_push_to_set_commute(c);
                                assert(!o0.contains(c)) by {
                                    assert(!o0.to_set().contains(c));
                                }
                                assert(!s0.contains(c)) by {
                                    if s0.contains(c) {
                                        let q = choose|q: int| 0 <= q < s0.len() && s0[q] == c;
                                        assert(w0.contains(s0[q]));
                                    }
                                }
                            }
                            order.push(c);
                            stack.push(c);
                            proof {
                                assert forall|y: u32, c2: u32|
                                    y != x && want@.contains(y) && !stack@.contains(y) && #[trigger] opens(cache, exp, y, c2)
                                        implies want@.contains(c2) by {
                                    assert(stack@ == s0.push(c));
                                    assert(y != c) by {
                                        assert(stack@[stack@.len() - 1] == c);
                                    }
                                    assert(w0.contains(y));
                                    if s0.contains(y) {
                                        let q = choose|q: int| 0 <= q < s0.len() && s0[q] == y;
                                        assert(stack@[q] == y);
                                    }
                                }
                                assert forall|i: int| 0 <= i < stack@.len() implies !done.contains(#[trigger] stack@[i]) by {
                                    if i < s0.len() {
                                        assert(stack@[i] == s0[i]);
                                    }
                                }
                                assert forall|i: int| 0 <= i < stack@.len() implies want@.contains(#[trigger] stack@[i]) by {
                                    if i < s0.len() {
                                        assert(stack@[i] == s0[i]);
                                    }
                                }
                                assert(!stack@.contains(x)) by {
                                    if stack@.contains(x) {
                                        let q = choose|q: int| 0 <= q < stack@.len() && stack@[q] == x;
                                        if q < s0.len() {
                                            assert(s0[q] == x);
                                        }
                                    }
                                }
                            }
                        }
                        k = k + 1;
                    }
                    assert forall|c: u32| #[trigger] opens(cache, exp, x, c) implies want@.contains(c) by {
                        let j = choose|j: int| 0 <= j < item.children@.len() && item.children@[j] == c;
                    }
                },
                None => {},
            }
        }
    }
    assert forall|id: u32| wanted(cache, exp, Some(r), id) implies want@.contains(id) by {
        let p = choose|p: Seq<u32>| #[trigger] is_walk(cache, exp, r, p) && p.last() == id;
        lemma_walk_closed(cache, exp, r, want@, p);
    }
    assert(order@.to_set() =~= Set::new(|x: u32| wanted(cache, exp, Some(r), x)));
    order
}

/// The nodes a recursive expand of `top` opens: every node reached from
/// `top` down through cached nodes (`top` included) that is cached and has
/// children.
pub open spec fn opened_below(cache: Map<u32, WorkItem>, top: u32) -> Set<u32> {
    Set::new(|x: u32| wanted(cache, cache.dom(), Some(top), x) && cache.contains_key(x) && cache[x].children@.len() > 0)
}

/// The nodes a walk may pass through: the expanded ones, or with `all`
/// every cached one.
pub open spec fn reach_scope(cache: Map<u32, WorkItem>, expanded: Set<u32>, all: bool) -> Set<u32> {
    if all {
        cache.dom()
    } else {
        expanded
    }
}

/// The relationship tree: what is cached and being fetched, what is shown
/// and where the cursor is.
pub struct TreeModel {
    /// Expanded nodes, flattened rows and the cursor.
    pub state: TreeState,
    /// The pane's own fuzzy filter (`/`).
    pub filter: FuzzyFilter,
    /// Fetched work items by id (independent of the list's filters).
    pub cache: HashMap<u32, WorkItem>,
    /// Ids requested but not yet received.
    pub pending: HashSet<u32>,
    /// The item the tree is anchored on.
    pub focus: Option<u32>,
    /// The topmost shown node (the focus's parent, or the focus itself).
    pub root: Option<u32>,
    /// When this item arrives, re-root the view on its parent.
    pub reroot_focus: Option<u32>,
    /// Move the cursor onto this node once it becomes visible.
    pub select_after: Option<u32>,
}

/// The rows drawn for the tree: the unfiltered rows, narrowed by the filter
/// when it is in effect.
pub open spec fn shown_rows(cache: Map<u32, WorkItem>, expanded: Set<u32>, root: Option<u32>, f: FuzzyFilter) -> Seq<
    TreeRow,
> {
    let rows = tree_rows_of(cache, expanded, root);
    if crate::app::filter_on(f) {
        filtered_rows(cache, rows, f)
    } else {
        rows
    }
}

impl TreeModel {
    /// Nothing cached, anchored or shown.
    pub fn new() -> (r: Self)
        ensures
            r.state.expanded@ == Set::<u32>::empty(),
            r.state.flat@.len() == 0,
            r.state.selected == 0,
            r.cache@ == Map::<u32, WorkItem>::empty(),
            r.pending@ == Set::<u32>::empty(),
            r.focus is None,
            r.root is None,
            r.reroot_focus is None,
            r.select_after is None,
            r.filter.tags@.len() == 0,
            r.filter.input is None,
    {
        TreeModel {
            state: TreeState::new(),
            filter: FuzzyFilter::new(),
            cache: HashMap::new(),
            pending: HashSet::new(),
            focus: None,
            root: None,
            reroot_focus: None,
            select_after: None,
        }
    }

    /// Recompute the shown rows (see [`shown_rows`]) and keep the cursor on a
    /// node row (see [`clamped_sel`]).
    pub fn rebuild(&mut self)
        ensures
            final(self).state.flat@ == shown_rows(old(self).cache@, old(self).state.expanded@, old(self).root, old(self).filter),
            final(self).state.selected == clamped_sel(final(self).state.flat@, old(self).state.selected),
            final(self).state.expanded@ == old(self).state.expanded@,
            final(self).cache@ == old(self).cache@,
            final(self).pending@ == old(self).pending@,
            final(self).filter == old(self).filter,
            final(self).focus == old(self).focus,
            final(self).root == old(self).root,
            final(self).reroot_focus == old(self).reroot_focus,
            final(self).select_after == old(self).select_after,
    {
        let mut flat = tree_rows(self.root, &self.cache, &self.state.expanded);
        if self.filter.active() {
            flat = filter_rows(flat, &self.cache, &self.filter);
        }
        let sel = clamp_tree_selection(&flat, self.state.selected);
        self.state.flat = flat;
        self.state.selected = sel;
    }

    /// Plan the fetches needed to draw the tree (the root and the children
    /// of every expanded, cached node reached from it), skipping ids already
    /// cached or in flight; the returned ids are marked in flight. Each id is
    /// returned once.
    pub fn ensure_fetched(&mut self) -> (needed: Vec<u32>)
        ensures
            needed@.no_duplicates(),
            needed@.to_set() == fetch_plan(old(self).cache@, old(self).state.expanded@, old(self).pending@, old(self).root),
            final(self).pending@ == old(self).pending@.union(needed@.to_set()),
            final(self).state == old(self).state,
            final(self).cache@ == old(self).cache@,
            final(self).filter == old(self).filter,
            final(self).focus == old(self).focus,
            final(self).root == old(self).root,
            final(self).reroot_focus == old(self).reroot_focus,
            final(self).select_after == old(self).select_after,
    {
        let ghost cache = self.cache@;
        let ghost exp = self.state.expanded@;
        let ghost pend0 = self.pending@;
        let ghost me = *self;
        let order: Vec<u32> = match self.root {
            None => Vec::new(),
            Some(r) => reach(&self.cache, &self.state.expanded, false, r),
        };
        let mut needed: Vec<u32> = Vec::new();
        let mut i: usize = 0;
        while i < order.len()
            invariant
                i <= order@.len(),
                order@.no_duplicates(),
                needed@.no_duplicates(),
                forall|id: u32|
                    #![trigger needed@.contains(id)]
                    needed@.contains(id) <==> (order@.take(i as int).contains(id) && !cache.contains_key(id)
                        && !pend0.contains(id)),
                self.pending@ == pend0.union(needed@.to_set()),
                cache == self.cache@,
                self.state == me.state,
                self.filter == me.filter,
                self.focus == me.focus,
                self.root == me.root,
                self.reroot_focus == me.reroot_focus,
                self.select_after == me.select_after,
            decreases order.len() - i,
        {
            let x = order[i];
            let ghost t0 = order@.take(i as int);
            let ghost n0 = needed@;
            assert(order@.take(i + 1) =~= t0.push(x));
            assert(!t0.contains(x)) by {
                if t0.contains(x) {
                    let k = choose|k: int| 0 <= k < t0.len() && t0[k] == x;
                    assert(order@[k] == order@[i as int]);
                }
            }
            assert(!n0.contains(x));
            let in_pend = self.pending.contains(&x);
            assert(in_pend == pend0.contains(x)) by {
                assert(!n0.to_set().contains(x));
            }
            let cached = self.cache.contains_key(&x);
            let ghost pushed = !cached && !in_pend;
            if !cached && !in_pend {
                needed.push(x);
                self.pending.insert(x);
                proof {
                    n0.lemma_push_to_set_commute(x);
                    assert(self.pending@ =~= pend0.union(needed@.to_set()));
                    assert forall|a: int, b: int| 0 <= a < needed@.len() && 0 <= b < needed@.len() && a != b implies needed@[a] != needed@[b] by {
                        if a < n0.len() && b < n0.len() {
                            assert(needed@[a] == n0[a] && needed@[b] == n0[b]);
                        } else if a < n0.len() {
                            assert(needed@[a] == n0[a]);
                        } else if b < n0.len() {
                            assert(needed@[b] == n0[b]);
                        }
                    }
                }
            }
            i = i + 1;
            proof {
                assert(pushed ==> needed@ == n0.push(x));
                assert(!pushed ==> needed@ == n0);
                let t1 = order@.take(i as int);
                assert(t1 == t0.push(x));
                assert(t1[t1.len() - 1] == x);
                assert forall|id: u32| #![trigger needed@.contains(id)] needed@.contains(id) <==> (t1.contains(id) && !cache.contains_key(id) && !pend0.contains(id)) by {
                    if id == x {
                        if pushed {
                            assert(needed@[needed@.len() - 1] == x);
                        }
                    } else {
                        assert(t1.contains(id) <==> t0.contains(id)) by {
                            if t1.contains(id) {
                                let k = choose|k: int| 0 <= k < t1.len() && t1[k] == id;
                                assert(t0[k] == id);
                            }
                            if t0.contains(id) {
                                let k = choose|k: int| 0 <= k < t0.len() && t0[k] == id;
                                assert(t1[k] == id);
                            }
                        }
                        assert(needed@.contains(id) <==> n0.contains(id)) by {
                            if needed@.contains(id) {
                                let k = choose|k: int| 0 <= k < needed@.len() && needed@[k] == id;
                                assert(n0[k] == id);
                            }
                            if n0.contains(id) {
                                let k = choose|k: int| 0 <= k < n0.len() && n0[k] == id;
                                assert(needed@[k] == id);
                            }
                        }
                    }
                }
            }
        }
        assert(order@.take(order.len() as int) =~= order@);
        assert(needed@.to_set() =~= fetch_plan(cache, exp, pend0, me.root)) by {
            assert forall|id: u32| order@.contains(id) <==> wanted(cache, exp, me.root, id) by {
                if order@.contains(id) {
                    assert(order@.to_set().contains(id));
                }
                if wanted(cache, exp, me.root, id) {
                    assert(order@.to_set().contains(id));
                }
            }
        }
        needed
    }
}

/// `b` differs from `a` at most in the cursor.
pub open spec fn only_cursor_moved(a: TreeModel, b: TreeModel) -> bool {
    &&& b.state.expanded@ == a.state.expanded@
    &&& b.state.flat@ == a.state.flat@
    &&& b.cache@ == a.cache@
    &&& b.pending@ == a.pending@
    &&& b.filter == a.filter
    &&& b.focus == a.focus
    &&& b.root == a.root
    &&& b.reroot_focus == a.reroot_focus
    &&& b.select_after == a.select_after
}

/// The cached parent of `id` (none when `id` is not cached).
fn cached_parent(cache: &HashMap<u32, WorkItem>, id: u32) -> (r: Option<u32>)
    ensures
        r == parent_of(cache@, id),
{
    match cache.get(&id) {
        Some(w) => w.parent,
        None => None,
    }
}

/// Two optional ids are equal.
fn same_opt(a: Option<u32>, b: Option<u32>) -> (r: bool)
    ensures
        r == (a == b),
{
    match (a, b) {
        (Some(x), Some(y)) => x == y,
        (None, None) => true,
        _ => false,
    }
}

/// The ids of the node rows whose cached parent is `parent` (see
/// [`siblings_of`]).
fn siblings(cache: &HashMap<u32, WorkItem>, flat: &Vec<TreeRow>, parent: Option<u32>) -> (r: Vec<u32>)
    ensures
        r@ == siblings_of(cache@, flat@, parent),
{
    let mut out: Vec<u32> = Vec::new();
    let mut i: usize = 0;
    while i < flat.len()
        invariant
            i <= flat@.len(),
            out@ == siblings_of(cache@, flat@.take(i as int), parent),
        decreases flat.len() - i,
    {
        assert(flat@.take(i + 1).drop_last() =~= flat@.take(i as int));
        match flat[i] {
            TreeRow::Node { id, .. } => {
                if same_opt(cached_parent(cache, id), parent) {
                    out.push(id);
                }
            },
            TreeRow::MoreAbove => {},
        }
        i = i + 1;
    }
    assert(flat@.take(flat.len() as int) =~= flat@);
    out
}

/// `cur + delta` clamped into `[0, n - 1]`.
fn clamp_step(cur: usize, delta: isize, n: usize) -> (r: usize)
    requires
        n > 0,
    ensures
        r == crate::app::clamp_int(cur + delta, 0, n - 1),
{
    crate::app::step_within(cur, delta, n)
}

impl TreeModel {
    /// The selected row's id and depth, when the cursor is on a node row.
    pub fn current(&self) -> (r: Option<(u32, usize)>)
        ensures
            r == current_of(self.state.flat@, self.state.selected),
    {
        if self.state.selected < self.state.flat.len() {
            match self.state.flat[self.state.selected] {
                TreeRow::Node { id, depth } => Some((id, depth)),
                TreeRow::MoreAbove => None,
            }
        } else {
            None
        }
    }

    /// The selected node's id.
    pub fn selected_id(&self) -> (r: Option<u32>)
        ensures
            r == match current_of(self.state.flat@, self.state.selected) {
                Some((id, _)) => Some(id),
                None => None,
            },
    {
        match self.current() {
            Some((id, _)) => Some(id),
            None => None,
        }
    }

    /// `id` is cached and has children.
    pub fn has_children(&self, id: u32) -> (r: bool)
        ensures
            r == (self.cache@.contains_key(id) && self.cache@[id].children@.len() > 0),
    {
        match self.cache.get(&id) {
            Some(w) => w.children.len() > 0,
            None => false,
        }
    }

    /// Move the cursor onto the row for `id` (no-op if it isn't shown).
    pub fn select_node(&mut self, id: u32)
        ensures
            only_cursor_moved(*old(self), *final(self)),
            final(self).state.selected == select_row(old(self).state.flat@, old(self).state.selected, id),
    {
        match row_of(&self.state.flat, id) {
            Some(p) => {
                self.state.selected = p;
            },
            None => {},
        }
    }

    /// `J`/`K`: jump to the next/previous sibling (a node sharing the same
    /// parent), skipping any expanded descendants in between (see
    /// [`sibling_sel`]).
    pub fn sibling(&mut self, delta: isize)
        ensures
            only_cursor_moved(*old(self), *final(self)),
            final(self).state.selected == sibling_sel(
                old(self).cache@,
                old(self).state.flat@,
                old(self).state.selected,
                delta as int,
            ),
    {
        let id = match self.current() {
            Some((id, _)) => id,
            None => {
                return;
            },
        };
        let parent = cached_parent(&self.cache, id);
        let sibs = siblings(&self.cache, &self.state.flat, parent);
        if sibs.len() == 0 {
            return;
        }
        let cur = position_of(&sibs, id);
        proof {
            lemma_first_index_bound(sibs@, id, 0);
        }
        let next = clamp_step(cur, delta, sibs.len());
        self.select_node(sibs[next]);
    }

    /// `j`/`k` in the tree: move `delta` node rows (see [`step_sel`]).
    pub fn step(&mut self, delta: isize)
        ensures
            only_cursor_moved(*old(self), *final(self)),
            final(self).state.selected == step_sel(old(self).state.flat@, old(self).state.selected, delta as int),
    {
        let nodes = node_rows_at(&self.state.flat);
        if nodes.len() > 0 {
            let cur = position_of_usize(&nodes, self.state.selected);
            proof {
                lemma_first_index_bound(nodes@, self.state.selected, 0);
            }
            let next = clamp_step(cur, delta, nodes.len());
            self.state.selected = nodes[next];
        }
    }

    /// `g`/`G` in the tree: jump to the `target`-th node row (see
    /// [`jump_sel`]).
    pub fn jump(&mut self, target: isize)
        ensures
            only_cursor_moved(*old(self), *final(self)),
            final(self).state.selected == jump_sel(old(self).state.flat@, old(self).state.selected, target as int),
    {
        let nodes = node_rows_at(&self.state.flat);
        if nodes.len() > 0 {
            let idx = crate::app::target_within(target, nodes.len());
            self.state.selected = nodes[idx];
        }
    }
}

/// The cursor and deferred target after selecting `id`: its row when shown,
/// else the cursor stays and `id` is remembered for when it arrives.
pub open spec fn defer_sel(flat: Seq<TreeRow>, sel: usize, after: Option<u32>, id: u32) -> (usize, Option<u32>) {
    match first_row(flat, id) {
        Some(p) => (p, after),
        None => (sel, Some(id)),
    }
}

/// `needed` is the fetch plan for the given tree (each id once), and the
/// in-flight set grew from `before` by exactly those ids to `after`.
pub open spec fn planned(
    cache: Map<u32, WorkItem>,
    expanded: Set<u32>,
    before: Set<u32>,
    root: Option<u32>,
    needed: Seq<u32>,
    after: Set<u32>,
) -> bool {
    &&& needed.no_duplicates()
    &&& needed.to_set() == fetch_plan(cache, expanded, before, root)
    &&& after == before.union(needed.to_set())
}

/// With nothing cached or in flight and only the root expanded, the plan is
/// the root alone.
proof fn lemma_fresh_plan(r: u32)
    ensures
        fetch_plan(Map::empty(), Set::empty().insert(r), Set::empty(), Some(r)) == Set::empty().insert(r),
{
    let cache = Map::<u32, WorkItem>::empty();
    let exp = Set::<u32>::empty().insert(r);
    let w = seq![r];
    assert(w.len() == 1 && w[0] == r);
    assert(is_walk(cache, exp, r, w));
    assert(w.last() == r);
    assert forall|id: u32| wanted(cache, exp, Some(r), id) implies id == r by {
        let p = choose|p: Seq<u32>| #[trigger] is_walk(cache, exp, r, p) && p.last() == id;
        if p.len() > 1 {
            let z: int = 0;
            assert(opens(cache, exp, p[z], p[z + 1]));
        }
    }
    let root: Option<u32> = Some(r);
    assert(root matches Some(q) && q == r);
    assert(wanted(cache, exp, root, r)) by {
        assert(is_walk(cache, exp, r, w) && w.last() == r);
    }
    assert(fetch_plan(cache, exp, Set::<u32>::empty(), root) =~= Set::<u32>::empty().insert(r));
}

impl TreeModel {
    /// Select `id` now if it is shown, otherwise once it arrives (see
    /// [`defer_sel`]).
    pub fn select_or_defer(&mut self, id: u32)
        ensures
            (final(self).state.selected, final(self).select_after) == defer_sel(
                old(self).state.flat@,
                old(self).state.selected,
                old(self).select_after,
                id,
            ),
            final(self).state.expanded@ == old(self).state.expanded@,
            final(self).state.flat@ == old(self).state.flat@,
            final(self).cache@ == old(self).cache@,
            final(self).pending@ == old(self).pending@,
            final(self).filter == old(self).filter,
            final(self).focus == old(self).focus,
            final(self).root == old(self).root,
            final(self).reroot_focus == old(self).reroot_focus,
    {
        match row_of(&self.state.flat, id) {
            Some(p) => {
                self.state.selected = p;
            },
            None => {
                self.select_after = Some(id);
            },
        }
    }

    /// Expand a node and plan the fetch of what it reveals.
    pub fn expand_node(&mut self, id: u32) -> (needed: Vec<u32>)
        ensures
            final(self).state.expanded@ == old(self).state.expanded@.insert(id),
            planned(
                old(self).cache@,
                old(self).state.expanded@.insert(id),
                old(self).pending@,
                old(self).root,
                needed@,
                final(self).pending@,
            ),
            final(self).state.flat@ == old(self).state.flat@,
            final(self).state.selected == old(self).state.selected,
            final(self).cache@ == old(self).cache@,
            final(self).filter == old(self).filter,
            final(self).focus == old(self).focus,
            final(self).root == old(self).root,
            final(self).reroot_focus == old(self).reroot_focus,
            final(self).select_after == old(self).select_after,
    {
        self.state.expanded.insert(id);
        self.ensure_fetched()
    }

    /// `l`/`h` in the tree: expand the selected node (when it has children,
    /// planning their fetch) or collapse it, then rebuild the rows.
    pub fn set_expanded(&mut self, expand: bool) -> (needed: Vec<u32>)
        ensures
            match current_of(old(self).state.flat@, old(self).state.selected) {
                None => needed@.len() == 0 && *final(self) == *old(self),
                Some((id, _)) => {
                    let grow = expand && old(self).cache@.contains_key(id) && old(self).cache@[id].children@.len() > 0;
                    let exp = if grow {
                        old(self).state.expanded@.insert(id)
                    } else if expand {
                        old(self).state.expanded@
                    } else {
                        old(self).state.expanded@.remove(id)
                    };
                    &&& final(self).state.expanded@ == exp
                    &&& if grow {
                        planned(old(self).cache@, exp, old(self).pending@, old(self).root, needed@, final(self).pending@)
                    } else {
                        needed@.len() == 0 && final(self).pending@ == old(self).pending@
                    }
                    &&& final(self).state.flat@ == shown_rows(old(self).cache@, exp, old(self).root, old(self).filter)
                    &&& final(self).state.selected == clamped_sel(final(self).state.flat@, old(self).state.selected)
                    &&& final(self).cache@ == old(self).cache@
                    &&& final(self).filter == old(self).filter
                    &&& final(self).focus == old(self).focus
                    &&& final(self).root == old(self).root
                    &&& final(self).reroot_focus == old(self).reroot_focus
                    &&& final(self).select_after == old(self).select_after
                },
            },
    {
        let mut needed: Vec<u32> = Vec::new();
        match self.selected_id() {
            None => {},
            Some(id) => {
                if expand {
                    if self.has_children(id) {
                        needed = self.expand_node(id);
                    }
                } else {
                    self.state.expanded.remove(&id);
                }
                self.rebuild();
            },
        }
        needed
    }

    /// `c` in the tree: expand the selected node and every cached node below
    /// it that has children (see [`opened_below`]), plan the fetch of what
    /// this reveals, then rebuild the rows.
    pub fn expand_below(&mut self) -> (needed: Vec<u32>)
        ensures
            match current_of(old(self).state.flat@, old(self).state.selected) {
                None => needed@.len() == 0 && *final(self) == *old(self),
                Some((id, _)) => {
                    let exp = old(self).state.expanded@.union(opened_below(old(self).cache@, id));
                    &&& final(self).state.expanded@ == exp
                    &&& planned(old(self).cache@, exp, old(self).pending@, old(self).root, needed@, final(self).pending@)
                    &&& final(self).state.flat@ == shown_rows(old(self).cache@, exp, old(self).root, old(self).filter)
                    &&& final(self).state.selected == clamped_sel(final(self).state.flat@, old(self).state.selected)
                    &&& final(self).cache@ == old(self).cache@
                    &&& final(self).filter == old(self).filter
                    &&& final(self).focus == old(self).focus
                    &&& final(self).root == old(self).root
                    &&& final(self).reroot_focus == old(self).reroot_focus
                    &&& final(self).select_after == old(self).select_after
                },
            },
    {
        match self.selected_id() {
            None => Vec::new(),
            Some(id) => {
                let ghost cache = self.cache@;
                let ghost e0 = self.state.expanded@;
                let ghost me = *self;
                let below = reach(&self.cache, &self.state.expanded, true, id);
                let mut i: usize = 0;
                while i < below.len()
                    invariant
                        i <= below@.len(),
                        cache == self.cache@,
                        self.state.expanded@ == e0.union(
                            Set::new(
                                |x: u32| below@.take(i as int).contains(x) && cache.contains_key(x) && cache[x].children@.len() > 0,
                            ),
                        ),
                        self.state.flat == me.state.flat,
                        self.state.selected == me.state.selected,
                        self.pending@ == me.pending@,
                        self.filter == me.filter,
                        self.focus == me.focus,
                        self.root == me.root,
                        self.reroot_focus == me.reroot_focus,
                        self.select_after == me.select_after,
                    decreases below.len() - i,
                {
                    let x = below[i];
                    let ghost t0 = below@.take(i as int);
                    assert(below@.take(i + 1) =~= t0.push(x));
                    let grow = self.has_children(x);
                    if grow {
                        self.state.expanded.insert(x);
                    }
                    i = i + 1;
                    proof {
                        let t1 = below@.take(i as int);
                        assert(self.state.expanded@ =~= e0.union(
                            Set::new(|y: u32| t1.contains(y) && cache.contains_key(y) && cache[y].children@.len() > 0),
                        )) by {
                            assert forall|y: u32| t1.contains(y) <==> (t0.contains(y) || y == x) by {
                                if t1.contains(y) {
                                    let k = choose|k: int| 0 <= k < t1.len() && t1[k] == y;
                                    if k < t0.len() {
                                        assert(t0[k] == y);
                                    }
                                }
                                if t0.contains(y) {
                                    let k = choose|k: int| 0 <= k < t0.len() && t0[k] == y;
                                    assert(t1[k] == y);
                                }
                                if y == x {
                                    assert(t1[t1.len() - 1] == x);
                                }
                            }
                        }
                    }
                }
                proof {
                    assert(below@.take(below.len() as int) =~= below@);
                    assert(self.state.expanded@ =~= e0.union(opened_below(cache, id))) by {
                        assert forall|x: u32| below@.contains(x) <==> wanted(cache, cache.dom(), Some(id), x) by {
                            if below@.contains(x) {
                                assert(below@.to_set().contains(x));
                            }
                            if wanted(cache, cache.dom(), Some(id), x) {
                                assert(below@.to_set().contains(x));
                            }
                        }
                    }
                }
                let needed = self.ensure_fetched();
                self.rebuild();
                needed
            },
        }
    }

    /// `L`: descend one level — select the first child of the selected node,
    /// expanding it first when needed (the child may still be loading, in
    /// which case it is selected once it arrives).
    pub fn level_in(&mut self) -> (needed: Vec<u32>)
        ensures
            match current_of(old(self).state.flat@, old(self).state.selected) {
                Some((id, _)) if old(self).cache@.contains_key(id) && old(self).cache@[id].children@.len() > 0 => {
                    let child = old(self).cache@[id].children@[0];
                    &&& (if old(self).state.expanded@.contains(id) {
                        &&& needed@.len() == 0
                        &&& (final(self).state.selected, final(self).select_after) == defer_sel(
                            old(self).state.flat@,
                            old(self).state.selected,
                            old(self).select_after,
                            child,
                        )
                        &&& final(self).state.flat@ == old(self).state.flat@
                        &&& final(self).state.expanded@ == old(self).state.expanded@
                        &&& final(self).pending@ == old(self).pending@
                    } else {
                        let exp = old(self).state.expanded@.insert(id);
                        let flat = shown_rows(old(self).cache@, exp, old(self).root, old(self).filter);
                        &&& final(self).state.expanded@ == exp
                        &&& planned(old(self).cache@, exp, old(self).pending@, old(self).root, needed@, final(self).pending@)
                        &&& final(self).state.flat@ == flat
                        &&& (final(self).state.selected, final(self).select_after) == defer_sel(
                            flat,
                            clamped_sel(flat, old(self).state.selected),
                            old(self).select_after,
                            child,
                        )
                    })
                    &&& final(self).cache@ == old(self).cache@
                    &&& final(self).filter == old(self).filter
                    &&& final(self).focus == old(self).focus
                    &&& final(self).root == old(self).root
                    &&& final(self).reroot_focus == old(self).reroot_focus
                },
                _ => needed@.len() == 0 && *final(self) == *old(self),
            },
    {
        let id = match self.current() {
            Some((id, _)) => id,
            None => {
                return Vec::new();
            },
        };
        if !self.has_children(id) {
            return Vec::new();
        }
        let child = match self.cache.get(&id) {
            Some(w) => w.children[0],
            None => {
                return Vec::new();
            },
        };
        let mut needed: Vec<u32> = Vec::new();
        if !self.state.expanded.contains(&id) {
            needed = self.expand_node(id);
            self.rebuild();
        }
        self.select_or_defer(child);
        needed
    }

    /// `H`: ascend one level — select the parent of the selected node. When
    /// the parent is not shown (the node is the shown root), re-root on the
    /// parent, expand it (planning its fetch) and select it once shown; the
    /// parent is then returned as well.
    pub fn level_out(&mut self) -> (r: (Vec<u32>, Option<u32>))
        ensures
            match current_of(old(self).state.flat@, old(self).state.selected) {
                Some((id, _)) if parent_of(old(self).cache@, id) is Some => {
                    let p = parent_of(old(self).cache@, id)->0;
                    if first_row(old(self).state.flat@, p) is Some {
                        &&& r.0@.len() == 0
                        &&& r.1 is None
                        &&& only_cursor_moved(*old(self), *final(self))
                        &&& final(self).state.selected == select_row(old(self).state.flat@, old(self).state.selected, p)
                    } else {
                        let exp = old(self).state.expanded@.insert(p);
                        let flat = shown_rows(old(self).cache@, exp, Some(p), old(self).filter);
                        &&& r.1 == Some(p)
                        &&& final(self).root == Some(p)
                        &&& final(self).state.expanded@ == exp
                        &&& planned(old(self).cache@, exp, old(self).pending@, Some(p), r.0@, final(self).pending@)
                        &&& final(self).state.flat@ == flat
                        &&& (final(self).state.selected, final(self).select_after) == defer_sel(
                            flat,
                            clamped_sel(flat, old(self).state.selected),
                            old(self).select_after,
                            p,
                        )
                        &&& final(self).cache@ == old(self).cache@
                        &&& final(self).filter == old(self).filter
                        &&& final(self).focus == old(self).focus
                        &&& final(self).reroot_focus == old(self).reroot_focus
                    }
                },
                _ => r.0@.len() == 0 && r.1 is None && *final(self) == *old(self),
            },
    {
        let id = match self.current() {
            Some((id, _)) => id,
            None => {
                return (Vec::new(), None);
            },
        };
        let parent = match cached_parent(&self.cache, id) {
            Some(p) => p,
            None => {
                return (Vec::new(), None);
            },
        };
        match row_of(&self.state.flat, parent) {
            Some(_) => {
                self.select_node(parent);
                (Vec::new(), None)
            },
            None => {
                self.root = Some(parent);
                let needed = self.expand_node(parent);
                self.rebuild();
                self.select_or_defer(parent);
                (needed, Some(parent))
            },
        }
    }
}

impl TreeModel {
    /// Take one fetched item back (`None` when the fetch failed): it is no
    /// longer in flight and, when fetched, it is cached. When it is the item
    /// the tree waits to re-root on, the view is re-rooted on its parent
    /// (expanded), so the item shows with its siblings.
    pub fn receive(&mut self, id: u32, item: Option<WorkItem>)
        ensures
            final(self).pending@ == old(self).pending@.remove(id),
            final(self).cache@ == match item {
                Some(w) => old(self).cache@.insert(id, w),
                None => old(self).cache@,
            },
            old(self).reroot_focus == Some(id) ==> {
                &&& final(self).reroot_focus is None
                &&& match parent_of(final(self).cache@, id) {
                    Some(p) => final(self).root == Some(p) && final(self).state.expanded@ == old(self).state.expanded@.insert(p),
                    None => final(self).root == old(self).root && final(self).state.expanded@ == old(self).state.expanded@,
                }
            },
            old(self).reroot_focus != Some(id) ==> {
                &&& final(self).reroot_focus == old(self).reroot_focus
                &&& final(self).root == old(self).root
                &&& final(self).state.expanded@ == old(self).state.expanded@
            },
            final(self).state.flat@ == old(self).state.flat@,
            final(self).state.selected == old(self).state.selected,
            final(self).filter == old(self).filter,
            final(self).focus == old(self).focus,
            final(self).select_after == old(self).select_after,
    {
        self.pending.remove(&id);
        match item {
            Some(w) => {
                self.cache.insert(id, w);
            },
            None => {},
        }
        if same_opt(self.reroot_focus, Some(id)) {
            self.reroot_focus = None;
            match cached_parent(&self.cache, id) {
                Some(p) => {
                    self.root = Some(p);
                    self.state.expanded.insert(p);
                },
                None => {},
            }
        }
    }

    /// After a batch of [`receive`](Self::receive)s: plan the fetch of the
    /// children the new items revealed, rebuild the rows, and land the cursor
    /// on the deferred target once it is shown.
    pub fn settle(&mut self) -> (needed: Vec<u32>)
        ensures
            planned(
                old(self).cache@,
                old(self).state.expanded@,
                old(self).pending@,
                old(self).root,
                needed@,
                final(self).pending@,
            ),
            final(self).state.flat@ == shown_rows(old(self).cache@, old(self).state.expanded@, old(self).root, old(self).filter),
            ({
                let sel = clamped_sel(final(self).state.flat@, old(self).state.selected);
                match old(self).select_after {
                    Some(t) => match first_row(final(self).state.flat@, t) {
                        Some(p) => final(self).state.selected == p && final(self).select_after is None,
                        None => final(self).state.selected == sel && final(self).select_after == old(self).select_after,
                    },
                    None => final(self).state.selected == sel && final(self).select_after is None,
                }
            }),
            final(self).state.expanded@ == old(self).state.expanded@,
            final(self).cache@ == old(self).cache@,
            final(self).filter == old(self).filter,
            final(self).focus == old(self).focus,
            final(self).root == old(self).root,
            final(self).reroot_focus == old(self).reroot_focus,
    {
        let needed = self.ensure_fetched();
        self.rebuild();
        match self.select_after {
            Some(t) => {
                match row_of(&self.state.flat, t) {
                    Some(p) => {
                        self.state.selected = p;
                        self.select_after = None;
                    },
                    None => {},
                }
            },
            None => {},
        }
        needed
    }

    /// Anchor the tree on `focus`: drop everything cached, show the focus
    /// (expanded) as soon as it loads, re-root on its parent once that is
    /// known, and put the cursor on the focus. The focus is the one item to
    /// fetch.
    pub fn load_for(&mut self, focus: u32) -> (needed: Vec<u32>)
        ensures
            needed@ == seq![focus],
            final(self).cache@ == Map::<u32, WorkItem>::empty(),
            final(self).pending@ == Set::<u32>::empty().insert(focus),
            final(self).state.expanded@ == Set::<u32>::empty().insert(focus),
            final(self).state.flat@.len() == 0,
            final(self).state.selected == 0,
            final(self).focus == Some(focus),
            final(self).root == Some(focus),
            final(self).reroot_focus == Some(focus),
            final(self).select_after == Some(focus),
            final(self).filter == old(self).filter,
    {
        self.cache.clear();
        self.pending.clear();
        self.state.expanded.clear();
        self.focus = Some(focus);
        self.root = Some(focus);
        self.reroot_focus = Some(focus);
        self.select_after = Some(focus);
        self.state.expanded.insert(focus);
        self.state.flat.clear();
        self.state.selected = 0;
        proof {
            lemma_fresh_plan(focus);
            assert(self.state.expanded@ =~= Set::<u32>::empty().insert(focus));
        }
        let needed = self.ensure_fetched();
        proof {
            let n = needed@;
            assert(n.to_set().contains(focus));
            let k = choose|k: int| 0 <= k < n.len() && n[k] == focus;
            assert forall|j: int| 0 <= j < n.len() implies n[j] == focus by {
                assert(n.to_set().contains(n[j]));
            }
            if n.len() > 1 {
                let other: int = if k == 0 { 1 } else { 0 };
                assert(n[other] == focus);
            }
            assert(n =~= seq![focus]);
        }
        needed
    }

    /// Re-fetch the tree from scratch around its focus; `None` when the tree
    /// is not anchored.
    pub fn refresh(&mut self) -> (r: Option<Vec<u32>>)
        ensures
            match old(self).focus {
                None => r is None && *final(self) == *old(self),
                Some(f) => r matches Some(n) && n@ == seq![f] && final(self).cache@ == Map::<u32, WorkItem>::empty()
                    && final(self).pending@ == Set::<u32>::empty().insert(f) && final(self).state.expanded@
                    == Set::<u32>::empty().insert(f) && final(self).state.flat@.len() == 0 && final(self).root
                    == Some(f) && final(self).focus == Some(f) && final(self).reroot_focus == Some(f)
                    && final(self).select_after == Some(f),
            },
    {
        match self.focus {
            Some(f) => Some(self.load_for(f)),
            None => None,
        }
    }

    /// Anchor the tree on `anchor` (the open item, else the list selection,
    /// else the first item): reload when it is a different item or nothing
    /// is cached; with no anchor at all, clear the tree.
    pub fn anchor(&mut self, anchor: Option<u32>) -> (needed: Vec<u32>)
        ensures
            match anchor {
                Some(id) => if old(self).focus != Some(id) || old(self).cache@.len() == 0 {
                    &&& needed@ == seq![id]
                    &&& final(self).cache@ == Map::<u32, WorkItem>::empty()
                    &&& final(self).pending@ == Set::<u32>::empty().insert(id)
                    &&& final(self).state.expanded@ == Set::<u32>::empty().insert(id)
                    &&& final(self).state.flat@.len() == 0
                    &&& final(self).focus == Some(id)
                    &&& final(self).root == Some(id)
                } else {
                    needed@.len() == 0 && *final(self) == *old(self)
                },
                None => {
                    &&& needed@.len() == 0
                    &&& final(self).cache@ == Map::<u32, WorkItem>::empty()
                    &&& final(self).state.flat@.len() == 0
                    &&& final(self).focus is None
                    &&& final(self).root is None
                },
            },
    {
        match anchor {
            Some(id) => {
                if !same_opt(self.focus, Some(id)) || self.cache.is_empty() {
                    self.load_for(id)
                } else {
                    Vec::new()
                }
            },
            None => {
                self.cache.clear();
                self.state.flat.clear();
                self.focus = None;
                self.root = None;
                Vec::new()
            },
        }
    }
}

/// The shown tree starts at its root, at depth 0 (after the `…` marker when
/// the root has a cached parent); a collapsed root shows nothing below it.
pub proof fn law_rows_start_at_root(cache: Map<u32, WorkItem>, expanded: Set<u32>, r: u32)
    ensures
        ({
            let rows = tree_rows_of(cache, expanded, Some(r));
            let k: int = if parent_of(cache, r) is Some { 1 } else { 0 };
            &&& rows.len() > k
            &&& rows[k] == (TreeRow::Node { id: r, depth: 0 })
            &&& k == 1 ==> rows[0] == TreeRow::MoreAbove
            &&& !expanded.contains(r) ==> rows.len() == k + 1
        }),
{
}

/// Filtering keeps every shown node whose item matches, and the shown parent
/// of each kept match, so matches stay located in the hierarchy.
pub proof fn law_filter_keeps_match_and_parent(cache: Map<u32, WorkItem>, flat: Seq<TreeRow>, f: FuzzyFilter, j: int)
    requires
        0 <= j < flat.len(),
        flat[j] is Node,
        hit(cache, f, flat[j]->id),
    ensures
        kept_ids(cache, flat, f).contains(flat[j]->id),
        forall|p: u32|
            parent_of(cache, flat[j]->id) == Some(p) && #[trigger] shown_ids(flat).contains(p) ==> kept_ids(
                cache,
                flat,
                f,
            ).contains(p),
{
    let m = flat[j]->id;
    assert(keeps_via(cache, flat, f, flat[j], m));
    match parent_of(cache, m) {
        Some(p) => {
            if shown_ids(flat).contains(p) {
                assert(flat.len() > 0);
                assert(ancestors_in(cache, shown_ids(flat), m, flat.len()).contains(p));
                assert(keeps_via(cache, flat, f, flat[j], p));
            }
        },
        None => {},
    }
}

/// A filtered tree is made of node rows of the unfiltered tree, in order,
/// and never shows the `…` marker.
pub proof fn law_filtered_rows_are_kept_nodes(cache: Map<u32, WorkItem>, flat: Seq<TreeRow>, f: FuzzyFilter)
    ensures
        forall|i: int|
            0 <= i < filtered_rows(cache, flat, f).len() ==> (#[trigger] filtered_rows(cache, flat, f)[i]) is Node
                && flat.contains(filtered_rows(cache, flat, f)[i]),
{
    let fr = filtered_rows(cache, flat, f);
    assert forall|i: int| 0 <= i < fr.len() implies (#[trigger] fr[i]) is Node && flat.contains(fr[i]) by {
        flat.lemma_filter_pred(|r: TreeRow| row_kept(r, kept_ids(cache, flat, f)), i);
        flat.lemma_filter_contains_rev(|r: TreeRow| row_kept(r, kept_ids(cache, flat, f)), fr[i]);
        assert(fr.contains(fr[i]));
    }
}

/// A fetch plan never asks again for an item that is cached or already in
/// flight, and every planned id is needed to draw the tree.
pub proof fn law_plan_skips_known(
    cache: Map<u32, WorkItem>,
    expanded: Set<u32>,
    pending: Set<u32>,
    root: Option<u32>,
    id: u32,
)
    requires
        fetch_plan(cache, expanded, pending, root).contains(id),
    ensures
        !cache.contains_key(id),
        !pending.contains(id),
        wanted(cache, expanded, root, id),
{
}

} // verus!
