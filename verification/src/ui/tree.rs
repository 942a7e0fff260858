//! Relationship tree rows and their box-drawing connectors (`├─`, `└─`, `│`),
//! as `tree(1)` or `cargo tree` draw them. A `⋯` row at the top means there
//! are more ancestors above.
use std::collections::HashSet;
use vstd::prelude::*;

verus! {

/// One visible row of the relationship tree.
#[derive(Clone, Copy, Debug, PartialEq, Eq, Structural)]
pub enum TreeRow {
    /// A work-item node at the given indentation depth.
    Node { id: u32, depth: usize },
    /// A "…" continuation marker: more ancestors exist above the shown root.
    MoreAbove,
}

/// The expand state, selection and flattened rows of the relationship tree.
pub struct TreeState {
    pub expanded: HashSet<u32>,
    /// Index into `flat`; kept on a `Node` row.
    pub selected: usize,
    pub flat: Vec<TreeRow>,
}

impl TreeState {
    /// Nothing expanded, no rows.
    pub fn new() -> (r: Self)
        ensures
            r.expanded@ == Set::<u32>::empty(),
            r.selected == 0,
            r.flat@.len() == 0,
    {
        TreeState { expanded: HashSet::new(), selected: 0, flat: Vec::new() }
    }
}

/// Scanning forward from row `from`, the next node at depth at most `level`
/// is exactly at `level` (a following sibling at that level), rather than
/// shallower (the branch has ended) or absent.
pub open spec fn continues(flat: Seq<TreeRow>, from: int, level: int) -> bool
    decreases flat.len() - from,
{
    if from < 0 || from >= flat.len() {
        false
    } else {
        match flat[from] {
            TreeRow::Node { depth, .. } => if depth < level {
                false
            } else if depth == level {
                true
            } else {
                continues(flat, from + 1, level)
            },
            TreeRow::MoreAbove => continues(flat, from + 1, level),
        }
    }
}

/// The connector drawn at `level` for the node at row `idx` of depth `depth`.
pub open spec fn connector_piece(flat: Seq<TreeRow>, idx: int, depth: int, level: int) -> Seq<char> {
    let more = continues(flat, idx + 1, level);
    if level == depth {
        if more {
            "├─ "@
        } else {
            "└─ "@
        }
    } else {
        if more {
            "│  "@
        } else {
            "   "@
        }
    }
}

/// The connectors for levels `1..=k`.
pub open spec fn connectors_upto(flat: Seq<TreeRow>, idx: int, depth: int, k: int) -> Seq<char>
    decreases k,
{
    if k <= 0 {
        Seq::empty()
    } else {
        connectors_upto(flat, idx, depth, k - 1) + connector_piece(flat, idx, depth, k)
    }
}

/// Whether the node at row `idx` continues at `level`.
fn continues_at(flat: &Vec<TreeRow>, idx: usize, level: usize) -> (r: bool)
    requires
        idx < flat.len(),
    ensures
        r == continues(flat@, idx + 1, level as int),
{
    let mut j: usize = idx + 1;
    while j < flat.len()
        invariant
            idx + 1 <= j <= flat@.len(),
            continues(flat@, j as int, level as int) == continues(flat@, idx + 1, level as int),
        decreases flat.len() - j,
    {
        match flat[j] {
            TreeRow::Node { depth, .. } => {
                if depth < level {
                    return false;
                }
                if depth == level {
                    return true;
                }
            },
            TreeRow::MoreAbove => {},
        }
        j = j + 1;
    }
    false
}

/// The box-drawing prefix for the node at row `idx` (of depth `depth`),
/// derived from the depths of the rows after it: for each ancestor level a
/// continuation rule (`│  `) when that ancestor has a later sibling, else
/// blank; the node's own slot an elbow (`├─ ` when a sibling follows, `└─ `
/// for the last child). The root (depth 0) gets no prefix.
pub fn connector_prefix(flat: &Vec<TreeRow>, idx: usize, depth: usize) -> (r: String)
    requires
        idx < flat@.len(),
    ensures
        r@ == connectors_upto(flat@, idx as int, depth as int, depth as int),
{
    let mut prefix = String::new();
    let mut level: usize = 1;
    while level <= depth
        invariant
            idx < flat@.len(),
            1 <= level,
            level <= depth + 1,
            prefix@ == connectors_upto(flat@, idx as int, depth as int, level - 1),
        decreases depth + 1 - level,
    {
        let more = continues_at(flat, idx, level);
        let piece = if level == depth {
            if more {
                "├─ "
            } else {
                "└─ "
            }
        } else {
            if more {
                "│  "
            } else {
                "   "
            }
        };
        prefix.append(piece);
        if level == depth {
            assert(prefix@ == connectors_upto(flat@, idx as int, depth as int, level as int));
            return prefix;
        }
        level = level + 1;
    }
    prefix
}


/// The prefix holds three characters per level, so nodes of equal depth line
/// up.
pub proof fn law_prefix_width(flat: Seq<TreeRow>, idx: int, depth: int, k: int)
    requires
        0 <= k,
    ensures
        connectors_upto(flat, idx, depth, k).len() == 3 * k,
    decreases k,
{
    reveal_strlit("├─ ");
    reveal_strlit("└─ ");
    reveal_strlit("│  ");
    reveal_strlit("   ");
    if k > 0 {
        law_prefix_width(flat, idx, depth, k - 1);
    }
}

} // verus!
