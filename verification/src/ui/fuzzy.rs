//! Shared fuzzy ranking used by every fuzzy picker (org/project picker, tags
//! editor, iteration filter, help search): one matcher and one scoring/sort
//! convention across the application.
use crate::text::{is_blank, trim};
use vstd::prelude::*;

verus! {

/// The score `fuzzy_matcher`'s default skim matcher gives `choice` for
/// `pattern` (`None` when the pattern does not match).
pub uninterp spec fn skim_score(choice: Seq<char>, pattern: Seq<char>) -> Option<i64>;

/// `SkimMatcherV2::default().fuzzy_match(choice, pattern)`.
#[verifier::external_body]
fn fuzzy_score(choice: &str, pattern: &str) -> (r: Option<i64>)
    ensures
        r == skim_score(choice@, pattern@),
        pattern@.len() == 0 ==> r == Some(0i64),
{
    let matcher = fuzzy_matcher::skim::SkimMatcherV2::default();
    fuzzy_matcher::FuzzyMatcher::fuzzy_match(&matcher, choice, pattern)
}

/// True if `hay` fuzzy-matches `query`; a blank query matches anything.
pub open spec fn fuzzy_hit(hay: Seq<char>, query: Seq<char>) -> bool {
    trim(query).len() == 0 || skim_score(hay, query) is Some
}

/// True if `hay` fuzzy-matches `query` (whitespace-only query matches anything).
pub fn matches(hay: &str, query: &str) -> (r: bool)
    ensures
        r == fuzzy_hit(hay@, query@),
{
    if is_blank(query) {
        return true;
    }
    fuzzy_score(hay, query).is_some()
}

/// The larger of two optional scores (`None` when neither is present).
pub open spec fn better(a: Option<i64>, b: Option<i64>) -> Option<i64> {
    match (a, b) {
        (None, _) => b,
        (Some(x), None) => Some(x),
        (Some(x), Some(y)) => Some(if x >= y { x } else { y }),
    }
}

/// An item's score: the best score over its candidate strings.
pub open spec fn best_score(keys: Seq<Seq<char>>, query: Seq<char>) -> Option<i64>
    decreases keys.len(),
{
    if keys.len() == 0 {
        None
    } else {
        better(best_score(keys.drop_last(), query), skim_score(keys.last(), query))
    }
}

/// The candidate strings of each item, as character sequences.
pub open spec fn key_views(keys: Seq<Vec<String>>) -> Seq<Seq<Seq<char>>> {
    keys.map_values(|k: Vec<String>| k@.map_values(|s: String| s@))
}

/// Score of item `i`.
pub open spec fn item_score(keys: Seq<Seq<Seq<char>>>, query: Seq<char>, i: int) -> Option<i64> {
    best_score(keys[i], query)
}

/// The score of every item.
pub open spec fn scores_of(keys: Seq<Seq<Seq<char>>>, query: Seq<char>) -> Seq<Option<i64>> {
    Seq::new(keys.len(), |i: int| item_score(keys, query, i))
}

/// With scores `scores`, item `x` comes before item `y`: higher score
/// first, ties keep the original order.
pub open spec fn score_before(scores: Seq<Option<i64>>, x: int, y: int) -> bool {
    let sx = scores[x]->0;
    let sy = scores[y]->0;
    sx > sy || (sx == sy && x < y)
}

/// `r` lists, best first, exactly the items that have a score (a stable
/// sort by descending score).
pub open spec fn is_score_ranking(scores: Seq<Option<i64>>, r: Seq<usize>) -> bool {
    &&& forall|k: int| 0 <= k < r.len() ==> r[k] < scores.len() && (#[trigger] scores[r[k] as int]) is Some
    &&& forall|i: int| 0 <= i < scores.len() && (#[trigger] scores[i]) is Some ==> r.contains(i as usize)
    &&& forall|a: int, b: int|
        0 <= a < b < r.len() ==> score_before(scores, #[trigger] r[a] as int, #[trigger] r[b] as int)
}

/// `r` lists, best first, exactly the items that match `query` (a stable
/// sort by descending score); a blank query lists every item in order.
pub open spec fn is_ranking(keys: Seq<Seq<Seq<char>>>, query: Seq<char>, r: Seq<usize>) -> bool {
    if trim(query).len() == 0 {
        r.len() == keys.len() && forall|k: int| 0 <= k < r.len() ==> r[k] == k
    } else {
        is_score_ranking(scores_of(keys, query), r)
    }
}

/// How many leading entries of `r` score at least `sc` (where a new entry
/// scoring `sc` is inserted to keep the ranking stable).
pub open spec fn insert_pos(scores: Seq<Option<i64>>, r: Seq<usize>, sc: i64) -> int
    decreases r.len(),
{
    if r.len() > 0 && scores[r[0] as int]->0 >= sc {
        1 + insert_pos(scores, r.drop_first(), sc)
    } else {
        0
    }
}

/// The ranking of the first `n` items (stable insertion by descending score).
pub open spec fn ranked_prefix(scores: Seq<Option<i64>>, n: nat) -> Seq<usize>
    decreases n,
{
    if n == 0 {
        Seq::empty()
    } else {
        let r = ranked_prefix(scores, (n - 1) as nat);
        match scores[n - 1] {
            Some(sc) => r.insert(insert_pos(scores, r, sc), (n - 1) as usize),
            None => r,
        }
    }
}

/// The ranking of all items by their scores.
pub open spec fn ranked_scores(scores: Seq<Option<i64>>) -> Seq<usize> {
    ranked_prefix(scores, scores.len())
}

/// The ranking of all items for `query` (every item, in order, when the
/// query is blank).
pub open spec fn ranked(keys: Seq<Seq<Seq<char>>>, query: Seq<char>) -> Seq<usize> {
    if trim(query).len() == 0 {
        Seq::new(keys.len(), |k: int| k as usize)
    } else {
        ranked_scores(scores_of(keys, query))
    }
}

proof fn lemma_insert_pos(scores: Seq<Option<i64>>, r: Seq<usize>, sc: i64, rs: Seq<i64>, pos: int)
    requires
        rs.len() == r.len(),
        forall|k: int| 0 <= k < r.len() ==> scores[r[k] as int] == Some(rs[k]),
        0 <= pos <= r.len(),
        forall|k: int| 0 <= k < pos ==> rs[k] >= sc,
        pos == r.len() || rs[pos] < sc,
    ensures
        insert_pos(scores, r, sc) == pos,
    decreases r.len(),
{
    if r.len() > 0 && pos > 0 {
        lemma_insert_pos(scores, r.drop_first(), sc, rs.drop_first(), pos - 1);
    }
}

/// The best score of one item over its keys.
fn score_item(keys: &Vec<String>, query: &str) -> (r: Option<i64>)
    ensures
        r == best_score(keys@.map_values(|s: String| s@), query@),
{
    let ghost ks = keys@.map_values(|s: String| s@);
    let mut best: Option<i64> = None;
    let mut i: usize = 0;
    while i < keys.len()
        invariant
            i <= keys@.len(),
            ks == keys@.map_values(|s: String| s@),
            best == best_score(ks.take(i as int), query@),
        decreases keys.len() - i,
    {
        let s = fuzzy_score(keys[i].as_str(), query);
        proof {
            assert(ks.take(i + 1).drop_last() =~= ks.take(i as int));
        }
        best = match (best, s) {
            (None, _) => s,
            (Some(x), None) => Some(x),
            (Some(x), Some(y)) => Some(if x >= y { x } else { y }),
        };
        i = i + 1;
    }
    assert(ks.take(keys.len() as int) =~= ks);
    best
}

/// Rank items by their scores: the items that have one, best first, ties
/// in their original order (a stable sort by descending score).
pub fn rank_scores(given: &Vec<Option<i64>>) -> (r: Vec<usize>)
    ensures
        r@ == ranked_scores(given@),
        is_score_ranking(given@, r@),
{
    let mut out: Vec<usize> = Vec::new();
    let mut scores: Vec<i64> = Vec::new();
    let mut i: usize = 0;
    while i < given.len()
        invariant
            i <= given@.len(),
            out@ == ranked_prefix(given@, i as nat),
            scores@.len() == out@.len(),
            forall|k: int|
                0 <= k < out@.len() ==> out@[k] < i && (#[trigger] given@[out@[k] as int])
                    == Some(scores@[k]),
            forall|j: int|
                0 <= j < i && (#[trigger] given@[j]) is Some ==> out@.contains(
                    j as usize,
                ),
            forall|a: int, b: int|
                0 <= a < b < out@.len() ==> score_before(given@, #[trigger] out@[a] as int, #[trigger] out@[b] as int),
        decreases given.len() - i,
    {
        let s = given[i];
        if let Some(sc) = s {
            // Insert after every entry that ranks at least as high.
            let mut pos: usize = 0;
            while pos < out.len() && scores[pos] >= sc
                invariant
                    pos <= out@.len(),
                    scores@.len() == out@.len(),
                    forall|k: int| 0 <= k < pos ==> scores@[k] >= sc,
                decreases out.len() - pos,
            {
                pos = pos + 1;
            }
            proof {
                // Every entry from `pos` on scores strictly less.
                assert forall|k: int| pos <= k < out@.len() implies scores@[k] < sc by {
                    if pos < out@.len() {
                        assert(scores@[pos as int] < sc);
                        if k > pos {
                            assert(score_before(given@, out@[pos as int] as int, out@[k] as int));
                            assert(given@[out@[pos as int] as int] == Some(scores@[pos as int]));
                            assert(given@[out@[k] as int] == Some(scores@[k]));
                        }
                    }
                }
            }
            let ghost old_out = out@;
            let ghost old_scores = scores@;
            proof {
                lemma_insert_pos(given@, old_out, sc, old_scores, pos as int);
            }
            out.insert(pos, i);
            scores.insert(pos, sc);
            proof {
                assert forall|k: int|
                    0 <= k < out@.len() implies out@[k] < i + 1 && (#[trigger] given@[out@[k] as int])
                        == Some(scores@[k]) by {
                    if k < pos {
                        assert(out@[k] == old_out[k]);
                    } else if k > pos {
                        assert(out@[k] == old_out[k - 1]);
                    }
                }
                assert forall|j: int|
                    0 <= j < i + 1 && (#[trigger] given@[j]) is Some implies out@.contains(
                        j as usize,
                    ) by {
                    if j == i {
                        assert(out@[pos as int] == i);
                    } else {
                        let w = choose|w: int| 0 <= w < old_out.len() && old_out[w] == j as usize;
                        if w < pos {
                            assert(out@[w] == j as usize);
                        } else {
                            assert(out@[w + 1] == j as usize);
                        }
                    }
                }
                assert forall|a: int, b: int|
                    0 <= a < b < out@.len() implies score_before(given@, #[trigger] out@[a] as int, #[trigger] out@[b] as int) by {
                    if a < pos && b < pos {
                        assert(out@[a] == old_out[a] && out@[b] == old_out[b]);
                    } else if a < pos && b == pos {
                        assert(out@[a] == old_out[a]);
                        assert(old_out[a] < i);
                        assert(old_scores[a] >= sc);
                    } else if a < pos && b > pos {
                        assert(out@[a] == old_out[a] && out@[b] == old_out[b - 1]);
                    } else if a == pos {
                        assert(out@[b] == old_out[b - 1]);
                        assert(old_scores[b - 1] < sc);
                    } else {
                        assert(out@[a] == old_out[a - 1] && out@[b] == old_out[b - 1]);
                    }
                }
            }
        }
        i = i + 1;
    }
    out
}


/// Rank items against `query`, keeping only matches, best score first; each
/// item is given by its candidate strings (an item matches on any of them).
/// An empty or whitespace-only query returns every item in its original order.
pub fn rank(keys: &Vec<Vec<String>>, query: &str) -> (r: Vec<usize>)
    ensures
        is_ranking(key_views(keys@), query@, r@),
        r@ == ranked(key_views(keys@), query@),
{
    let ghost kv = key_views(keys@);
    if is_blank(query) {
        let mut out: Vec<usize> = Vec::new();
        let mut i: usize = 0;
        while i < keys.len()
            invariant
                i <= keys@.len(),
                out@.len() == i,
                forall|k: int| 0 <= k < i ==> out@[k] == k,
            decreases keys.len() - i,
        {
            out.push(i);
            i = i + 1;
        }
        assert(out@ =~= ranked(kv, query@));
        return out;
    }
    let mut given: Vec<Option<i64>> = Vec::new();
    let mut i: usize = 0;
    while i < keys.len()
        invariant
            i <= keys@.len(),
            kv == key_views(keys@),
            given@ == scores_of(kv, query@).take(i as int),
        decreases keys.len() - i,
    {
        let s = score_item(&keys[i], query);
        assert(kv[i as int] == keys@[i as int]@.map_values(|s: String| s@));
        given.push(s);
        i = i + 1;
        assert(given@ =~= scores_of(kv, query@).take(i as int));
    }
    assert(given@ =~= scores_of(kv, query@));
    rank_scores(&given)
}

/// Items that each have a single candidate string.
pub open spec fn single_keys(opts: Seq<Seq<char>>) -> Seq<Seq<Seq<char>>> {
    opts.map_values(|o: Seq<char>| seq![o])
}

/// The entries of `opts` at the positions listed in `idx`.
pub open spec fn pick_views(opts: Seq<Seq<char>>, idx: Seq<usize>) -> Seq<Seq<char>> {
    idx.map_values(|i: usize| opts[i as int])
}

/// The strings of `opts` that match `query`, best first (all of them, in
/// order, for a blank query).
pub open spec fn fuzzy_filtered(opts: Seq<Seq<char>>, query: Seq<char>) -> Seq<Seq<char>> {
    pick_views(opts, ranked(single_keys(opts), query))
}

/// Every position listed in a ranking lies within the item list.
pub proof fn lemma_ranking_in_bounds(keys: Seq<Seq<Seq<char>>>, query: Seq<char>, r: Seq<usize>)
    requires
        is_ranking(keys, query, r),
    ensures
        forall|k: int| 0 <= k < r.len() ==> (#[trigger] r[k]) < keys.len(),
{
    assert forall|k: int| 0 <= k < r.len() implies (#[trigger] r[k]) < keys.len() by {
        if trim(query).len() != 0 {
            assert(scores_of(keys, query).len() == keys.len());
            assert(scores_of(keys, query)[r[k] as int] is Some);
        }
    }
}

/// One single-candidate key list per string.
fn single_key_lists(opts: &Vec<String>) -> (r: Vec<Vec<String>>)
    ensures
        key_views(r@) == single_keys(crate::text::views(opts@)),
{
    let mut out: Vec<Vec<String>> = Vec::new();
    let mut i: usize = 0;
    while i < opts.len()
        invariant
            i <= opts@.len(),
            key_views(out@) == single_keys(crate::text::views(opts@.take(i as int))),
        decreases opts.len() - i,
    {
        let mut one: Vec<String> = Vec::new();
        let c = opts[i].clone();
        one.push(c);
        assert(one@.map_values(|s: String| s@) =~= seq![opts@[i as int]@]);
        let ghost before = out@;
        out.push(one);
        assert(key_views(out@) =~= key_views(before).push(seq![opts@[i as int]@]));
        i = i + 1;
        assert(crate::text::views(opts@.take(i as int)) =~= crate::text::views(
            opts@.take(i - 1),
        ).push(opts@[i - 1]@));
        assert(key_views(out@) =~= single_keys(crate::text::views(opts@.take(i as int))));
    }
    assert(opts@.take(opts.len() as int) =~= opts@);
    out
}

/// The strings of `opts` at the positions `idx`.
fn pick_strings(opts: &Vec<String>, idx: &Vec<usize>) -> (r: Vec<String>)
    requires
        forall|k: int| 0 <= k < idx@.len() ==> (#[trigger] idx@[k]) < opts@.len(),
    ensures
        crate::text::views(r@) == pick_views(crate::text::views(opts@), idx@),
{
    let mut out: Vec<String> = Vec::new();
    let mut i: usize = 0;
    while i < idx.len()
        invariant
            i <= idx@.len(),
            forall|k: int| 0 <= k < idx@.len() ==> (#[trigger] idx@[k]) < opts@.len(),
            crate::text::views(out@) == pick_views(crate::text::views(opts@), idx@.take(i as int)),
        decreases idx.len() - i,
    {
        let c = opts[idx[i]].clone();
        assert(c@ == crate::text::views(opts@)[idx@[i as int] as int]);
        let ghost before = out@;
        out.push(c);
        assert(crate::text::views(out@) =~= crate::text::views(before).push(c@));
        assert(idx@.take(i + 1) =~= idx@.take(i as int).push(idx@[i as int]));
        i = i + 1;
        assert(crate::text::views(out@) =~= pick_views(
            crate::text::views(opts@),
            idx@.take(i as int),
        ));
    }
    assert(idx@.take(idx.len() as int) =~= idx@);
    out
}

/// The strings of `opts` matching `query`, ranked by fuzzy score (every
/// string, in order, for a blank query).
pub fn rank_strings(opts: &Vec<String>, query: &str) -> (r: Vec<String>)
    ensures
        crate::text::views(r@) == fuzzy_filtered(crate::text::views(opts@), query@),
{
    let keys = single_key_lists(opts);
    let idx = rank(&keys, query);
    proof {
        lemma_ranking_in_bounds(key_views(keys@), query@, idx@);
    }
    pick_strings(opts, &idx)
}


/// A blank query keeps every option, in its original order.
pub proof fn law_blank_query_keeps_all(opts: Seq<Seq<char>>, query: Seq<char>)
    requires
        trim(query).len() == 0,
        opts.len() <= usize::MAX,
    ensures
        fuzzy_filtered(opts, query) == opts,
{
    let idx = ranked(single_keys(opts), query);
    assert(idx.len() == opts.len());
    assert forall|k: int| 0 <= k < opts.len() implies #[trigger] fuzzy_filtered(opts, query)[k] == opts[k] by {
        assert(idx[k] == k as usize);
    }
    assert(fuzzy_filtered(opts, query) =~= opts);
}

} // verus!
