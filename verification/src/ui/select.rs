//! List-selection helpers shared by the pickers: finding and toggling an
//! entry (exactly or ignoring ASCII case), and moving a cursor in a list.
use crate::text::{eq_ic, eq_ignore_case, owned, str_eq, views};
use vstd::prelude::*;

verus! {

/// Whether `a` and `b` are the same entry (ignoring ASCII case when `ic`).
pub open spec fn same_entry(a: Seq<char>, b: Seq<char>, ic: bool) -> bool {
    if ic {
        eq_ic(a, b)
    } else {
        a == b
    }
}

/// Index of the first entry of `s` that is the same as `x`.
pub open spec fn first_same(s: Seq<Seq<char>>, x: Seq<char>, ic: bool) -> Option<int>
    decreases s.len(),
{
    if s.len() == 0 {
        None
    } else if same_entry(s[0], x, ic) {
        Some(0)
    } else {
        match first_same(s.drop_first(), x, ic) {
            Some(i) => Some(i + 1),
            None => None,
        }
    }
}

/// `s` with `x` removed (its first occurrence) if present, else appended.
pub open spec fn toggled(s: Seq<Seq<char>>, x: Seq<char>, ic: bool) -> Seq<Seq<char>> {
    match first_same(s, x, ic) {
        Some(i) => s.remove(i),
        None => s.push(x),
    }
}

/// The cursor after moving up one row.
pub open spec fn step_up(c: int) -> int {
    if c >= 1 {
        c - 1
    } else {
        0
    }
}

/// The cursor after moving down one row in a list of `len` rows (stopping
/// at the last row; 0 for an empty list).
pub open spec fn step_down(c: int, len: int) -> int {
    let max = if len >= 1 { len - 1 } else { 0 };
    if c + 1 <= max {
        c + 1
    } else {
        max
    }
}

proof fn lemma_first_same(s: Seq<Seq<char>>, x: Seq<char>, ic: bool, i: int)
    requires
        0 <= i <= s.len(),
        forall|j: int| 0 <= j < i ==> !same_entry(#[trigger] s[j], x, ic),
    ensures
        i < s.len() && same_entry(s[i], x, ic) ==> first_same(s, x, ic) == Some(i),
        i == s.len() ==> first_same(s, x, ic) is None,
    decreases i,
{
    if i > 0 {
        let t = s.drop_first();
        assert forall|j: int| 0 <= j < i - 1 implies !same_entry(#[trigger] t[j], x, ic) by {
            assert(t[j] == s[j + 1]);
        }
        lemma_first_same(t, x, ic, i - 1);
    } else if s.len() > 0 {
    }
}

/// Index of the first entry of `v` that is the same as `x`.
pub fn find_same(v: &Vec<String>, x: &str, ic: bool) -> (r: Option<usize>)
    ensures
        first_same(views(v@), x@, ic) == (match r {
            Some(k) => Some(k as int),
            None => None::<int>,
        }),
        r matches Some(i) ==> i < v@.len(),
{
    let mut i: usize = 0;
    while i < v.len()
        invariant
            i <= v@.len(),
            forall|j: int| 0 <= j < i ==> !same_entry(#[trigger] views(v@)[j], x@, ic),
        decreases v.len() - i,
    {
        let hit = if ic {
            eq_ignore_case(v[i].as_str(), x)
        } else {
            str_eq(v[i].as_str(), x)
        };
        if hit {
            proof {
                lemma_first_same(views(v@), x@, ic, i as int);
            }
            return Some(i);
        }
        i = i + 1;
    }
    proof {
        lemma_first_same(views(v@), x@, ic, i as int);
    }
    None
}

/// Some entry of `s` is the same as `x`.
pub open spec fn has_entry(s: Seq<Seq<char>>, x: Seq<char>, ic: bool) -> bool {
    exists|j: int| 0 <= j < s.len() && same_entry(#[trigger] s[j], x, ic)
}

/// Whether some entry of `v` is the same as `x`.
pub fn has_same(v: &Vec<String>, x: &str, ic: bool) -> (r: bool)
    ensures
        r == has_entry(views(v@), x@, ic),
{
    let mut i: usize = 0;
    while i < v.len()
        invariant
            i <= v@.len(),
            forall|j: int| 0 <= j < i ==> !same_entry(#[trigger] views(v@)[j], x@, ic),
        decreases v.len() - i,
    {
        let hit = if ic {
            eq_ignore_case(v[i].as_str(), x)
        } else {
            str_eq(v[i].as_str(), x)
        };
        if hit {
            assert(same_entry(views(v@)[i as int], x@, ic));
            return true;
        }
        i = i + 1;
    }
    false
}

/// Remove `x` (its first occurrence) from `v` if present, else append it.
pub fn toggle_entry(v: &mut Vec<String>, x: &str, ic: bool)
    ensures
        views(final(v)@) == toggled(views(old(v)@), x@, ic),
{
    let ghost before = views(v@);
    match find_same(v, x, ic) {
        Some(pos) => {
            v.remove(pos);
            assert(views(v@) =~= before.remove(pos as int));
            assert(toggled(before, x@, ic) == before.remove(pos as int));
        },
        None => {
            v.push(owned(x));
            assert(views(v@) =~= before.push(x@));
            assert(toggled(before, x@, ic) == before.push(x@));
        },
    }
}

/// Move a cursor up one row.
pub fn cursor_up(c: usize) -> (r: usize)
    ensures
        r == step_up(c as int),
{
    if c >= 1 {
        c - 1
    } else {
        0
    }
}

/// Move a cursor down one row in a list of `len` rows.
pub fn cursor_down(c: usize, len: usize) -> (r: usize)
    ensures
        r == step_down(c as int, len as int),
{
    let max = if len >= 1 { len - 1 } else { 0 };
    if c < max {
        c + 1
    } else {
        max
    }
}


proof fn lemma_first_same_absent(s: Seq<Seq<char>>, x: Seq<char>, ic: bool)
    requires
        !has_entry(s, x, ic),
    ensures
        first_same(s, x, ic) is None,
        first_same(s.push(x), x, ic) == Some(s.len() as int),
{
    lemma_first_same(s, x, ic, s.len() as int);
    let t = s.push(x);
    assert forall|j: int| 0 <= j < s.len() implies !same_entry(#[trigger] t[j], x, ic) by {
        assert(t[j] == s[j]);
    }
    assert(same_entry(x, x, ic));
    lemma_first_same(t, x, ic, s.len() as int);
}

/// Toggling an entry that is absent adds it; toggling it again removes it,
/// giving back the list as it was.
pub proof fn law_toggle_twice(s: Seq<Seq<char>>, x: Seq<char>, ic: bool)
    requires
        !has_entry(s, x, ic),
    ensures
        has_entry(toggled(s, x, ic), x, ic),
        toggled(toggled(s, x, ic), x, ic) == s,
{
    lemma_first_same_absent(s, x, ic);
    let t = s.push(x);
    assert(same_entry(t[s.len() as int], x, ic));
    assert(t.remove(s.len() as int) =~= s);
}

} // verus!
