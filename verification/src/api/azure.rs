//! The Azure DevOps REST backend's own rules: turning rich-text fields into
//! plain text and dates into day counts, reading a work item out of the
//! fields the server returns, the field reference names, and the WIQL query.
use crate::api::models::{
    date_days, is_leap, month_len, now_unix, state_from_label, valid_date, wiql_clause_of, Comment,
    Date, WorkItem, WorkItemFilter, WorkItemState,
};
use crate::text::{
    byte_prefix, chars_of, eq_ic, eq_ignore_case, owned, parse_int, parse_nat_upto, parse_signed, parse_u32, prefix_bytes, push_char,
    sep_list, split_char, split_on, split_trimmed, str_eq, trim, trimmed, views,
};
use vstd::prelude::*;

verus! {

/// `s` without the markup between `<` and `>` (inclusive).
pub open spec fn untagged(s: Seq<char>) -> Seq<char> {
    untagged_from(s, false)
}

/// [`untagged`] of `s`, starting inside a tag when `in_tag`.
pub open spec fn untagged_from(s: Seq<char>, in_tag: bool) -> Seq<char>
    decreases s.len(),
{
    if s.len() == 0 {
        Seq::empty()
    } else if s[0] == '<' {
        untagged_from(s.drop_first(), true)
    } else if s[0] == '>' {
        untagged_from(s.drop_first(), false)
    } else if in_tag {
        untagged_from(s.drop_first(), true)
    } else {
        seq![s[0]] + untagged_from(s.drop_first(), false)
    }
}

/// `s.replace(pat, to)`: every non-overlapping occurrence of `pat`, scanning
/// from the left, replaced by `to`.
pub open spec fn replace_all(s: Seq<char>, pat: Seq<char>, to: Seq<char>) -> Seq<char>
    decreases s.len(),
{
    if s.len() == 0 || pat.len() == 0 {
        s
    } else if s.len() >= pat.len() && s.take(pat.len() as int) == pat {
        to + replace_all(s.skip(pat.len() as int), pat, to)
    } else {
        seq![s[0]] + replace_all(s.drop_first(), pat, to)
    }
}

/// Plain text of a rich-text field: tags dropped, the common entities
/// (`&nbsp;`, `&amp;`, `&lt;`, `&gt;`, in that order) decoded, then trimmed.
pub open spec fn strip_html_of(s: Seq<char>) -> Seq<char> {
    trim(
        replace_all(
            replace_all(
                replace_all(replace_all(untagged(s), "&nbsp;"@, " "@), "&amp;"@, "&"@),
                "&lt;"@,
                "<"@,
            ),
            "&gt;"@,
            ">"@,
        ),
    )
}

/// `s` with every occurrence of `pat` replaced by `to`.
pub fn replace_str(s: &str, pat: &str, to: &str) -> (r: String)
    ensures
        r@ == replace_all(s@, pat@, to@),
{
    let v = chars_of(s);
    let p = chars_of(pat);
    let mut out = String::new();
    if p.len() == 0 {
        out.append(s);
        return out;
    }
    let mut i: usize = 0;
    assert(v@.skip(0) =~= v@);
    assert(out@ + replace_all(v@, p@, to@) =~= replace_all(v@, p@, to@));
    while i < v.len()
        invariant
            v@ == s@,
            p@ == pat@,
            p@.len() > 0,
            i <= v@.len(),
            out@ + replace_all(v@.skip(i as int), p@, to@) == replace_all(v@, p@, to@),
        decreases v.len() - i,
    {
        let ghost rest = v@.skip(i as int);
        if v.len() - i >= p.len() && crate::text::matches_at(&v, &p, i) {
            assert(rest.take(p@.len() as int) =~= v@.subrange(i as int, i + p@.len()));
            assert(rest.skip(p@.len() as int) =~= v@.skip(i + p@.len()));
            out.append(to);
            assert(out@ + replace_all(v@.skip(i + p@.len()), p@, to@) =~= replace_all(v@, p@, to@));
            i = i + p.len();
        } else {
            proof {
                if rest.len() >= p@.len() {
                    assert(rest.take(p@.len() as int) =~= v@.subrange(i as int, i + p@.len()));
                }
            }
            assert(rest.drop_first() =~= v@.skip(i + 1));
            push_char(&mut out, v[i]);
            assert(out@ + replace_all(v@.skip(i + 1), p@, to@) =~= replace_all(v@, p@, to@));
            i = i + 1;
        }
    }
    assert(v@.skip(i as int) =~= Seq::<char>::empty());
    out
}

/// Plain text of a rich-text field (see [`strip_html_of`]).
pub fn strip_html(s: &str) -> (r: String)
    ensures
        r@ == strip_html_of(s@),
{
    let v = chars_of(s);
    let mut out = String::new();
    let mut in_tag = false;
    let mut i: usize = 0;
    assert(v@.skip(0) =~= v@);
    assert(out@ + untagged(v@) =~= untagged(v@));
    while i < v.len()
        invariant
            v@ == s@,
            i <= v@.len(),
            out@ + untagged_from(v@.skip(i as int), in_tag) == untagged(v@),
        decreases v.len() - i,
    {
        let c = v[i];
        assert(v@.skip(i as int).drop_first() =~= v@.skip(i + 1));
        if c == '<' {
            in_tag = true;
        } else if c == '>' {
            in_tag = false;
        } else if !in_tag {
            push_char(&mut out, c);
            assert(out@ + untagged_from(v@.skip(i + 1), false) =~= untagged(v@));
        }
        i = i + 1;
    }
    assert(v@.skip(i as int) =~= Seq::<char>::empty());
    let a = replace_str(out.as_str(), "&nbsp;", " ");
    let b = replace_str(a.as_str(), "&amp;", "&");
    let c = replace_str(b.as_str(), "&lt;", "<");
    let d = replace_str(c.as_str(), "&gt;", ">");
    trimmed(d.as_str())
}

/// Division rounding toward zero (Rust's `/` on signed integers).
pub open spec fn trunc_div(a: int, b: int) -> int {
    if a >= 0 {
        a / b
    } else {
        -((-a) / b)
    }
}

/// Howard Hinnant's days-from-civil for any `y-m-d` (months and days out
/// of range extend it the way the formula does, with Rust's rounding).
pub open spec fn civil_days(y: int, m: int, d: int) -> int {
    let y1 = if m <= 2 { y - 1 } else { y };
    let era = y1 / 400;
    let yoe = y1 - era * 400;
    let mp = if m > 2 { m - 3 } else { m + 9 };
    let doy = trunc_div(153 * mp + 2, 5) + d - 1;
    let doe = yoe * 365 + yoe / 4 - yoe / 100 + doy;
    era * 146097 + doe - 719468
}

/// Hinnant's days-from-civil computed without overflow.
fn civil_days_wide(y: i64, m: i64, d: i64) -> (r: i128)
    ensures
        r == civil_days(y as int, m as int, d as int),
{
    let y: i128 = y as i128;
    let m: i128 = m as i128;
    let d: i128 = d as i128;
    let y: i128 = if m <= 2 { y - 1 } else { y };
    let era: i128 = if y >= 0 { y / 400 } else { 0 - ((399 - y) / 400) };
    proof {
        if y < 0 {
            assert(era as int == (y as int) / 400) by (nonlinear_arith)
                requires
                    y < 0,
                    era == -((399 - y) / 400),
            ;
        }
        assert(0 <= y - era * 400 < 400) by (nonlinear_arith)
            requires
                era == (y as int) / 400,
        ;
        assert(-0x1_0000_0000_0000_0000 < era < 0x1_0000_0000_0000_0000) by (nonlinear_arith)
            requires
                era == (y as int) / 400,
                -0x1_0000_0000_0000_0001 < y < 0x1_0000_0000_0000_0000,
        ;
    }
    let yoe: i128 = y - era * 400;
    let mp: i128 = if m > 2 { m - 3 } else { m + 9 };
    let t: i128 = 153 * mp + 2;
    let q: i128 = if t >= 0 { t / 5 } else { 0 - ((0 - t) / 5) };
    let doy: i128 = q + d - 1;
    let doe: i128 = yoe * 365 + yoe / 4 - yoe / 100 + doy;
    era * 146_097 + doe - 719_468
}

/// Days since the Unix epoch for a civil date (Howard Hinnant's algorithm).
pub fn days_from_civil(y: i64, m: i64, d: i64) -> (r: i64)
    requires
        i64::MIN <= civil_days(y as int, m as int, d as int) <= i64::MAX,
    ensures
        r == civil_days(y as int, m as int, d as int),
{
    civil_days_wide(y, m, d) as i64
}

/// The year, month and day of a leading `YYYY-MM-DD` (each as an `i64`).
pub open spec fn iso_ymd(s: Seq<char>) -> Option<(int, int, int)> {
    match byte_prefix(s, 10) {
        None => None,
        Some(p) => {
            let parts = split_char(p, '-');
            if parts.len() < 3 {
                None
            } else {
                match (
                    parse_signed(parts[0], i64::MIN as int, i64::MAX as int),
                    parse_signed(parts[1], i64::MIN as int, i64::MAX as int),
                    parse_signed(parts[2], i64::MIN as int, i64::MAX as int),
                ) {
                    (Some(y), Some(m), Some(d)) => Some((y, m, d)),
                    _ => None,
                }
            }
        },
    }
}

/// Whole days from the date of an ISO-8601 timestamp until epoch day
/// `today`: 0 when unparsable or in the future, narrowed to `u32` the way an
/// `as` cast does.
pub open spec fn days_since_of(iso: Seq<char>, today: int) -> u32 {
    match iso_ymd(iso) {
        None => 0,
        Some((y, m, d)) => {
            let diff = today - civil_days(y, m, d);
            if diff <= 0 {
                0
            } else {
                (diff % 0x1_0000_0000) as u32
            }
        },
    }
}

/// Whole days between an ISO-8601 timestamp and epoch day `today`.
pub fn days_since_on(iso: &str, today: i64) -> (r: u32)
    ensures
        r == days_since_of(iso@, today as int),
{
    let v = chars_of(iso);
    let date = match prefix_bytes(&v, 10) {
        Some(d) => d,
        None => return 0,
    };
    let parts = split_on(&date, '-');
    if parts.len() < 3 {
        return 0;
    }
    let y = match parse_int(&parts[0], i64::MIN, i64::MAX) {
        Some(y) => y,
        None => return 0,
    };
    let m = match parse_int(&parts[1], i64::MIN, i64::MAX) {
        Some(m) => m,
        None => return 0,
    };
    let d = match parse_int(&parts[2], i64::MIN, i64::MAX) {
        Some(d) => d,
        None => return 0,
    };
    let then = civil_days_wide(y, m, d);
    proof {
        assert(-0x1_0000_0000_0000_0000_0000_0000 < then < 0x1_0000_0000_0000_0000_0000_0000) by (nonlinear_arith)
            requires
                then == civil_days(y as int, m as int, d as int),
                -0x8000_0000_0000_0001 < y < 0x8000_0000_0000_0000,
                -0x8000_0000_0000_0001 < m < 0x8000_0000_0000_0000,
                -0x8000_0000_0000_0001 < d < 0x8000_0000_0000_0000,
        ;
    }
    let diff: i128 = today as i128 - then;
    if diff <= 0 {
        0
    } else {
        (diff % 0x1_0000_0000) as u32
    }
}

/// Whole days between an ISO-8601 timestamp and today (UTC).
pub fn days_since(iso: &str) -> (r: u32)
    ensures
        exists|secs: u64| r == days_since_of(iso@, #[trigger] (secs / 86400) as int),
{
    let secs = now_unix();
    let today: i64 = (secs / 86_400) as i64;
    days_since_on(iso, today)
}


/// One relation of a work item as the server lists it.
pub struct RawRelation {
    /// The link type, e.g. `System.LinkTypes.Hierarchy-Forward`.
    pub rel: String,
    /// The linked resource's URL; for work items it ends in the item's id.
    pub url: String,
}

/// A work item as read from the server's JSON, before interpretation: each
/// text field as given (empty when absent).
pub struct RawWorkItem {
    pub id: Option<u64>,
    pub rev: Option<u64>,
    pub title: String,
    pub item_type: String,
    pub state: String,
    /// The assignee's display name (or the plain string the server gave).
    pub assigned_to: String,
    pub iteration: String,
    /// Rich text (HTML).
    pub description: String,
    /// Rich text (HTML) of the field that holds the notes.
    pub notes: String,
    /// Semicolon-separated.
    pub tags: String,
    /// ISO-8601 timestamp of the last change.
    pub changed_date: String,
    /// Story points in tenths of a point, when estimated.
    pub story_points: Option<u32>,
    pub relations: Vec<RawRelation>,
}

/// A comment as read from the server's JSON.
pub struct RawComment {
    pub id: Option<u64>,
    pub author: String,
    pub when: String,
    /// Rich text (HTML).
    pub text: String,
}

/// The link type naming an item's parent.
pub open spec fn parent_rel() -> Seq<char> {
    "System.LinkTypes.Hierarchy-Reverse"@
}

/// The link type naming an item's child.
pub open spec fn child_rel() -> Seq<char> {
    "System.LinkTypes.Hierarchy-Forward"@
}

/// The work item a relation URL points at: its last `/`-separated segment
/// read as a `u32`.
pub open spec fn linked_id(url: Seq<char>) -> Option<nat> {
    parse_nat_upto(split_char(url, '/').last(), u32::MAX as nat)
}

/// The parent named by the relations (the last parent link wins).
pub open spec fn parent_from(rels: Seq<(Seq<char>, Seq<char>)>) -> Option<u32>
    decreases rels.len(),
{
    if rels.len() == 0 {
        None
    } else if rels.last().0 == parent_rel() && linked_id(rels.last().1) is Some {
        Some(linked_id(rels.last().1)->0 as u32)
    } else {
        parent_from(rels.drop_last())
    }
}

/// The children named by the relations, in order.
pub open spec fn children_from(rels: Seq<(Seq<char>, Seq<char>)>) -> Seq<u32>
    decreases rels.len(),
{
    if rels.len() == 0 {
        Seq::empty()
    } else {
        let r = children_from(rels.drop_last());
        if rels.last().0 == child_rel() && linked_id(rels.last().1) is Some {
            r.push(linked_id(rels.last().1)->0 as u32)
        } else {
            r
        }
    }
}

/// The link type and URL of each relation.
pub open spec fn relation_views(rels: Seq<RawRelation>) -> Seq<(Seq<char>, Seq<char>)> {
    rels.map_values(|r: RawRelation| (r.rel@, r.url@))
}

/// The work item a relation URL points at (see [`linked_id`]).
fn link_target(url: &str) -> (r: Option<u32>)
    ensures
        match linked_id(url@) {
            Some(x) => r == Some(x as u32),
            None => r is None,
        },
{
    let v = chars_of(url);
    let pieces = split_on(&v, '/');
    proof {
        crate::text::lemma_split_nonempty(v@, '/');
    }
    parse_u32(&pieces[pieces.len() - 1])
}

/// The parent and children named by the relations (see [`parent_from`] and
/// [`children_from`]).
pub fn hierarchy_of(rels: &Vec<RawRelation>) -> (r: (Option<u32>, Vec<u32>))
    ensures
        r.0 == parent_from(relation_views(rels@)),
        r.1@ == children_from(relation_views(rels@)),
{
    let ghost rv = relation_views(rels@);
    let mut parent: Option<u32> = None;
    let mut children: Vec<u32> = Vec::new();
    let mut i: usize = 0;
    while i < rels.len()
        invariant
            i <= rels@.len(),
            rv == relation_views(rels@),
            parent == parent_from(rv.take(i as int)),
            children@ == children_from(rv.take(i as int)),
        decreases rels.len() - i,
    {
        assert(rv.take(i + 1).drop_last() =~= rv.take(i as int));
        let r = &rels[i];
        let linked = link_target(r.url.as_str());
        if str_eq(r.rel.as_str(), "System.LinkTypes.Hierarchy-Reverse") {
            proof {
                reveal_strlit("System.LinkTypes.Hierarchy-Reverse");
                reveal_strlit("System.LinkTypes.Hierarchy-Forward");
                assert(parent_rel() != child_rel()) by {
                    assert(parent_rel()[27] != child_rel()[27]);
                }
            }
            match linked {
                Some(p) => {
                    parent = Some(p);
                },
                None => {},
            }
        } else if str_eq(r.rel.as_str(), "System.LinkTypes.Hierarchy-Forward") {
            proof {
                reveal_strlit("System.LinkTypes.Hierarchy-Reverse");
                reveal_strlit("System.LinkTypes.Hierarchy-Forward");
                assert(r.rel@ != parent_rel());
            }
            match linked {
                Some(c) => {
                    children.push(c);
                },
                None => {},
            }
        }
        i = i + 1;
    }
    assert(rv.take(rels.len() as int) =~= rv);
    (parent, children)
}

/// The work item a raw server record describes, its last change `days`
/// days ago: id and revision as given (0 and 1 when absent, truncated to
/// 32 bits), the state by its canonical name (New when unknown), rich text
/// as plain text, tags split on `;` (trimmed, empties dropped), and the
/// parent and children from the hierarchy relations.
pub open spec fn item_of(raw: RawWorkItem, days: u32) -> ItemShape {
    ItemShape {
        id: match raw.id {
            Some(x) => x as u32,
            None => 0,
        },
        rev: match raw.rev {
            Some(x) => x as u32,
            None => 1,
        },
        state: match state_from_label(raw.state@) {
            Some(s) => s,
            None => WorkItemState::New,
        },
        description: strip_html_of(raw.description@),
        notes: strip_html_of(raw.notes@),
        tags: sep_list(raw.tags@, ';'),
        parent: parent_from(relation_views(raw.relations@)),
        children: children_from(relation_views(raw.relations@)),
        changed_days_ago: days,
    }
}

/// The interpreted parts of a work item (see [`item_of`]); the other text
/// fields are taken over as they are.
pub struct ItemShape {
    pub id: u32,
    pub rev: u32,
    pub state: WorkItemState,
    pub description: Seq<char>,
    pub notes: Seq<char>,
    pub tags: Seq<Seq<char>>,
    pub parent: Option<u32>,
    pub children: Seq<u32>,
    pub changed_days_ago: u32,
}

/// `w` is the work item `raw` describes with its last change `days` ago.
pub open spec fn read_as(raw: RawWorkItem, days: u32, w: WorkItem) -> bool {
    let s = item_of(raw, days);
    &&& w.id == s.id
    &&& w.rev == s.rev
    &&& w.state == s.state
    &&& w.state_name@ == raw.state@
    &&& w.title@ == raw.title@
    &&& w.item_type@ == raw.item_type@
    &&& w.assigned_to@ == raw.assigned_to@
    &&& w.iteration@ == raw.iteration@
    &&& w.description@ == s.description
    &&& w.notes@ == s.notes
    &&& views(w.tags@) == s.tags
    &&& w.story_points == raw.story_points
    &&& w.parent == s.parent
    &&& w.children@ == s.children
    &&& w.changed_days_ago == s.changed_days_ago
    &&& w.available_states@.len() == 0
    &&& w.dev_links@.len() == 0
    &&& w.comments@.len() == 0
}

/// Read a work item out of a raw server record, its last change being
/// `days_ago` days ago (see [`read_as`]).
pub fn work_item_from_raw(raw: &RawWorkItem, days_ago: u32) -> (w: WorkItem)
    ensures
        read_as(*raw, days_ago, w),
{
    let id: u32 = match raw.id {
        Some(x) => {
            #[verifier::truncate]
            (x as u32)
        },
        None => 0,
    };
    let rev: u32 = match raw.rev {
        Some(x) => {
            #[verifier::truncate]
            (x as u32)
        },
        None => 1,
    };
    let state = match WorkItemState::from_label(raw.state.as_str()) {
        Some(s) => s,
        None => WorkItemState::New,
    };
    let (parent, children) = hierarchy_of(&raw.relations);
    WorkItem {
        id,
        title: raw.title.clone(),
        item_type: raw.item_type.clone(),
        state,
        state_name: raw.state.clone(),
        available_states: Vec::new(),
        assigned_to: raw.assigned_to.clone(),
        iteration: raw.iteration.clone(),
        description: strip_html(raw.description.as_str()),
        notes: strip_html(raw.notes.as_str()),
        tags: split_trimmed(raw.tags.as_str(), ';'),
        story_points: raw.story_points,
        parent,
        children,
        dev_links: Vec::new(),
        comments: Vec::new(),
        changed_days_ago: days_ago,
        rev,
    }
}

/// Read a work item out of a raw server record, counting the days since its
/// last change up to today (UTC).
pub fn parse_work_item(raw: &RawWorkItem) -> (w: WorkItem)
    ensures
        exists|secs: u64| read_as(*raw, days_since_of(raw.changed_date@, #[trigger] (secs / 86400) as int), w),
{
    let days = days_since(raw.changed_date.as_str());
    work_item_from_raw(raw, days)
}

/// Read a comment out of a raw server record: id as given (0 when absent,
/// truncated to 32 bits), text as plain text.
pub fn parse_comment(raw: &RawComment) -> (c: Comment)
    ensures
        c.id == match raw.id {
            Some(x) => x as u32,
            None => 0u32,
        },
        c.author@ == raw.author@,
        c.when@ == raw.when@,
        c.text@ == strip_html_of(raw.text@),
{
    let id: u32 = match raw.id {
        Some(x) => {
            #[verifier::truncate]
            (x as u32)
        },
        None => 0,
    };
    Comment { id, author: raw.author.clone(), when: raw.when.clone(), text: strip_html(raw.text.as_str()) }
}

/// A field the project's process defines: its display name and its
/// reference name.
pub struct FieldInfo {
    pub name: String,
    pub reference: String,
}

/// The display and reference names of the fields.
pub open spec fn field_views(fs: Seq<FieldInfo>) -> Seq<(Seq<char>, Seq<char>)> {
    fs.map_values(|f: FieldInfo| (f.name@, f.reference@))
}

/// The reference name of the field the Notes pane shows: the first field
/// named "Notes" (in any case) — usually a custom field such as
/// `Custom.Notes` — else `System.Notes`.
pub open spec fn notes_ref_of(fs: Seq<(Seq<char>, Seq<char>)>) -> Seq<char>
    decreases fs.len(),
{
    if fs.len() == 0 {
        "System.Notes"@
    } else if eq_ic(fs[0].0, "Notes"@) {
        fs[0].1
    } else {
        notes_ref_of(fs.drop_first())
    }
}

/// The reference name of the Notes field among the project's fields (see
/// [`notes_ref_of`]).
pub fn notes_field_ref(fields: &Vec<FieldInfo>) -> (r: String)
    ensures
        r@ == notes_ref_of(field_views(fields@)),
{
    let ghost fv = field_views(fields@);
    assert(fv.skip(0) =~= fv);
    let mut i: usize = 0;
    while i < fields.len()
        invariant
            i <= fields@.len(),
            fv == field_views(fields@),
            notes_ref_of(fv) == notes_ref_of(fv.skip(i as int)),
        decreases fields.len() - i,
    {
        assert(fv.skip(i as int)[0] == fv[i as int]);
        if eq_ignore_case(fields[i].name.as_str(), "Notes") {
            return fields[i].reference.clone();
        }
        assert(fv.skip(i as int).drop_first() =~= fv.skip(i + 1));
        i = i + 1;
    }
    assert(fv.skip(i as int) =~= Seq::<(Seq<char>, Seq<char>)>::empty());
    owned("System.Notes")
}

/// The server's reference name of one of our field keys; notes map to
/// `notes`, the reference name found for the Notes field.
pub open spec fn field_ref_of(key: Seq<char>, notes: Seq<char>) -> Option<Seq<char>> {
    if key == "title"@ {
        Some("System.Title"@)
    } else if key == "state"@ {
        Some("System.State"@)
    } else if key == "description"@ {
        Some("System.Description"@)
    } else if key == "assignee"@ {
        Some("System.AssignedTo"@)
    } else if key == "iteration"@ {
        Some("System.IterationPath"@)
    } else if key == "tags"@ {
        Some("System.Tags"@)
    } else if key == "notes"@ {
        Some(notes)
    } else {
        None
    }
}

/// The server's reference name of one of our field keys (see
/// [`field_ref_of`]), with `notes` the Notes field's reference name.
pub fn field_ref(key: &str, notes: &str) -> (r: Option<String>)
    ensures
        match field_ref_of(key@, notes@) {
            Some(n) => r matches Some(x) && x@ == n,
            None => r is None,
        },
{
    if str_eq(key, "title") {
        Some(owned("System.Title"))
    } else if str_eq(key, "state") {
        Some(owned("System.State"))
    } else if str_eq(key, "description") {
        Some(owned("System.Description"))
    } else if str_eq(key, "assignee") {
        Some(owned("System.AssignedTo"))
    } else if str_eq(key, "iteration") {
        Some(owned("System.IterationPath"))
    } else if str_eq(key, "tags") {
        Some(owned("System.Tags"))
    } else if str_eq(key, "notes") {
        Some(owned(notes))
    } else {
        None
    }
}

/// The value sent to the server for field `key`: tags are separated by `;`
/// there, so commas become semicolons; other values are sent as they are.
pub fn server_value(key: &str, value: &str) -> (r: String)
    ensures
        key@ == "tags"@ ==> r@ == replace_all(value@, ","@, ";"@),
        key@ != "tags"@ ==> r@ == value@,
{
    if str_eq(key, "tags") {
        replace_str(value, ",", ";")
    } else {
        crate::text::owned(value)
    }
}

/// At most this many ids go into one batch fetch.
pub const BATCH_MAX: usize = 200;

/// The first [`BATCH_MAX`] ids, comma-separated, for a batch fetch.
pub open spec fn ids_csv_of(ids: Seq<u64>) -> Seq<char> {
    crate::text::join(
        ids.take(if ids.len() < 200 { ids.len() as int } else { 200 }).map_values(|i: u64| crate::text::dec(i as nat)),
        ","@,
    )
}

/// The first [`BATCH_MAX`] ids, comma-separated (see [`ids_csv_of`]).
pub fn ids_csv(ids: &Vec<u64>) -> (r: String)
    ensures
        r@ == ids_csv_of(ids@),
{
    let n: usize = if ids.len() < BATCH_MAX { ids.len() } else { BATCH_MAX };
    let ghost parts = ids@.take(n as int).map_values(|i: u64| crate::text::dec(i as nat));
    let mut s = String::new();
    let mut i: usize = 0;
    while i < n
        invariant
            n <= ids@.len(),
            i <= n,
            parts == ids@.take(n as int).map_values(|i: u64| crate::text::dec(i as nat)),
            s@ == crate::text::join(parts.take(i as int), ","@),
        decreases n - i,
    {
        proof {
            assert(parts.take(i + 1).drop_last() =~= parts.take(i as int));
            assert(parts.take(i + 1).last() == crate::text::dec(ids@[i as int] as nat));
        }
        if i > 0 {
            s.append(",");
        }
        crate::text::push_dec(&mut s, ids[i]);
        i = i + 1;
    }
    assert(parts.take(n as int) =~= parts);
    s
}

/// The WIQL query for the items assigned to the signed-in user, most
/// recently changed first, narrowed to the filter's timeframe window when it
/// has one.
pub open spec fn wiql_of(f: WorkItemFilter) -> Seq<char> {
    let base = "SELECT [System.Id] FROM WorkItems WHERE [System.AssignedTo] = @Me"@;
    let order = " ORDER BY [System.ChangedDate] DESC"@;
    match wiql_clause_of(f.timeframe) {
        Some(c) => base + " AND "@ + c + order,
        None => base + order,
    }
}

/// The WIQL query for the assigned items (see [`wiql_of`]).
pub fn wiql_query(f: &WorkItemFilter) -> (r: String)
    ensures
        r@ == wiql_of(*f),
{
    let mut s = crate::text::owned("SELECT [System.Id] FROM WorkItems WHERE [System.AssignedTo] = @Me");
    match f.timeframe.wiql_clause() {
        Some(c) => {
            s.append(" AND ");
            s.append(c.as_str());
        },
        None => {},
    }
    s.append(" ORDER BY [System.ChangedDate] DESC");
    s
}

/// Once the markup is dropped, no `<` or `>` is left.
pub proof fn law_untagged_has_no_brackets(s: Seq<char>, in_tag: bool)
    ensures
        forall|i: int|
            0 <= i < untagged_from(s, in_tag).len() ==> #[trigger] untagged_from(s, in_tag)[i] != '<'
                && untagged_from(s, in_tag)[i] != '>',
    decreases s.len(),
{
    if s.len() > 0 {
        law_untagged_has_no_brackets(s.drop_first(), true);
        law_untagged_has_no_brackets(s.drop_first(), false);
        if s[0] != '<' && s[0] != '>' && !in_tag {
            let r = untagged_from(s.drop_first(), false);
            assert forall|i: int| 0 <= i < untagged_from(s, in_tag).len() implies #[trigger] untagged_from(
                s,
                in_tag,
            )[i] != '<' && untagged_from(s, in_tag)[i] != '>' by {
                if i > 0 {
                    assert(untagged_from(s, in_tag)[i] == r[i - 1]);
                }
            }
        } else {
            let next = if s[0] == '<' {
                true
            } else if s[0] == '>' {
                false
            } else {
                in_tag
            };
            assert(untagged_from(s, in_tag) == untagged_from(s.drop_first(), next));
        }
    }
}


/// The day count read from server timestamps is the calendar's: on every
/// real date it is the date's epoch day.
pub proof fn law_civil_days_is_the_calendar(d: Date)
    requires
        valid_date(d),
    ensures
        civil_days(d.year as int, d.month as int, d.day as int) == date_days(d),
{
}

/// The day count of `y-m-d` as its era's start plus the day within the era.
proof fn lemma_civil_days_parts(y: int, m: int, d: int)
    requires
        1 <= m <= 12,
    ensures
        ({
            let y1 = if m <= 2 { y - 1 } else { y };
            let era = y1 / 400;
            let yoe = y1 - era * 400;
            let mp = if m > 2 { m - 3 } else { m + 9 };
            &&& 0 <= yoe < 400
            &&& civil_days(y, m, d) == era * 146097 + yoe * 365 + yoe / 4 - yoe / 100 + (153 * mp
                + 2) / 5 + d - 1 - 719468
        }),
{
}

/// The era and year-of-era of `y` once those of `y - 1` are known.
proof fn lemma_next_era_year(y: int, era: int, yoe: int)
    requires
        y - 1 == era * 400 + yoe,
        0 <= yoe < 400,
    ensures
        yoe < 399 ==> y / 400 == era && y - (y / 400) * 400 == yoe + 1 && y % 4 == (yoe + 1) % 4
            && y % 100 == (yoe + 1) % 100 && y % 400 == (yoe + 1) % 400,
        yoe == 399 ==> y / 400 == era + 1 && y - (y / 400) * 400 == 0 && y % 400 == 0,
{
    if yoe < 399 {
        assert(y / 400 == era && y % 400 == yoe + 1) by (nonlinear_arith)
            requires
                y == era * 400 + (yoe + 1),
                0 <= yoe + 1 < 400,
        ;
        assert(y % 4 == (yoe + 1) % 4 && y % 100 == (yoe + 1) % 100) by (nonlinear_arith)
            requires
                y == era * 400 + (yoe + 1),
        ;
    } else {
        assert(y / 400 == era + 1 && y % 400 == 0) by (nonlinear_arith)
            requires
                y == (era + 1) * 400,
        ;
    }
}

/// From the last day of February to 1 March is one day.
#[verifier::spinoff_prover]
proof fn lemma_civil_days_march(y: int)
    ensures
        civil_days(y, 3, 1) == civil_days(y, 2, month_len(y, 2)) + 1,
{
    lemma_civil_days_parts(y, 2, month_len(y, 2));
    lemma_civil_days_parts(y, 3, 1);
    let y1 = y - 1;
    let era = y1 / 400;
    let yoe = y1 - era * 400;
    lemma_next_era_year(y, era, yoe);
    if yoe < 399 {
        assert(is_leap(y) == ((yoe + 1) % 4 == 0 && ((yoe + 1) % 100 != 0 || (yoe + 1) % 400
            == 0)));
    }
}

/// Consecutive calendar days have consecutive day counts: within a month,
/// from the last day of a month to the first of the next, and from 31
/// December to 1 January; day 0 is 1 January 1970.
pub proof fn law_civil_days_next_day(y: int, m: int, d: int)
    requires
        1 <= m <= 12,
        1 <= d <= month_len(y, m),
    ensures
        d < month_len(y, m) ==> civil_days(y, m, d + 1) == civil_days(y, m, d) + 1,
        d == month_len(y, m) && m < 12 ==> civil_days(y, m + 1, 1) == civil_days(y, m, d) + 1,
        d == month_len(y, m) && m == 12 ==> civil_days(y + 1, 1, 1) == civil_days(y, m, d) + 1,
        civil_days(1970, 1, 1) == 0,
{
    lemma_civil_days_parts(1970, 1, 1);
    lemma_civil_days_parts(y, m, d);
    if d < month_len(y, m) {
        lemma_civil_days_parts(y, m, d + 1);
    } else if m == 2 {
        lemma_civil_days_march(y);
    } else if m < 12 {
        lemma_civil_days_parts(y, m + 1, 1);
    } else {
        lemma_civil_days_parts(y + 1, 1, 1);
        assert(y + 1 - 1 == y);
    }
}

} // verus!
