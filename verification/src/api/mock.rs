//! In-memory backend with a small canned parent/child graph of work items.
use crate::api::models::{
    copy_strings, filter_admits, state_category, state_from_label, state_label, utc_day_of,
    Comment, Date, DevLink, Iteration, ItemView, WorkItem, WorkItemFilter, WorkItemState,
};
use crate::api::{ApiError, CallView, WorkItemClient};
use crate::text::{
    comma_list, dec, dedup_seq, dedup_strings, lex_leq, owned, push_dec, sort_strings,
    split_comma_list, str_eq, views,
};
use vstd::prelude::*;

verus! {

/// The views of a sequence of items.
pub open spec fn item_views(items: Seq<WorkItem>) -> Seq<ItemView> {
    items.map_values(|w: WorkItem| w@)
}

/// The views of the items of `items` that `f` admits on `today`, in order.
pub open spec fn admitted(items: Seq<WorkItem>, f: WorkItemFilter, today: Date) -> Seq<ItemView>
    decreases items.len(),
{
    if items.len() == 0 {
        Seq::empty()
    } else {
        let r = admitted(items.drop_last(), f, today);
        if filter_admits(f, today, items.last()@) {
            r.push(items.last()@)
        } else {
            r
        }
    }
}

/// The in-memory "server": the work items it holds.
pub struct MockClient {
    items: Vec<WorkItem>,
    /// The writes made so far, each with whether it succeeded.
    log: Ghost<Seq<(CallView, bool)>>,
}

/// Position of the first item with id `id`.
pub open spec fn index_of_id(items: Seq<WorkItem>, id: u32) -> Option<int>
    decreases items.len(),
{
    if items.len() == 0 {
        None
    } else if items[0].id == id {
        Some(0)
    } else {
        match index_of_id(items.drop_first(), id) {
            Some(i) => Some(i + 1),
            None => None,
        }
    }
}

proof fn lemma_index_of_id(items: Seq<WorkItem>, id: u32, i: int)
    requires
        0 <= i <= items.len(),
        forall|j: int| 0 <= j < i ==> (#[trigger] items[j]).id != id,
    ensures
        i < items.len() && items[i].id == id ==> index_of_id(items, id) == Some(i),
        i == items.len() ==> index_of_id(items, id) is None,
    decreases i,
{
    if i > 0 {
        let t = items.drop_first();
        assert forall|j: int| 0 <= j < i - 1 implies (#[trigger] t[j]).id != id by {
            assert(t[j] == items[j + 1]);
        }
        lemma_index_of_id(t, id, i - 1);
    }
}

/// The message for an id the backend does not hold.
pub open spec fn missing_item_msg(id: u32) -> Seq<char> {
    "work item "@ + dec(id as nat) + " not found"@
}

/// The message for a comment id an item does not hold.
pub open spec fn missing_comment_msg(id: u32, comment_id: u32) -> Seq<char> {
    "comment "@ + dec(comment_id as nat) + " not found on #"@ + dec(id as nat)
}

/// The fields the in-memory backend can edit.
pub open spec fn editable_field(field: Seq<char>) -> bool {
    field == "title"@ || field == "description"@ || field == "notes"@ || field == "iteration"@ || field
        == "assignee"@ || field == "tags"@ || field == "state"@
}

/// The editable field names are pairwise different.
pub proof fn lemma_field_names_distinct()
    ensures
        "title"@ != "description"@ && "title"@ != "notes"@ && "title"@ != "iteration"@ && "title"@
            != "assignee"@ && "title"@ != "tags"@ && "title"@ != "state"@,
        "description"@ != "notes"@ && "description"@ != "iteration"@ && "description"@ != "assignee"@
            && "description"@ != "tags"@ && "description"@ != "state"@,
        "notes"@ != "iteration"@ && "notes"@ != "assignee"@ && "notes"@ != "tags"@ && "notes"@ != "state"@,
        "iteration"@ != "assignee"@ && "iteration"@ != "tags"@ && "iteration"@ != "state"@,
        "assignee"@ != "tags"@ && "assignee"@ != "state"@,
        "tags"@ != "state"@,
{
    reveal_strlit("title");
    reveal_strlit("description");
    reveal_strlit("notes");
    reveal_strlit("iteration");
    reveal_strlit("assignee");
    reveal_strlit("tags");
    reveal_strlit("state");
    assert("title"@.len() == 5 && "notes"@.len() == 5 && "state"@.len() == 5);
    assert("description"@.len() == 11 && "iteration"@.len() == 9 && "assignee"@.len() == 8
        && "tags"@.len() == 4);
    assert("title"@[0] == 't' && "notes"@[0] == 'n' && "state"@[0] == 's');
}

/// The message for a field the backend cannot edit.
pub open spec fn not_editable_msg(field: Seq<char>) -> Seq<char> {
    "field '"@ + field + "' is not editable in the skeleton"@
}

/// The revision after a change (wrapping at `u32::MAX`).
pub open spec fn next_rev(rev: u32) -> u32 {
    if rev == u32::MAX {
        0
    } else {
        (rev + 1) as u32
    }
}

/// `n` is `o` after the server recorded a change: same identity, type,
/// relations and history, changed today, revision bumped.
pub open spec fn touched(o: WorkItem, n: WorkItem) -> bool {
    &&& n.id == o.id
    &&& n.item_type == o.item_type
    &&& n.available_states@ == o.available_states@
    &&& n.story_points == o.story_points
    &&& n.parent == o.parent
    &&& n.children@ == o.children@
    &&& n.dev_links@ == o.dev_links@
    &&& n.changed_days_ago == 0
    &&& n.rev == next_rev(o.rev)
}

/// `n` is `o` with `field` set to `value` as the backend stores it: tags
/// split on commas (trimmed, empty ones dropped); a state name also sets
/// the state category (its own label, else the category of the name).
pub open spec fn field_updated(o: WorkItem, n: WorkItem, field: Seq<char>, value: Seq<char>) -> bool {
    &&& touched(o, n)
    &&& n.comments@ == o.comments@
    &&& if field == "title"@ {
        n.title@ == value
    } else {
        n.title == o.title
    }
    &&& if field == "description"@ {
        n.description@ == value
    } else {
        n.description == o.description
    }
    &&& if field == "notes"@ {
        n.notes@ == value
    } else {
        n.notes == o.notes
    }
    &&& if field == "iteration"@ {
        n.iteration@ == value
    } else {
        n.iteration == o.iteration
    }
    &&& if field == "assignee"@ {
        n.assigned_to@ == value
    } else {
        n.assigned_to == o.assigned_to
    }
    &&& if field == "tags"@ {
        views(n.tags@) == comma_list(value)
    } else {
        n.tags@ == o.tags@
    }
    &&& if field == "state"@ {
        &&& n.state_name@ == value
        &&& n.state == match state_from_label(value) {
            Some(s) => s,
            None => state_category(value),
        }
    } else {
        n.state_name == o.state_name && n.state == o.state
    }
}

/// The largest comment id of `cs` (0 when there is none).
pub open spec fn max_comment_id(cs: Seq<Comment>) -> u32
    decreases cs.len(),
{
    if cs.len() == 0 {
        0
    } else {
        let m = max_comment_id(cs.drop_last());
        if cs.last().id > m {
            cs.last().id
        } else {
            m
        }
    }
}

/// Position of the first comment of `cs` with id `comment_id`.
pub open spec fn first_comment(cs: Seq<Comment>, comment_id: u32) -> Option<int>
    decreases cs.len(),
{
    if cs.len() == 0 {
        None
    } else if cs[0].id == comment_id {
        Some(0)
    } else {
        match first_comment(cs.drop_first(), comment_id) {
            Some(i) => Some(i + 1),
            None => None,
        }
    }
}

proof fn lemma_first_comment(cs: Seq<Comment>, comment_id: u32, k: int)
    requires
        0 <= k <= cs.len(),
        forall|j: int| 0 <= j < k ==> (#[trigger] cs[j]).id != comment_id,
        k < cs.len() ==> cs[k].id == comment_id,
    ensures
        first_comment(cs, comment_id) == if k < cs.len() {
            Some(k)
        } else {
            None::<int>
        },
    decreases k,
{
    if k > 0 {
        let t = cs.drop_first();
        assert forall|j: int| 0 <= j < k - 1 implies (#[trigger] t[j]).id != comment_id by {
            assert(t[j] == cs[j + 1]);
        }
        lemma_first_comment(t, comment_id, k - 1);
    }
}

/// The comments of `cs` without those with id `comment_id`.
pub open spec fn without_comment(cs: Seq<Comment>, comment_id: u32) -> Seq<Comment> {
    cs.filter(|c: Comment| c.id != comment_id)
}

/// The canned work items: id, title, type, state, parent, children, and
/// how many days ago each changed.
pub open spec fn mock_table() -> Seq<(u32, Seq<char>, Seq<char>, WorkItemState, Option<u32>, Seq<u32>, u32)> {
    seq![
        (1001, "Epic: Terminal-first Azure DevOps workflow"@, "Epic"@, WorkItemState::Active, None, seq![1002u32, 1003], 2),
        (1002, "Browse my assigned user stories from the terminal"@, "User Story"@, WorkItemState::Active, Some(1001u32), seq![1004u32, 1005], 0),
        (1003, "Edit work items in $EDITOR and sync back"@, "User Story"@, WorkItemState::New, Some(1001u32), Seq::<u32>::empty(), 6),
        (1004, "Wire WIQL query for assigned items"@, "Task"@, WorkItemState::Active, Some(1002u32), Seq::<u32>::empty(), 1),
        (1005, "Render detail pane with comments"@, "Task"@, WorkItemState::Closed, Some(1002u32), Seq::<u32>::empty(), 12),
    ]
}

/// What `update_field(id, field, value)` does to the stored items `o`
/// (giving `n`), with its result (the error's message on failure): the
/// field of the first item with that id is set, or nothing changes and the
/// call fails for an unknown id or a field the backend cannot edit.
pub open spec fn update_outcome(
    o: Seq<WorkItem>,
    n: Seq<WorkItem>,
    id: u32,
    field: Seq<char>,
    value: Seq<char>,
    r: Result<(), Seq<char>>,
) -> bool {
    match index_of_id(o, id) {
        Some(i) => if editable_field(field) {
            &&& r is Ok
            &&& n.len() == o.len()
            &&& forall|j: int| 0 <= j < o.len() && j != i ==> #[trigger] n[j] == o[j]
            &&& field_updated(o[i], n[i], field, value)
        } else {
            r == Err::<(), Seq<char>>(not_editable_msg(field)) && n == o
        },
        None => r == Err::<(), Seq<char>>(missing_item_msg(id)) && n == o,
    }
}

/// After `update_field` succeeds, a read of the item gives the value
/// written (tags as stored: split on commas, trimmed, joined with `", "`)
/// at the next revision; when it fails, every item is as it was.
pub proof fn law_update_then_get(
    o: Seq<WorkItem>,
    n: Seq<WorkItem>,
    id: u32,
    field: Seq<char>,
    value: Seq<char>,
    r: Result<(), Seq<char>>,
)
    requires
        update_outcome(o, n, id, field, value, r),
    ensures
        r is Ok <==> (index_of_id(o, id) is Some && editable_field(field)),
        r is Err ==> n == o,
        r is Ok ==> ({
            let i = index_of_id(o, id)->0;
            &&& index_of_id(n, id) == Some(i)
            &&& field == "tags"@ ==> crate::app::field_value_of(n[i], field) == crate::text::join(
                crate::text::comma_list(value),
                ", "@,
            )
            &&& field != "tags"@ ==> crate::app::field_value_of(n[i], field) == value
            &&& n[i].rev == next_rev(o[i].rev)
        }),
{
    match index_of_id(o, id) {
        Some(i) => {
            if editable_field(field) {
                lemma_index_of_id_bounds(o, id);
                crate::app::law_update_then_read(o[i], n[i], field, value);
                lemma_index_same_ids(o, n, id, i);
            }
        },
        None => {},
    }
}

/// Where `id` is first found.
proof fn lemma_index_of_id_bounds(items: Seq<WorkItem>, id: u32)
    ensures
        index_of_id(items, id) matches Some(i) ==> 0 <= i < items.len() && items[i].id == id && forall|j: int|
            0 <= j < i ==> (#[trigger] items[j]).id != id,
    decreases items.len(),
{
    if items.len() > 0 && items[0].id != id {
        let t = items.drop_first();
        lemma_index_of_id_bounds(t, id);
        if let Some(k) = index_of_id(t, id) {
            assert forall|j: int| 0 <= j < k + 1 implies (#[trigger] items[j]).id != id by {
                if j > 0 {
                    assert(items[j] == t[j - 1]);
                }
            }
        }
    }
}

/// Changing items other than the ids leaves where `id` is found.
proof fn lemma_index_same_ids(o: Seq<WorkItem>, n: Seq<WorkItem>, id: u32, i: int)
    requires
        index_of_id(o, id) == Some(i),
        n.len() == o.len(),
        forall|j: int| 0 <= j < o.len() && j != i ==> #[trigger] n[j] == o[j],
        0 <= i < o.len() ==> n[i].id == o[i].id,
    ensures
        index_of_id(n, id) == Some(i),
{
    lemma_index_of_id_bounds(o, id);
    assert forall|j: int| 0 <= j < i implies (#[trigger] n[j]).id != id by {
        assert(n[j] == o[j]);
    }
    lemma_index_of_id(n, id, i);
}

/// The canned items are numbered 1001 to 1005 in order, and their links
/// agree: each child names its parent back, and each parent lists the child.
pub proof fn law_canned_links_agree()
    ensures
        forall|i: int| 0 <= i < mock_table().len() ==> (#[trigger] mock_table()[i]).0 == 1001 + i,
        forall|i: int, k: int|
            0 <= i < mock_table().len() && 0 <= k < mock_table()[i].5.len() ==> {
                let c = #[trigger] mock_table()[i].5[k];
                let j = c - 1001;
                &&& 0 <= j < mock_table().len()
                &&& mock_table()[j].4 == Some(mock_table()[i].0)
            },
        forall|i: int|
            0 <= i < mock_table().len() && (#[trigger] mock_table()[i]).4 is Some ==> {
                let p = mock_table()[i].4->0;
                let j = p - 1001;
                &&& 0 <= j < mock_table().len()
                &&& mock_table()[j].5.contains(mock_table()[i].0)
            },
{
    let t = mock_table();
    assert(t[0].5[0] == 1002 && t[0].5[1] == 1003);
    assert(t[1].5[0] == 1004 && t[1].5[1] == 1005);
    assert(t[0].5.len() == 2 && t[1].5.len() == 2 && t[2].5.len() == 0 && t[3].5.len() == 0 && t[4].5.len() == 0);
    assert(t[0].5[0] == 1002);
    assert(t[0].5.contains(1002) && t[0].5.contains(1003));
    assert(t[1].5.contains(1004) && t[1].5.contains(1005));
}

/// The canned items' texts, in the order of [`mock_table`]: description,
/// notes, tags, and how many comments and development links each has.
pub open spec fn mock_text() -> Seq<(Seq<char>, Seq<char>, Seq<Seq<char>>, nat, nat)> {
    seq![
        ("Umbrella for the lazyaz TUI initiative."@, "Stakeholders: DX guild."@, seq!["tui"@, "dx"@], 1, 0),
        ("As a developer I want to list and open my stories."@, "Acceptance: filter by timeframe."@, seq!["read"@], 0, 1),
        ("As a developer I want to edit fields in my editor."@, "Watch out for the suspend/restore dance."@, seq!["write"@, "stretch"@], 1, 1),
        ("Build the @Me WIQL and map the response."@, ""@, Seq::<Seq<char>>::empty(), 0, 0),
        ("Lay out fields + comments + relations."@, "Done in sprint 23."@, seq!["done"@], 0, 0),
    ]
}

/// A canned item: assigned to "you@example.com" in "Sprint 24", revision 1,
/// with the four default workflow states.
fn mk(
    id: u32,
    title: &str,
    item_type: &str,
    state: WorkItemState,
    parent: Option<u32>,
    children: Vec<u32>,
    days: u32,
    desc: &str,
    notes: &str,
    tags: Vec<String>,
    dev_links: Vec<DevLink>,
    comments: Vec<Comment>,
) -> (r: WorkItem)
    ensures
        r.id == id,
        r.title@ == title@,
        r.item_type@ == item_type@,
        r.state == state,
        r.state_name@ == state_label(state),
        r.parent == parent,
        r.children@ == children@,
        r.changed_days_ago == days,
        r.rev == 1,
        r.assigned_to@ == "you@example.com"@,
        r.iteration@ == "Sprint 24"@,
        r.description@ == desc@,
        r.notes@ == notes@,
        r.tags@ == tags@,
        r.story_points is None,
        r.comments@ == comments@,
        r.dev_links@ == dev_links@,
        views(r.available_states@) == default_states(),
{
    let mut states: Vec<String> = Vec::new();
    states.push(owned("New"));
    states.push(owned("Active"));
    states.push(owned("Resolved"));
    states.push(owned("Closed"));
    assert(views(states@) =~= default_states());
    WorkItem {
        id,
        title: owned(title),
        item_type: owned(item_type),
        state,
        state_name: owned(state.label()),
        available_states: states,
        assigned_to: owned("you@example.com"),
        iteration: owned("Sprint 24"),
        description: owned(desc),
        notes: owned(notes),
        tags,
        story_points: None,
        parent,
        children,
        dev_links,
        comments,
        changed_days_ago: days,
        rev: 1,
    }
}

fn strings(a: &str, b: &str, n: usize) -> (r: Vec<String>)
    requires
        n <= 2,
    ensures
        r@.len() == n,
        n >= 1 ==> r@[0]@ == a@,
        n >= 2 ==> r@[1]@ == b@,
{
    let mut v: Vec<String> = Vec::new();
    if n >= 1 {
        v.push(owned(a));
    }
    if n >= 2 {
        v.push(owned(b));
    }
    v
}

fn ids(a: u32, b: u32, n: usize) -> (r: Vec<u32>)
    requires
        n <= 2,
    ensures
        r@ == if n == 0 {
            Seq::<u32>::empty()
        } else if n == 1 {
            seq![a]
        } else {
            seq![a, b]
        },
{
    let mut v: Vec<u32> = Vec::new();
    if n >= 1 {
        v.push(a);
    }
    if n >= 2 {
        v.push(b);
    }
    v
}

fn github(name: &str, url: &str) -> (r: DevLink)
    ensures
        r.kind@ == "GitHub"@,
        r.name@ == name@,
        r.url@ == url@,
{
    DevLink { kind: owned("GitHub"), name: owned(name), url: owned(url) }
}

fn comment(author: &str, when: &str, text: &str) -> (r: Comment)
    ensures
        r.id == 1,
        r.author@ == author@,
        r.when@ == when@,
        r.text@ == text@,
{
    Comment { id: 1, author: owned(author), when: owned(when), text: owned(text) }
}

impl MockClient {
    /// The items the backend holds, in order.
    pub closed spec fn items(&self) -> Seq<WorkItem> {
        self.items@
    }

    /// The backend with its five canned items (see [`mock_table`]).
    pub fn new() -> (r: Self)
        ensures
            r.items().len() == mock_table().len(),
            forall|i: int|
                0 <= i < mock_table().len() ==> {
                    let w = #[trigger] r.items()[i];
                    let t = mock_table()[i];
                    &&& w.id == t.0
                    &&& w.title@ == t.1
                    &&& w.item_type@ == t.2
                    &&& w.state == t.3
                    &&& w.state_name@ == state_label(t.3)
                    &&& w.parent == t.4
                    &&& w.children@ == t.5
                    &&& w.changed_days_ago == t.6
                    &&& w.rev == 1
                    &&& w.assigned_to@ == "you@example.com"@
                    &&& w.iteration@ == "Sprint 24"@
                    &&& w.story_points is None
                    &&& w.description@ == mock_text()[i].0
                    &&& w.notes@ == mock_text()[i].1
                    &&& views(w.tags@) == mock_text()[i].2
                    &&& w.comments@.len() == mock_text()[i].3
                    &&& w.dev_links@.len() == mock_text()[i].4
                    &&& views(w.available_states@) == default_states()
                },
    {
        let mut items: Vec<WorkItem> = Vec::new();
        let mut c1: Vec<Comment> = Vec::new();
        c1.push(comment("pm@example.com", "2d ago", "Let's prioritize read flows first."));
        items.push(
            mk(
                1001,
                "Epic: Terminal-first Azure DevOps workflow",
                "Epic",
                WorkItemState::Active,
                None,
                ids(1002, 1003, 2),
                2,
                "Umbrella for the lazyaz TUI initiative.",
                "Stakeholders: DX guild.",
                strings("tui", "dx", 2),
                Vec::new(),
                c1,
            ),
        );
        let mut l2: Vec<DevLink> = Vec::new();
        l2.push(github("PR #42: list view", "https://github.com/romanceOSX/lazyaz/pull/42"));
        items.push(
            mk(
                1002,
                "Browse my assigned user stories from the terminal",
                "User Story",
                WorkItemState::Active,
                Some(1001),
                ids(1004, 1005, 2),
                0,
                "As a developer I want to list and open my stories.",
                "Acceptance: filter by timeframe.",
                strings("read", "", 1),
                l2,
                Vec::new(),
            ),
        );
        let mut l3: Vec<DevLink> = Vec::new();
        l3.push(github("commit a1b2c3d", "https://github.com/romanceOSX/lazyaz/commit/a1b2c3d"));
        let mut c3: Vec<Comment> = Vec::new();
        c3.push(comment("you@example.com", "6d ago", "Needs terminal suspend."));
        items.push(
            mk(
                1003,
                "Edit work items in $EDITOR and sync back",
                "User Story",
                WorkItemState::New,
                Some(1001),
                ids(0, 0, 0),
                6,
                "As a developer I want to edit fields in my editor.",
                "Watch out for the suspend/restore dance.",
                strings("write", "stretch", 2),
                l3,
                c3,
            ),
        );
        items.push(
            mk(
                1004,
                "Wire WIQL query for assigned items",
                "Task",
                WorkItemState::Active,
                Some(1002),
                ids(0, 0, 0),
                1,
                "Build the @Me WIQL and map the response.",
                "",
                strings("", "", 0),
                Vec::new(),
                Vec::new(),
            ),
        );
        items.push(
            mk(
                1005,
                "Render detail pane with comments",
                "Task",
                WorkItemState::Closed,
                Some(1002),
                ids(0, 0, 0),
                12,
                "Lay out fields + comments + relations.",
                "Done in sprint 23.",
                strings("done", "", 1),
                Vec::new(),
                Vec::new(),
            ),
        );
        MockClient { items, log: Ghost(Seq::empty()) }
    }

    /// Position of the first item with id `id`.
    fn find(&self, id: u32) -> (r: Option<usize>)
        ensures
            index_of_id(self.items(), id) == (match r {
                Some(i) => Some(i as int),
                None => None::<int>,
            }),
            r matches Some(i) ==> i < self.items().len(),
    {
        let mut i: usize = 0;
        while i < self.items.len()
            invariant
                i <= self.items@.len(),
                forall|j: int| 0 <= j < i ==> (#[trigger] self.items@[j]).id != id,
            decreases self.items.len() - i,
        {
            if self.items[i].id == id {
                proof {
                    lemma_index_of_id(self.items@, id, i as int);
                }
                return Some(i);
            }
            i = i + 1;
        }
        proof {
            lemma_index_of_id(self.items@, id, i as int);
        }
        None
    }

    fn missing(id: u32) -> (r: ApiError)
        ensures
            r.message@ == missing_item_msg(id),
    {
        let mut m = owned("work item ");
        push_dec(&mut m, id as u64);
        m.append(" not found");
        ApiError { message: m }
    }

    /// The items that pass `filter` on the day `today`, in order.
    pub fn list_assigned_on(&self, filter: &WorkItemFilter, today: Date) -> (r: Vec<WorkItem>)
        ensures
            item_views(r@) == admitted(self.items(), *filter, today),
    {
        let mut out: Vec<WorkItem> = Vec::new();
        let mut i: usize = 0;
        while i < self.items.len()
            invariant
                i <= self.items@.len(),
                item_views(out@) == admitted(self.items@.take(i as int), *filter, today),
            decreases self.items.len() - i,
        {
            let ghost before = out@;
            assert(self.items@.take(i + 1).drop_last() =~= self.items@.take(i as int));
            if filter.matches_on(today, &self.items[i]) {
                out.push(self.items[i].copy());
                assert(item_views(out@) =~= item_views(before).push(self.items@[i as int]@));
            }
            i = i + 1;
        }
        assert(self.items@.take(self.items.len() as int) =~= self.items@);
        out
    }
}

/// The canned sprints: 23, 24 (current) and 25.
pub open spec fn mock_iterations() -> Seq<(Seq<char>, bool)> {
    seq![("Sprint 23"@, false), ("Sprint 24"@, true), ("Sprint 25"@, false)]
}

/// The canned project names.
pub open spec fn mock_projects() -> Seq<Seq<char>> {
    seq!["Widgets"@, "Platform"@, "Mobile App"@, "Data Pipeline"@, "Infrastructure"@]
}

/// The default workflow states.
pub open spec fn default_states() -> Seq<Seq<char>> {
    seq!["New"@, "Active"@, "Resolved"@, "Closed"@]
}

/// Every tag of `items`, item by item, in order.
pub open spec fn all_tags(items: Seq<WorkItem>) -> Seq<Seq<char>>
    decreases items.len(),
{
    if items.len() == 0 {
        Seq::empty()
    } else {
        all_tags(items.drop_last()) + views(items.last().tags@)
    }
}

fn iteration(name: &str, current: bool) -> (r: Iteration)
    ensures
        r.path@ == name@,
        r.name@ == name@,
        r.is_current == current,
{
    Iteration { path: owned(name), name: owned(name), is_current: current }
}

fn bump(rev: u32) -> (r: u32)
    ensures
        r == next_rev(rev),
{
    if rev == u32::MAX {
        0
    } else {
        rev + 1
    }
}

impl MockClient {
    /// Replace item `i`.
    fn put(&mut self, i: usize, w: WorkItem)
        requires
            i < old(self).items().len(),
        ensures
            final(self).items() == old(self).items().update(i as int, w),
            final(self).log == old(self).log,
    {
        self.items[i] = w;
    }
}

impl MockClient {
    /// Append a comment (numbered one past the item's largest comment id)
    /// to the first item with id `id`.
    fn apply_add_comment(&mut self, id: u32, author: &str, text: &str) -> (r: Result<(), ApiError>)
        ensures
            match index_of_id(old(self).items(), id) {
                Some(i) => {
                    let o = old(self).items()[i];
                    let n = final(self).items()[i];
                    &&& r is Ok
                    &&& final(self).items().len() == old(self).items().len()
                    &&& forall|j: int| 0 <= j < old(self).items().len() && j != i ==> #[trigger] final(self).items()[j]
                        == old(self).items()[j]
                    &&& touched(o, n)
                    &&& n.title == o.title && n.state == o.state && n.state_name == o.state_name
                    &&& n.assigned_to == o.assigned_to && n.iteration == o.iteration
                    &&& n.description == o.description && n.notes == o.notes && n.tags@ == o.tags@
                    &&& n.comments@.len() == o.comments@.len() + 1
                    &&& n.comments@.take(o.comments@.len() as int) == o.comments@
                    &&& n.comments@.last().id == next_rev(max_comment_id(o.comments@))
                    &&& n.comments@.last().author@ == author@
                    &&& n.comments@.last().when@ == "just now"@
                    &&& n.comments@.last().text@ == text@
                },
                None => r matches Err(e) && e.message@ == missing_item_msg(id) && final(self).items()
                    == old(self).items(),
            },
            final(self).writes() == old(self).writes(),
    {
        let i = match self.find(id) {
            Some(i) => i,
            None => {
                return Err(Self::missing(id));
            },
        };
        let mut w = self.items[i].copy();
        let mut m: u32 = 0;
        let mut k: usize = 0;
        while k < w.comments.len()
            invariant
                k <= w.comments@.len(),
                m == max_comment_id(w.comments@.take(k as int)),
            decreases w.comments.len() - k,
        {
            assert(w.comments@.take(k + 1).drop_last() =~= w.comments@.take(k as int));
            if w.comments[k].id > m {
                m = w.comments[k].id;
            }
            k = k + 1;
        }
        assert(w.comments@.take(w.comments.len() as int) =~= w.comments@);
        let ghost oc = w.comments@;
        w.comments.push(Comment { id: bump(m), author: owned(author), when: owned("just now"), text: owned(text) });
        assert(w.comments@.take(oc.len() as int) =~= oc);
        w.changed_days_ago = 0;
        w.rev = bump(w.rev);
        self.put(i, w);
        Ok(())
    }

    /// Replace the text of comment `comment_id` (its first occurrence) on the
    /// first item with id `id`.
    fn apply_update_comment(&mut self, id: u32, comment_id: u32, text: &str) -> (r: Result<(), ApiError>)
        ensures
            match index_of_id(old(self).items(), id) {
                Some(i) => {
                    let o = old(self).items()[i];
                    match first_comment(o.comments@, comment_id) {
                        Some(k) => {
                            let n = final(self).items()[i];
                            &&& r is Ok
                            &&& final(self).items().len() == old(self).items().len()
                            &&& forall|j: int| 0 <= j < old(self).items().len() && j != i ==> #[trigger] final(self).items()[j]
                                == old(self).items()[j]
                            &&& touched(o, n)
                            &&& n.title == o.title && n.state == o.state && n.state_name == o.state_name
                            &&& n.assigned_to == o.assigned_to && n.iteration == o.iteration
                            &&& n.description == o.description && n.notes == o.notes && n.tags@ == o.tags@
                            &&& n.comments@.len() == o.comments@.len()
                            &&& forall|j: int| 0 <= j < o.comments@.len() && j != k ==> #[trigger] n.comments@[j] == o.comments@[j]
                            &&& n.comments@[k].id == comment_id
                            &&& n.comments@[k].author == o.comments@[k].author
                            &&& n.comments@[k].text@ == text@
                            &&& n.comments@[k].when@ == "just now (edited)"@
                        },
                        None => r matches Err(e) && e.message@ == missing_comment_msg(id, comment_id)
                            && final(self).items() == old(self).items(),
                    }
                },
                None => r matches Err(e) && e.message@ == missing_item_msg(id) && final(self).items()
                    == old(self).items(),
            },
            final(self).writes() == old(self).writes(),
    {
        let i = match self.find(id) {
            Some(i) => i,
            None => {
                return Err(Self::missing(id));
            },
        };
        let mut w = self.items[i].copy();
        let mut k: usize = 0;
        while k < w.comments.len() && w.comments[k].id != comment_id
            invariant
                k <= w.comments@.len(),
                forall|j: int| 0 <= j < k ==> (#[trigger] w.comments@[j]).id != comment_id,
            decreases w.comments.len() - k,
        {
            k = k + 1;
        }
        proof {
            lemma_first_comment(w.comments@, comment_id, k as int);
        }
        if k == w.comments.len() {
            let mut m = owned("comment ");
            push_dec(&mut m, comment_id as u64);
            m.append(" not found on #");
            push_dec(&mut m, id as u64);
            return Err(ApiError { message: m });
        }
        let old_c = w.comments[k].copy();
        let c = Comment { id: old_c.id, author: old_c.author, when: owned("just now (edited)"), text: owned(text) };
        w.comments[k] = c;
        w.changed_days_ago = 0;
        w.rev = bump(w.rev);
        self.put(i, w);
        Ok(())
    }

    /// Remove every comment with id `comment_id` from the first item with id
    /// `id`; an error when there is none.
    fn apply_delete_comment(&mut self, id: u32, comment_id: u32) -> (r: Result<(), ApiError>)
        ensures
            match index_of_id(old(self).items(), id) {
                Some(i) => {
                    let o = old(self).items()[i];
                    if without_comment(o.comments@, comment_id).len() == o.comments@.len() {
                        r matches Err(e) && e.message@ == missing_comment_msg(id, comment_id) && final(self).items()
                            == old(self).items()
                    } else {
                        let n = final(self).items()[i];
                        &&& r is Ok
                        &&& final(self).items().len() == old(self).items().len()
                        &&& forall|j: int| 0 <= j < old(self).items().len() && j != i ==> #[trigger] final(self).items()[j]
                            == old(self).items()[j]
                        &&& touched(o, n)
                        &&& n.title == o.title && n.state == o.state && n.state_name == o.state_name
                        &&& n.assigned_to == o.assigned_to && n.iteration == o.iteration
                        &&& n.description == o.description && n.notes == o.notes && n.tags@ == o.tags@
                        &&& n.comments@ == without_comment(o.comments@, comment_id)
                    }
                },
                None => r matches Err(e) && e.message@ == missing_item_msg(id) && final(self).items()
                    == old(self).items(),
            },
            final(self).writes() == old(self).writes(),
    {
        let i = match self.find(id) {
            Some(i) => i,
            None => {
                return Err(Self::missing(id));
            },
        };
        let mut w = self.items[i].copy();
        let mut kept: Vec<Comment> = Vec::new();
        let mut k: usize = 0;
        while k < w.comments.len()
            invariant
                k <= w.comments@.len(),
                kept@ == without_comment(w.comments@.take(k as int), comment_id),
            decreases w.comments.len() - k,
        {
            proof {
                reveal(Seq::filter);
                assert(w.comments@.take(k + 1).drop_last() =~= w.comments@.take(k as int));
            }
            if w.comments[k].id != comment_id {
                kept.push(w.comments[k].copy());
            }
            k = k + 1;
        }
        assert(w.comments@.take(w.comments.len() as int) =~= w.comments@);
        if kept.len() == w.comments.len() {
            let mut m = owned("comment ");
            push_dec(&mut m, comment_id as u64);
            m.append(" not found on #");
            push_dec(&mut m, id as u64);
            return Err(ApiError { message: m });
        }
        w.comments = kept;
        w.changed_days_ago = 0;
        w.rev = bump(w.rev);
        self.put(i, w);
        Ok(())
    }

    /// Set `field` of the first item with id `id` to `value` (see
    /// [`field_updated`]); an error for an unknown id or a field the backend
    /// cannot edit.
    fn apply_update_field(&mut self, id: u32, field: &str, value: &str) -> (r: Result<(), ApiError>)
        ensures
            match index_of_id(old(self).items(), id) {
                Some(i) => if editable_field(field@) {
                    &&& r is Ok
                    &&& final(self).items().len() == old(self).items().len()
                    &&& forall|j: int| 0 <= j < old(self).items().len() && j != i ==> #[trigger] final(self).items()[j]
                        == old(self).items()[j]
                    &&& field_updated(old(self).items()[i], final(self).items()[i], field@, value@)
                } else {
                    r matches Err(e) && e.message@ == not_editable_msg(field@) && final(self).items()
                        == old(self).items()
                },
                None => r matches Err(e) && e.message@ == missing_item_msg(id) && final(self).items()
                    == old(self).items(),
            },
            final(self).writes() == old(self).writes(),
    {
        let i = match self.find(id) {
            Some(i) => i,
            None => {
                return Err(Self::missing(id));
            },
        };
        let mut w = self.items[i].copy();
        proof {
            lemma_field_names_distinct();
        }
        if str_eq(field, "title") {
            w.title = owned(value);
        } else if str_eq(field, "description") {
            w.description = owned(value);
        } else if str_eq(field, "notes") {
            w.notes = owned(value);
        } else if str_eq(field, "iteration") {
            w.iteration = owned(value);
        } else if str_eq(field, "assignee") {
            w.assigned_to = owned(value);
        } else if str_eq(field, "tags") {
            w.tags = split_comma_list(value);
        } else if str_eq(field, "state") {
            w.state = match WorkItemState::from_label(value) {
                Some(s) => s,
                None => WorkItemState::category(value),
            };
            w.state_name = owned(value);
        } else {
            let mut m = owned("field '");
            m.append(field);
            m.append("' is not editable in the skeleton");
            return Err(ApiError { message: m });
        }
        w.changed_days_ago = 0;
        w.rev = bump(w.rev);
        self.put(i, w);
        Ok(())
    }
}

impl WorkItemClient for MockClient {
    /// The first item with id `id`, or the missing-item message.
    open spec fn fetched(&self, id: u32) -> Result<WorkItem, Seq<char>> {
        match index_of_id(self.items(), id) {
            Some(i) => Ok(self.items()[i]),
            None => Err(missing_item_msg(id)),
        }
    }

    closed spec fn writes(&self) -> Seq<(CallView, bool)> {
        self.log@
    }

    /// The items passing `filter` (against today's date), in order.
    fn list_assigned(&self, filter: &WorkItemFilter) -> (r: Result<Vec<WorkItem>, ApiError>)
        ensures
            r matches Ok(v) && exists|secs: u64|
                item_views(v@) == admitted(self.items(), *filter, #[trigger] utc_day_of(secs)),
    {
        let today = Date::today();
        Ok(self.list_assigned_on(filter, today))
    }

    /// The canned sprints (see [`mock_iterations`]).
    fn list_iterations(&self) -> (r: Vec<Iteration>)
        ensures
            r@.len() == mock_iterations().len(),
            forall|i: int|
                0 <= i < r@.len() ==> (#[trigger] r@[i]).name@ == mock_iterations()[i].0 && r@[i].path@
                    == mock_iterations()[i].0 && r@[i].is_current == mock_iterations()[i].1,
    {
        let mut v: Vec<Iteration> = Vec::new();
        v.push(iteration("Sprint 23", false));
        v.push(iteration("Sprint 24", true));
        v.push(iteration("Sprint 25", false));
        v
    }

    /// The first item with id `id`.
    fn get(&self, id: u32) -> (r: Result<WorkItem, ApiError>)
        ensures
            match index_of_id(self.items(), id) {
                Some(i) => r matches Ok(w) && w@ == self.items()[i]@,
                None => r matches Err(e) && e.message@ == missing_item_msg(id),
            },
    {
        match self.find(id) {
            Some(i) => Ok(self.items[i].copy()),
            None => Err(Self::missing(id)),
        }
    }

    /// Append a comment (numbered one past the item's largest comment id)
    /// to the first item with id `id`.
    fn add_comment(&mut self, id: u32, author: &str, text: &str) -> (r: Result<(), ApiError>)
        ensures
            match index_of_id(old(self).items(), id) {
                Some(i) => {
                    let o = old(self).items()[i];
                    let n = final(self).items()[i];
                    &&& r is Ok
                    &&& final(self).items().len() == old(self).items().len()
                    &&& forall|j: int| 0 <= j < old(self).items().len() && j != i ==> #[trigger] final(self).items()[j]
                        == old(self).items()[j]
                    &&& touched(o, n)
                    &&& n.title == o.title && n.state == o.state && n.state_name == o.state_name
                    &&& n.assigned_to == o.assigned_to && n.iteration == o.iteration
                    &&& n.description == o.description && n.notes == o.notes && n.tags@ == o.tags@
                    &&& n.comments@.len() == o.comments@.len() + 1
                    &&& n.comments@.take(o.comments@.len() as int) == o.comments@
                    &&& n.comments@.last().id == next_rev(max_comment_id(o.comments@))
                    &&& n.comments@.last().author@ == author@
                    &&& n.comments@.last().when@ == "just now"@
                    &&& n.comments@.last().text@ == text@
                },
                None => r matches Err(e) && e.message@ == missing_item_msg(id) && final(self).items()
                    == old(self).items(),
            },
    {
        let r = self.apply_add_comment(id, author, text);
        self.log = Ghost(self.log@.push((CallView::AddComment(id, author@, text@), r is Ok)));
        r
    }

    /// Replace the text of comment `comment_id` (its first occurrence) on the
    /// first item with id `id`.
    fn update_comment(&mut self, id: u32, comment_id: u32, text: &str) -> (r: Result<(), ApiError>)
        ensures
            match index_of_id(old(self).items(), id) {
                Some(i) => {
                    let o = old(self).items()[i];
                    match first_comment(o.comments@, comment_id) {
                        Some(k) => {
                            let n = final(self).items()[i];
                            &&& r is Ok
                            &&& final(self).items().len() == old(self).items().len()
                            &&& forall|j: int| 0 <= j < old(self).items().len() && j != i ==> #[trigger] final(self).items()[j]
                                == old(self).items()[j]
                            &&& touched(o, n)
                            &&& n.title == o.title && n.state == o.state && n.state_name == o.state_name
                            &&& n.assigned_to == o.assigned_to && n.iteration == o.iteration
                            &&& n.description == o.description && n.notes == o.notes && n.tags@ == o.tags@
                            &&& n.comments@.len() == o.comments@.len()
                            &&& forall|j: int| 0 <= j < o.comments@.len() && j != k ==> #[trigger] n.comments@[j] == o.comments@[j]
                            &&& n.comments@[k].id == comment_id
                            &&& n.comments@[k].author == o.comments@[k].author
                            &&& n.comments@[k].text@ == text@
                            &&& n.comments@[k].when@ == "just now (edited)"@
                        },
                        None => r matches Err(e) && e.message@ == missing_comment_msg(id, comment_id)
                            && final(self).items() == old(self).items(),
                    }
                },
                None => r matches Err(e) && e.message@ == missing_item_msg(id) && final(self).items()
                    == old(self).items(),
            },
    {
        let r = self.apply_update_comment(id, comment_id, text);
        self.log = Ghost(self.log@.push((CallView::UpdateComment(id, comment_id, text@), r is Ok)));
        r
    }

    /// Remove every comment with id `comment_id` from the first item with id
    /// `id`; an error when there is none.
    fn delete_comment(&mut self, id: u32, comment_id: u32) -> (r: Result<(), ApiError>)
        ensures
            match index_of_id(old(self).items(), id) {
                Some(i) => {
                    let o = old(self).items()[i];
                    if without_comment(o.comments@, comment_id).len() == o.comments@.len() {
                        r matches Err(e) && e.message@ == missing_comment_msg(id, comment_id) && final(self).items()
                            == old(self).items()
                    } else {
                        let n = final(self).items()[i];
                        &&& r is Ok
                        &&& final(self).items().len() == old(self).items().len()
                        &&& forall|j: int| 0 <= j < old(self).items().len() && j != i ==> #[trigger] final(self).items()[j]
                            == old(self).items()[j]
                        &&& touched(o, n)
                        &&& n.title == o.title && n.state == o.state && n.state_name == o.state_name
                        &&& n.assigned_to == o.assigned_to && n.iteration == o.iteration
                        &&& n.description == o.description && n.notes == o.notes && n.tags@ == o.tags@
                        &&& n.comments@ == without_comment(o.comments@, comment_id)
                    }
                },
                None => r matches Err(e) && e.message@ == missing_item_msg(id) && final(self).items()
                    == old(self).items(),
            },
    {
        let r = self.apply_delete_comment(id, comment_id);
        self.log = Ghost(self.log@.push((CallView::DeleteComment(id, comment_id), r is Ok)));
        r
    }

    /// Set `field` of the first item with id `id` to `value` (see
    /// [`field_updated`]); an error for an unknown id or a field the backend
    /// cannot edit.
    fn update_field(&mut self, id: u32, field: &str, value: &str) -> (r: Result<(), ApiError>)
        ensures
            update_outcome(
                old(self).items(),
                final(self).items(),
                id,
                field@,
                value@,
                match r {
                    Ok(_) => Ok(()),
                    Err(e) => Err(e.message@),
                },
            ),
    {
        let r = self.apply_update_field(id, field, value);
        self.log = Ghost(self.log@.push((CallView::UpdateField(id, field@, value@), r is Ok)));
        r
    }

    /// Prefix the description of the first item with id `id` with
    /// "[edited by teammate] ", as a teammate's edit would.
    fn simulate_remote_edit(&mut self, id: u32) -> (r: Result<(), ApiError>)
        ensures
            match index_of_id(old(self).items(), id) {
                Some(i) => {
                    let o = old(self).items()[i];
                    let n = final(self).items()[i];
                    &&& r is Ok
                    &&& final(self).items().len() == old(self).items().len()
                    &&& forall|j: int| 0 <= j < old(self).items().len() && j != i ==> #[trigger] final(self).items()[j]
                        == old(self).items()[j]
                    &&& touched(o, n)
                    &&& n.title == o.title && n.state == o.state && n.state_name == o.state_name
                    &&& n.assigned_to == o.assigned_to && n.iteration == o.iteration
                    &&& n.notes == o.notes && n.tags@ == o.tags@ && n.comments@ == o.comments@
                    &&& n.description@ == "[edited by teammate] "@ + o.description@
                },
                None => r matches Err(e) && e.message@ == missing_item_msg(id) && final(self).items()
                    == old(self).items(),
            },
    {
        let i = match self.find(id) {
            Some(i) => i,
            None => {
                return Err(Self::missing(id));
            },
        };
        let mut w = self.items[i].copy();
        let mut d = owned("[edited by teammate] ");
        d.append(w.description.as_str());
        w.description = d;
        w.changed_days_ago = 0;
        w.rev = bump(w.rev);
        self.put(i, w);
        Ok(())
    }

    /// The canned project names (see [`mock_projects`]).
    fn list_projects(&self, org: &str) -> (r: Vec<String>)
        ensures
            views(r@) == mock_projects(),
    {
        let mut v: Vec<String> = Vec::new();
        v.push(owned("Widgets"));
        v.push(owned("Platform"));
        v.push(owned("Mobile App"));
        v.push(owned("Data Pipeline"));
        v.push(owned("Infrastructure"));
        assert(views(v@) =~= mock_projects());
        v
    }

    /// Every tag in use, sorted, without duplicates.
    fn list_tags(&self) -> (r: Vec<String>)
        ensures
            views(r@) == dedup_seq(all_tags(self.items()).sort_by(lex_leq())),
    {
        let mut tags: Vec<String> = Vec::new();
        let mut i: usize = 0;
        while i < self.items.len()
            invariant
                i <= self.items@.len(),
                views(tags@) == all_tags(self.items@.take(i as int)),
            decreases self.items.len() - i,
        {
            assert(self.items@.take(i + 1).drop_last() =~= self.items@.take(i as int));
            let ghost before = views(tags@);
            let t = copy_strings(&self.items[i].tags);
            let mut k: usize = 0;
            while k < t.len()
                invariant
                    k <= t@.len(),
                    views(tags@) == before + views(t@.take(k as int)),
                decreases t.len() - k,
            {
                assert(t@.take(k + 1) =~= t@.take(k as int).push(t@[k as int]));
                let c = t[k].clone();
                let ghost mid = views(tags@);
                tags.push(c);
                assert(views(tags@) =~= mid.push(t@[k as int]@));
                k = k + 1;
                assert(views(tags@) =~= before + views(t@.take(k as int)));
            }
            assert(t@.take(t.len() as int) =~= t@);
            i = i + 1;
        }
        assert(self.items@.take(self.items.len() as int) =~= self.items@);
        let tags = sort_strings(tags);
        dedup_strings(tags)
    }

    /// The default workflow states (see [`default_states`]).
    fn list_states(&self, item_type: &str) -> (r: Vec<String>)
        ensures
            views(r@) == default_states(),
    {
        let mut v: Vec<String> = Vec::new();
        v.push(owned("New"));
        v.push(owned("Active"));
        v.push(owned("Resolved"));
        v.push(owned("Closed"));
        assert(views(v@) =~= default_states());
        v
    }
}

} // verus!
