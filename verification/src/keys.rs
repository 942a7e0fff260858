//! Central keybinding registry: the single source of truth for the
//! context-aware fuzzy help popup (`?`).
use crate::ui::fuzzy::{key_views, lemma_ranking_in_bounds, rank, ranked};
use vstd::prelude::*;

verus! {

/// Which area a binding applies to. `Global` bindings are always shown.
#[derive(Clone, Copy, Debug, PartialEq, Eq, Structural)]
pub enum Context {
    Global,
    Tree,
    WorkItems,
    Detail,
    Config,
    Wizard,
    Conflict,
    InfoEditor,
    /// The iteration picker or the date-range entry.
    IterationFilter,
    /// The work-item type picker.
    TypeFilter,
}

/// A semantic action produced by a keypress and consumed by the application.
#[derive(Clone, Copy, Debug, PartialEq, Eq, Structural)]
pub enum Action {
    Quit,
    NextTab,
    PrevTab,
    GotoTab(u8),
    ToggleHelp,
    Down,
    Up,
    Top,
    Bottom,
    Open,
    Back,
    FocusNext,
    FocusPrev,
    TreeExpand,
    TreeCollapse,
    Edit,
    EditNotes,
    AddComment,
    SimulateRemote,
    ResolveMerge,
    ResolveForce,
    NextFilter,
    PrevFilter,
    Reload,
    EditField,
    SaveConfig,
    Relogin,
    WizardNext,
    WizardPrev,
    OpenTimeframeFilter,
    ClearTimeFilter,
    OpenIterationFilter,
    OpenTypeFilter,
    OpenYankMenu,
    RefreshTree,
    TreeNextSibling,
    TreePrevSibling,
    TreeToggleRecursive,
    TreeLevelIn,
    TreeLevelOut,
    ExportTreeReport,
    ViewInTree,
    DeleteComment,
    Push,
    OpenInBrowser,
}

/// One entry of the help table.
#[derive(Clone, Copy, Debug)]
pub struct Binding {
    pub keys: &'static str,
    pub desc: &'static str,
    pub ctx: Context,
    pub action: Action,
}

/// The mathematical value of a binding: keys, description, context, action.
pub open spec fn binding_view(b: Binding) -> (Seq<char>, Seq<char>, Context, Action) {
    (b.keys@, b.desc@, b.ctx, b.action)
}

/// The values of a sequence of bindings.
pub open spec fn binding_views(v: Seq<Binding>) -> Seq<(Seq<char>, Seq<char>, Context, Action)> {
    v.map_values(|b: Binding| binding_view(b))
}

/// Whether an entry is shown in the help for `ctx`.
pub open spec fn shown_for(ctx: Context) -> spec_fn((Seq<char>, Seq<char>, Context, Action)) -> bool {
    |b: (Seq<char>, Seq<char>, Context, Action)| b.2 == Context::Global || b.2 == ctx
}

/// The registry, in display order.
pub open spec fn binding_table() -> Seq<(Seq<char>, Seq<char>, Context, Action)> {
    seq![
        ("q"@, "Quit"@, Context::Global, Action::Quit),
        ("?"@, "Toggle this help"@, Context::Global, Action::ToggleHelp),
        ("Tab / gt"@, "Next tab"@, Context::Global, Action::NextTab),
        ("S-Tab/gT"@, "Previous tab"@, Context::Global, Action::PrevTab),
        ("1-4"@, "Jump to tab"@, Context::Global, Action::GotoTab(0)),
        ("j / k"@, "Move down / up"@, Context::Tree, Action::Down),
        ("l"@, "Expand node"@, Context::Tree, Action::TreeExpand),
        ("h"@, "Collapse node"@, Context::Tree, Action::TreeCollapse),
        ("Enter"@, "Open in detail"@, Context::Tree, Action::Open),
        ("j / k"@, "Move down / up"@, Context::WorkItems, Action::Down),
        ("gg / G"@, "Top / bottom"@, Context::WorkItems, Action::Top),
        ("l / Enter"@, "Open detail"@, Context::WorkItems, Action::Open),
        ("f / F"@, "Next / prev timeframe"@, Context::WorkItems, Action::NextFilter),
        ("r"@, "Reload list"@, Context::WorkItems, Action::Reload),
        ("l / h"@, "Next/prev sub-window (info→desc→notes→comments→related)"@, Context::Detail, Action::FocusNext),
        ("j / k"@, "Move within list pane (comments/related)"@, Context::Detail, Action::Down),
        ("Enter"@, "Act on pane: open field editor, edit desc/notes, edit comment, open related"@, Context::Detail, Action::Open),
        ("Esc"@, "Back to list"@, Context::Detail, Action::Back),
        ("j / k"@, "Move between fields"@, Context::InfoEditor, Action::Down),
        ("Enter"@, "Edit field (state cycles · long text → $EDITOR)"@, Context::InfoEditor, Action::Open),
        ("Esc"@, "Close editor"@, Context::InfoEditor, Action::Back),
        ("e"@, "Edit description ($EDITOR)"@, Context::Detail, Action::Edit),
        ("n"@, "Edit notes ($EDITOR)"@, Context::Detail, Action::EditNotes),
        ("c"@, "Add comment ($EDITOR)"@, Context::Detail, Action::AddComment),
        ("X"@, "Simulate teammate edit (demo)"@, Context::Detail, Action::SimulateRemote),
        ("m"@, "Merge in $EDITOR"@, Context::Conflict, Action::ResolveMerge),
        ("f"@, "Force-push my changes"@, Context::Conflict, Action::ResolveForce),
        ("j / k"@, "Move among fields"@, Context::Config, Action::Down),
        ("i / Enter"@, "Edit selected field"@, Context::Config, Action::EditField),
        ("s"@, "Save config to disk"@, Context::Config, Action::SaveConfig),
        ("L"@, "Re-login (credentials)"@, Context::Config, Action::Relogin),
        ("Enter"@, "Next step"@, Context::Wizard, Action::WizardNext),
        ("Esc"@, "Previous step"@, Context::Wizard, Action::WizardPrev)
    ]
}

/// The registry entries shown for `ctx`: the global ones and those of `ctx`,
/// in registry order.
pub open spec fn bindings_shown(ctx: Context) -> Seq<(Seq<char>, Seq<char>, Context, Action)> {
    binding_table().filter(shown_for(ctx))
}

/// Every binding of the registry, in display order.
pub fn bindings() -> (r: Vec<Binding>)
    ensures
        binding_views(r@) == binding_table(),
{
    let mut v: Vec<Binding> = Vec::new();
    v.push(Binding { keys: "q", desc: "Quit", ctx: Context::Global, action: Action::Quit });
    v.push(Binding { keys: "?", desc: "Toggle this help", ctx: Context::Global, action: Action::ToggleHelp });
    v.push(Binding { keys: "Tab / gt", desc: "Next tab", ctx: Context::Global, action: Action::NextTab });
    v.push(Binding { keys: "S-Tab/gT", desc: "Previous tab", ctx: Context::Global, action: Action::PrevTab });
    v.push(Binding { keys: "1-4", desc: "Jump to tab", ctx: Context::Global, action: Action::GotoTab(0) });
    v.push(Binding { keys: "j / k", desc: "Move down / up", ctx: Context::Tree, action: Action::Down });
    v.push(Binding { keys: "l", desc: "Expand node", ctx: Context::Tree, action: Action::TreeExpand });
    v.push(Binding { keys: "h", desc: "Collapse node", ctx: Context::Tree, action: Action::TreeCollapse });
    v.push(Binding { keys: "Enter", desc: "Open in detail", ctx: Context::Tree, action: Action::Open });
    v.push(Binding { keys: "j / k", desc: "Move down / up", ctx: Context::WorkItems, action: Action::Down });
    v.push(Binding { keys: "gg / G", desc: "Top / bottom", ctx: Context::WorkItems, action: Action::Top });
    v.push(Binding { keys: "l / Enter", desc: "Open detail", ctx: Context::WorkItems, action: Action::Open });
    v.push(Binding { keys: "f / F", desc: "Next / prev timeframe", ctx: Context::WorkItems, action: Action::NextFilter });
    v.push(Binding { keys: "r", desc: "Reload list", ctx: Context::WorkItems, action: Action::Reload });
    v.push(Binding { keys: "l / h", desc: "Next/prev sub-window (info→desc→notes→comments→related)", ctx: Context::Detail, action: Action::FocusNext });
    v.push(Binding { keys: "j / k", desc: "Move within list pane (comments/related)", ctx: Context::Detail, action: Action::Down });
    v.push(Binding { keys: "Enter", desc: "Act on pane: open field editor, edit desc/notes, edit comment, open related", ctx: Context::Detail, action: Action::Open });
    v.push(Binding { keys: "Esc", desc: "Back to list", ctx: Context::Detail, action: Action::Back });
    v.push(Binding { keys: "j / k", desc: "Move between fields", ctx: Context::InfoEditor, action: Action::Down });
    v.push(Binding { keys: "Enter", desc: "Edit field (state cycles · long text → $EDITOR)", ctx: Context::InfoEditor, action: Action::Open });
    v.push(Binding { keys: "Esc", desc: "Close editor", ctx: Context::InfoEditor, action: Action::Back });
    v.push(Binding { keys: "e", desc: "Edit description ($EDITOR)", ctx: Context::Detail, action: Action::Edit });
    v.push(Binding { keys: "n", desc: "Edit notes ($EDITOR)", ctx: Context::Detail, action: Action::EditNotes });
    v.push(Binding { keys: "c", desc: "Add comment ($EDITOR)", ctx: Context::Detail, action: Action::AddComment });
    v.push(Binding { keys: "X", desc: "Simulate teammate edit (demo)", ctx: Context::Detail, action: Action::SimulateRemote });
    v.push(Binding { keys: "m", desc: "Merge in $EDITOR", ctx: Context::Conflict, action: Action::ResolveMerge });
    v.push(Binding { keys: "f", desc: "Force-push my changes", ctx: Context::Conflict, action: Action::ResolveForce });
    v.push(Binding { keys: "j / k", desc: "Move among fields", ctx: Context::Config, action: Action::Down });
    v.push(Binding { keys: "i / Enter", desc: "Edit selected field", ctx: Context::Config, action: Action::EditField });
    v.push(Binding { keys: "s", desc: "Save config to disk", ctx: Context::Config, action: Action::SaveConfig });
    v.push(Binding { keys: "L", desc: "Re-login (credentials)", ctx: Context::Config, action: Action::Relogin });
    v.push(Binding { keys: "Enter", desc: "Next step", ctx: Context::Wizard, action: Action::WizardNext });
    v.push(Binding { keys: "Esc", desc: "Previous step", ctx: Context::Wizard, action: Action::WizardPrev });
    assert(binding_views(v@) =~= binding_table());
    v
}

/// Bindings shown in the help popup for `ctx` (always includes Global).
pub fn bindings_for(ctx: Context) -> (r: Vec<Binding>)
    ensures
        binding_views(r@) == bindings_shown(ctx),
{
    let all = bindings();
    let ghost table = binding_table();
    let ghost pred = shown_for(ctx);
    let mut out: Vec<Binding> = Vec::new();
    let mut i: usize = 0;
    while i < all.len()
        invariant
            i <= all@.len(),
            binding_views(all@) == table,
            table == binding_table(),
            pred == shown_for(ctx),
            binding_views(out@) == table.take(i as int).filter(pred),
        decreases all.len() - i,
    {
        let b = all[i];
        proof {
            assert(table.take(i + 1).drop_last() =~= table.take(i as int));
            assert(table.take(i + 1).last() == binding_view(b));
            reveal_with_fuel(Seq::filter, 1);
        }
        if b.ctx == Context::Global || b.ctx == ctx {
            out.push(b);
        }
        i = i + 1;
        assert(binding_views(out@) =~= table.take(i as int).filter(pred));
    }
    assert(table.take(all.len() as int) =~= table);
    out
}

/// What a binding is fuzzy-matched on in the help popup: its keys, a space,
/// and its description.
pub open spec fn help_hay(b: (Seq<char>, Seq<char>, Context, Action)) -> Seq<Seq<char>> {
    seq![b.0 + " "@ + b.1]
}

/// The help popup's list for `ctx` and the typed `query`: the bindings shown
/// for `ctx` that match, best first (all of them, in order, for a blank
/// query).
pub open spec fn help_list(ctx: Context, query: Seq<char>) -> Seq<(Seq<char>, Seq<char>, Context, Action)> {
    let shown = bindings_shown(ctx);
    ranked(shown.map_values(|b: (Seq<char>, Seq<char>, Context, Action)| help_hay(b)), query).map_values(
        |i: usize| shown[i as int],
    )
}

/// The bindings listed in the help popup (see [`help_list`]).
pub fn help_matches(ctx: Context, query: &str) -> (r: Vec<Binding>)
    ensures
        binding_views(r@) == help_list(ctx, query@),
{
    let all = bindings_for(ctx);
    let ghost shown = bindings_shown(ctx);
    let ghost hk = shown.map_values(|b: (Seq<char>, Seq<char>, Context, Action)| help_hay(b));
    let mut keys: Vec<Vec<String>> = Vec::new();
    let mut i: usize = 0;
    while i < all.len()
        invariant
            i <= all@.len(),
            binding_views(all@) == shown,
            hk == shown.map_values(|b: (Seq<char>, Seq<char>, Context, Action)| help_hay(b)),
            key_views(keys@) == hk.take(i as int),
        decreases all.len() - i,
    {
        let b = all[i];
        let mut hay = crate::text::owned(b.keys);
        hay.append(" ");
        hay.append(b.desc);
        let mut one: Vec<String> = Vec::new();
        one.push(hay);
        assert(one@.map_values(|s: String| s@) =~= help_hay(binding_view(b)));
        let ghost before = keys@;
        keys.push(one);
        assert(shown[i as int] == binding_view(b));
        assert(key_views(keys@) =~= hk.take(i + 1)) by {
            assert(key_views(keys@) =~= key_views(before).push(help_hay(binding_view(b))));
            assert(hk.take(i + 1) =~= hk.take(i as int).push(hk[i as int]));
        }
        i = i + 1;
    }
    assert(hk.take(all.len() as int) =~= hk);
    let idx = rank(&keys, query);
    proof {
        lemma_ranking_in_bounds(key_views(keys@), query@, idx@);
    }
    let mut out: Vec<Binding> = Vec::new();
    let mut k: usize = 0;
    while k < idx.len()
        invariant
            k <= idx@.len(),
            binding_views(all@) == shown,
            all@.len() == hk.len(),
            hk.len() == key_views(keys@).len(),
            idx@ == ranked(key_views(keys@), query@),
            key_views(keys@) == hk,
            forall|j: int| 0 <= j < idx@.len() ==> (#[trigger] idx@[j]) < key_views(keys@).len(),
            binding_views(out@) == idx@.take(k as int).map_values(|i: usize| shown[i as int]),
        decreases idx.len() - k,
    {
        let j = idx[k];
        let ghost before = out@;
        out.push(all[j]);
        assert(binding_views(out@) =~= idx@.take(k + 1).map_values(|i: usize| shown[i as int])) by {
            assert(binding_views(out@) =~= binding_views(before).push(binding_view(all@[j as int])));
            assert(idx@.take(k + 1) =~= idx@.take(k as int).push(j));
        }
        k = k + 1;
    }
    assert(idx@.take(idx.len() as int) =~= idx@);
    out
}

} // verus!
