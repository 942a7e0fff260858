//! What a key press means in the main panes (no modal open): the decision
//! half of key handling, from the focused context and a little state to the
//! step the application takes. Multi-key `g` sequences (`gg`, `gt`, `gT`)
//! use a pending flag.
use crate::keys::{Action, Context};
use crate::ui::input::{KeyCode, KeyEvent};
use vstd::prelude::*;

verus! {

/// The step a key asks of the application.
#[derive(Clone, Copy, Debug, PartialEq, Eq, Structural)]
pub enum KeyStep {
    /// Open the pane's fuzzy search bar.
    OpenSearch,
    /// Clear the pane's active filter.
    ClearFilter,
    /// Remember a `g` and wait for the second key.
    AwaitG,
    /// Carry out an action.
    Apply(Action),
    /// Nothing.
    Ignore,
}

/// The Work Items and Tree panes, which have the fuzzy filter.
pub open spec fn is_list(ctx: Context) -> bool {
    ctx == Context::WorkItems || ctx == Context::Tree
}

/// The step for key `c` in context `ctx` when it is a character, after the
/// global keys.
pub open spec fn char_step(ctx: Context, c: char) -> KeyStep {
    if c == 'f' && ctx == Context::WorkItems {
        KeyStep::Apply(Action::OpenTimeframeFilter)
    } else if c == 'F' && is_list(ctx) {
        KeyStep::Apply(Action::ClearTimeFilter)
    } else if c == 'r' && ctx == Context::WorkItems {
        KeyStep::Apply(Action::Reload)
    } else if c == 'r' && ctx == Context::Tree {
        KeyStep::Apply(Action::RefreshTree)
    } else if c == 'J' && ctx == Context::Tree {
        KeyStep::Apply(Action::TreeNextSibling)
    } else if c == 'K' && ctx == Context::Tree {
        KeyStep::Apply(Action::TreePrevSibling)
    } else if c == 'c' && ctx == Context::Tree {
        KeyStep::Apply(Action::TreeToggleRecursive)
    } else if c == 'R' && ctx == Context::Tree {
        KeyStep::Apply(Action::ExportTreeReport)
    } else if c == 'L' && ctx == Context::Tree {
        KeyStep::Apply(Action::TreeLevelIn)
    } else if c == 'H' && ctx == Context::Tree {
        KeyStep::Apply(Action::TreeLevelOut)
    } else if c == 'v' && ctx == Context::WorkItems {
        KeyStep::Apply(Action::ViewInTree)
    } else if c == 'i' && is_list(ctx) {
        KeyStep::Apply(Action::OpenIterationFilter)
    } else if c == 't' && ctx == Context::WorkItems {
        KeyStep::Apply(Action::OpenTypeFilter)
    } else if c == 'y' && is_list(ctx) {
        KeyStep::Apply(Action::OpenYankMenu)
    } else if c == 'e' && ctx == Context::Detail {
        KeyStep::Apply(Action::Edit)
    } else if c == 'n' && ctx == Context::Detail {
        KeyStep::Apply(Action::EditNotes)
    } else if c == 'c' && ctx == Context::Detail {
        KeyStep::Apply(Action::AddComment)
    } else if c == 'd' && ctx == Context::Detail {
        KeyStep::Apply(Action::DeleteComment)
    } else if c == 'p' && ctx == Context::Detail {
        KeyStep::Apply(Action::Push)
    } else if c == 'X' && ctx == Context::Detail {
        KeyStep::Apply(Action::SimulateRemote)
    } else if c == 'o' && (is_list(ctx) || ctx == Context::Detail) {
        KeyStep::Apply(Action::OpenInBrowser)
    } else if c == 'i' && ctx == Context::Config {
        KeyStep::Apply(Action::EditField)
    } else if c == 's' && ctx == Context::Config {
        KeyStep::Apply(Action::SaveConfig)
    } else if c == 'L' && ctx == Context::Config {
        KeyStep::Apply(Action::Relogin)
    } else {
        KeyStep::Ignore
    }
}

/// The step for a key in the main panes: a pending `g` completes `gg`
/// (top), `gt` (next tab) or `gT` (previous tab); otherwise the key goes
/// through the global keys, the movement keys, and then the keys of the
/// focused context.
pub open spec fn normal_step(ctx: Context, pending_g: bool, filter_active: bool, key: KeyEvent) -> KeyStep {
    let code = key.code;
    if pending_g && code == KeyCode::Char('g') {
        KeyStep::Apply(Action::Top)
    } else if pending_g && code == KeyCode::Char('t') {
        KeyStep::Apply(Action::NextTab)
    } else if pending_g && code == KeyCode::Char('T') {
        KeyStep::Apply(Action::PrevTab)
    } else if code == KeyCode::Char('/') && is_list(ctx) {
        KeyStep::OpenSearch
    } else if code == KeyCode::Esc && is_list(ctx) && filter_active {
        KeyStep::ClearFilter
    } else if code == KeyCode::Char('q') {
        KeyStep::Apply(Action::Quit)
    } else if code == KeyCode::Char('?') {
        KeyStep::Apply(Action::ToggleHelp)
    } else if code == KeyCode::Char('g') {
        KeyStep::AwaitG
    } else if code == KeyCode::Char('G') {
        KeyStep::Apply(Action::Bottom)
    } else if code == KeyCode::Tab {
        KeyStep::Apply(Action::NextTab)
    } else if code == KeyCode::BackTab {
        KeyStep::Apply(Action::PrevTab)
    } else if code matches KeyCode::Char(c) && '1' <= c <= '4' {
        KeyStep::Apply(Action::GotoTab(((code->Char_0 as u32) - 49) as u8))
    } else if code == KeyCode::Char('j') || code == KeyCode::Down {
        KeyStep::Apply(Action::Down)
    } else if code == KeyCode::Char('k') || code == KeyCode::Up {
        KeyStep::Apply(Action::Up)
    } else if code == KeyCode::Char('l') || code == KeyCode::Right {
        KeyStep::Apply(
            if ctx == Context::Tree {
                Action::TreeExpand
            } else if ctx == Context::Detail {
                Action::FocusNext
            } else if ctx == Context::Config {
                Action::EditField
            } else {
                Action::Open
            },
        )
    } else if code == KeyCode::Char('h') || code == KeyCode::Left {
        if ctx == Context::Tree {
            KeyStep::Apply(Action::TreeCollapse)
        } else if ctx == Context::Detail {
            KeyStep::Apply(Action::FocusPrev)
        } else {
            KeyStep::Ignore
        }
    } else if code == KeyCode::Enter {
        KeyStep::Apply(if ctx == Context::Config { Action::EditField } else { Action::Open })
    } else if code == KeyCode::Esc && ctx == Context::Detail {
        KeyStep::Apply(Action::Back)
    } else {
        match code {
            KeyCode::Char(c) => char_step(ctx, c),
            _ => KeyStep::Ignore,
        }
    }
}

fn char_key(ctx: Context, c: char) -> (r: KeyStep)
    ensures
        r == char_step(ctx, c),
{
    let list = ctx == Context::WorkItems || ctx == Context::Tree;
    if c == 'f' && ctx == Context::WorkItems {
        KeyStep::Apply(Action::OpenTimeframeFilter)
    } else if c == 'F' && list {
        KeyStep::Apply(Action::ClearTimeFilter)
    } else if c == 'r' && ctx == Context::WorkItems {
        KeyStep::Apply(Action::Reload)
    } else if c == 'r' && ctx == Context::Tree {
        KeyStep::Apply(Action::RefreshTree)
    } else if c == 'J' && ctx == Context::Tree {
        KeyStep::Apply(Action::TreeNextSibling)
    } else if c == 'K' && ctx == Context::Tree {
        KeyStep::Apply(Action::TreePrevSibling)
    } else if c == 'c' && ctx == Context::Tree {
        KeyStep::Apply(Action::TreeToggleRecursive)
    } else if c == 'R' && ctx == Context::Tree {
        KeyStep::Apply(Action::ExportTreeReport)
    } else if c == 'L' && ctx == Context::Tree {
        KeyStep::Apply(Action::TreeLevelIn)
    } else if c == 'H' && ctx == Context::Tree {
        KeyStep::Apply(Action::TreeLevelOut)
    } else if c == 'v' && ctx == Context::WorkItems {
        KeyStep::Apply(Action::ViewInTree)
    } else if c == 'i' && list {
        KeyStep::Apply(Action::OpenIterationFilter)
    } else if c == 't' && ctx == Context::WorkItems {
        KeyStep::Apply(Action::OpenTypeFilter)
    } else if c == 'y' && list {
        KeyStep::Apply(Action::OpenYankMenu)
    } else if c == 'e' && ctx == Context::Detail {
        KeyStep::Apply(Action::Edit)
    } else if c == 'n' && ctx == Context::Detail {
        KeyStep::Apply(Action::EditNotes)
    } else if c == 'c' && ctx == Context::Detail {
        KeyStep::Apply(Action::AddComment)
    } else if c == 'd' && ctx == Context::Detail {
        KeyStep::Apply(Action::DeleteComment)
    } else if c == 'p' && ctx == Context::Detail {
        KeyStep::Apply(Action::Push)
    } else if c == 'X' && ctx == Context::Detail {
        KeyStep::Apply(Action::SimulateRemote)
    } else if c == 'o' && (list || ctx == Context::Detail) {
        KeyStep::Apply(Action::OpenInBrowser)
    } else if c == 'i' && ctx == Context::Config {
        KeyStep::Apply(Action::EditField)
    } else if c == 's' && ctx == Context::Config {
        KeyStep::Apply(Action::SaveConfig)
    } else if c == 'L' && ctx == Context::Config {
        KeyStep::Apply(Action::Relogin)
    } else {
        KeyStep::Ignore
    }
}

/// The step for a key in the main panes (see [`normal_step`]). The caller
/// clears its pending `g` before acting and sets it again on
/// [`KeyStep::AwaitG`].
pub fn normal_key(ctx: Context, pending_g: bool, filter_active: bool, key: KeyEvent) -> (r: KeyStep)
    ensures
        r == normal_step(ctx, pending_g, filter_active, key),
{
    let code = key.code;
    let list = ctx == Context::WorkItems || ctx == Context::Tree;
    if pending_g && code == KeyCode::Char('g') {
        return KeyStep::Apply(Action::Top);
    }
    if pending_g && code == KeyCode::Char('t') {
        return KeyStep::Apply(Action::NextTab);
    }
    if pending_g && code == KeyCode::Char('T') {
        return KeyStep::Apply(Action::PrevTab);
    }
    if code == KeyCode::Char('/') && list {
        return KeyStep::OpenSearch;
    }
    if code == KeyCode::Esc && list && filter_active {
        return KeyStep::ClearFilter;
    }
    match code {
        KeyCode::Char(c) => {
            if c == 'q' {
                KeyStep::Apply(Action::Quit)
            } else if c == '?' {
                KeyStep::Apply(Action::ToggleHelp)
            } else if c == 'g' {
                KeyStep::AwaitG
            } else if c == 'G' {
                KeyStep::Apply(Action::Bottom)
            } else if '1' <= c && c <= '4' {
                KeyStep::Apply(Action::GotoTab(((c as u32) - 49) as u8))
            } else if c == 'j' {
                KeyStep::Apply(Action::Down)
            } else if c == 'k' {
                KeyStep::Apply(Action::Up)
            } else if c == 'l' {
                KeyStep::Apply(
                    if ctx == Context::Tree {
                        Action::TreeExpand
                    } else if ctx == Context::Detail {
                        Action::FocusNext
                    } else if ctx == Context::Config {
                        Action::EditField
                    } else {
                        Action::Open
                    },
                )
            } else if c == 'h' {
                if ctx == Context::Tree {
                    KeyStep::Apply(Action::TreeCollapse)
                } else if ctx == Context::Detail {
                    KeyStep::Apply(Action::FocusPrev)
                } else {
                    KeyStep::Ignore
                }
            } else {
                char_key(ctx, c)
            }
        },
        KeyCode::Tab => KeyStep::Apply(Action::NextTab),
        KeyCode::BackTab => KeyStep::Apply(Action::PrevTab),
        KeyCode::Down => KeyStep::Apply(Action::Down),
        KeyCode::Up => KeyStep::Apply(Action::Up),
        KeyCode::Right => KeyStep::Apply(
            if ctx == Context::Tree {
                Action::TreeExpand
            } else if ctx == Context::Detail {
                Action::FocusNext
            } else if ctx == Context::Config {
                Action::EditField
            } else {
                Action::Open
            },
        ),
        KeyCode::Left => {
            if ctx == Context::Tree {
                KeyStep::Apply(Action::TreeCollapse)
            } else if ctx == Context::Detail {
                KeyStep::Apply(Action::FocusPrev)
            } else {
                KeyStep::Ignore
            }
        },
        KeyCode::Enter => KeyStep::Apply(if ctx == Context::Config { Action::EditField } else { Action::Open }),
        KeyCode::Esc => {
            if ctx == Context::Detail {
                KeyStep::Apply(Action::Back)
            } else {
                KeyStep::Ignore
            }
        },
        _ => KeyStep::Ignore,
    }
}

/// What a key does while the pane's fuzzy search bar is open.
#[derive(Clone, Copy, Debug, PartialEq, Eq, Structural)]
pub enum SearchStep {
    /// Commit the query as a tag.
    Commit,
    /// Close the bar.
    Cancel,
    /// Delete the last committed tag.
    PopTag,
    /// Edit the live query.
    Edit,
}

/// Enter commits the query, Esc closes the bar, Backspace on an empty input
/// deletes the last tag, anything else edits the query.
pub open spec fn search_step(input_empty: bool, key: KeyEvent) -> SearchStep {
    if key.code == KeyCode::Enter {
        SearchStep::Commit
    } else if key.code == KeyCode::Esc {
        SearchStep::Cancel
    } else if key.code == KeyCode::Backspace && input_empty {
        SearchStep::PopTag
    } else {
        SearchStep::Edit
    }
}

/// The step for a key while the search bar is open (see [`search_step`]).
pub fn search_key(input_empty: bool, key: KeyEvent) -> (r: SearchStep)
    ensures
        r == search_step(input_empty, key),
{
    match key.code {
        KeyCode::Enter => SearchStep::Commit,
        KeyCode::Esc => SearchStep::Cancel,
        KeyCode::Backspace => {
            if input_empty {
                SearchStep::PopTag
            } else {
                SearchStep::Edit
            }
        },
        _ => SearchStep::Edit,
    }
}

/// Ctrl-C quits from any state.
pub open spec fn is_quit_chord(key: KeyEvent) -> bool {
    key.code == KeyCode::Char('c') && key.ctrl
}

/// Whether a key is the quit chord (Ctrl-C).
pub fn quit_chord(key: KeyEvent) -> (r: bool)
    ensures
        r == is_quit_chord(key),
{
    key.code == KeyCode::Char('c') && key.ctrl
}

/// The quit key and the help key work in every pane; `/` opens the filter
/// only in the list panes.
pub proof fn law_global_keys(ctx: Context, filter_active: bool, key: KeyEvent)
    ensures
        key.code == KeyCode::Char('q') ==> normal_step(ctx, false, filter_active, key) == KeyStep::Apply(
            Action::Quit,
        ),
        key.code == KeyCode::Char('?') ==> normal_step(ctx, false, filter_active, key) == KeyStep::Apply(
            Action::ToggleHelp,
        ),
        key.code == KeyCode::Char('/') ==> (normal_step(ctx, false, filter_active, key) == KeyStep::OpenSearch
            <==> is_list(ctx)),
{
}

/// The windows and modes that take keys before the panes.
pub struct Modals {
    pub resolution: bool,
    pub tags_editor: bool,
    pub state_picker: bool,
    pub iteration_picker: bool,
    pub date_range: bool,
    pub type_picker: bool,
    pub yank_menu: bool,
    pub info_editor: bool,
    pub help: bool,
    pub wizard: bool,
    /// Editing a Config field.
    pub insert: bool,
}

/// Who handles a key.
#[derive(Clone, Copy, Debug, PartialEq, Eq, Structural)]
pub enum Route {
    /// Ctrl-C: quit from any state.
    Quit,
    Resolution,
    TagsEditor,
    StatePicker,
    IterationPicker,
    DateRange,
    TypePicker,
    YankMenu,
    InfoEditor,
    Help,
    Wizard,
    Insert,
    /// The focused pane (see [`normal_step`]).
    Normal,
}

/// Ctrl-C quits from anywhere; otherwise the topmost window or mode takes
/// the key, in this order: the resolution menu, the tags editor, the state
/// picker, the iteration picker, the date-range entry, the type picker, the
/// yank menu, the field editor, the help popup, the wizard, Config field
/// editing; else the focused pane.
pub open spec fn route_of(m: Modals, key: KeyEvent) -> Route {
    if is_quit_chord(key) {
        Route::Quit
    } else if m.resolution {
        Route::Resolution
    } else if m.tags_editor {
        Route::TagsEditor
    } else if m.state_picker {
        Route::StatePicker
    } else if m.iteration_picker {
        Route::IterationPicker
    } else if m.date_range {
        Route::DateRange
    } else if m.type_picker {
        Route::TypePicker
    } else if m.yank_menu {
        Route::YankMenu
    } else if m.info_editor {
        Route::InfoEditor
    } else if m.help {
        Route::Help
    } else if m.wizard {
        Route::Wizard
    } else if m.insert {
        Route::Insert
    } else {
        Route::Normal
    }
}

/// Who handles a key (see [`route_of`]).
pub fn route_key(m: &Modals, key: KeyEvent) -> (r: Route)
    ensures
        r == route_of(*m, key),
{
    if quit_chord(key) {
        Route::Quit
    } else if m.resolution {
        Route::Resolution
    } else if m.tags_editor {
        Route::TagsEditor
    } else if m.state_picker {
        Route::StatePicker
    } else if m.iteration_picker {
        Route::IterationPicker
    } else if m.date_range {
        Route::DateRange
    } else if m.type_picker {
        Route::TypePicker
    } else if m.yank_menu {
        Route::YankMenu
    } else if m.info_editor {
        Route::InfoEditor
    } else if m.help {
        Route::Help
    } else if m.wizard {
        Route::Wizard
    } else if m.insert {
        Route::Insert
    } else {
        Route::Normal
    }
}

/// A command of a small window: move, accept, dismiss, or pass the key to
/// the window's own input.
#[derive(Clone, Copy, Debug, PartialEq, Eq, Structural)]
pub enum WindowKey {
    Down,
    Up,
    Accept,
    Dismiss,
    Merge,
    Force,
    Input,
    Ignore,
}

/// A key in the field editor: while a line is edited inline, Esc cancels,
/// Enter commits and other keys edit the line; otherwise Esc closes, `j`/Down
/// and `k`/Up move, Enter or `l` act on the field.
pub open spec fn info_editor_step(editing: bool, key: KeyEvent) -> WindowKey {
    if editing {
        if key.code == KeyCode::Esc {
            WindowKey::Dismiss
        } else if key.code == KeyCode::Enter {
            WindowKey::Accept
        } else {
            WindowKey::Input
        }
    } else if key.code == KeyCode::Esc {
        WindowKey::Dismiss
    } else if key.code == KeyCode::Char('j') || key.code == KeyCode::Down {
        WindowKey::Down
    } else if key.code == KeyCode::Char('k') || key.code == KeyCode::Up {
        WindowKey::Up
    } else if key.code == KeyCode::Enter || key.code == KeyCode::Char('l') {
        WindowKey::Accept
    } else {
        WindowKey::Ignore
    }
}

/// A key in the field editor (see [`info_editor_step`]).
pub fn info_editor_key(editing: bool, key: KeyEvent) -> (r: WindowKey)
    ensures
        r == info_editor_step(editing, key),
{
    if editing {
        if key.code == KeyCode::Esc {
            WindowKey::Dismiss
        } else if key.code == KeyCode::Enter {
            WindowKey::Accept
        } else {
            WindowKey::Input
        }
    } else if key.code == KeyCode::Esc {
        WindowKey::Dismiss
    } else if key.code == KeyCode::Char('j') || key.code == KeyCode::Down {
        WindowKey::Down
    } else if key.code == KeyCode::Char('k') || key.code == KeyCode::Up {
        WindowKey::Up
    } else if key.code == KeyCode::Enter || key.code == KeyCode::Char('l') {
        WindowKey::Accept
    } else {
        WindowKey::Ignore
    }
}

/// A key in the resolution menu: `j`/Down and `k`/Up move, `m` merges by
/// hand, `f` force-pushes, Esc cancels.
pub open spec fn resolution_step(key: KeyEvent) -> WindowKey {
    if key.code == KeyCode::Char('j') || key.code == KeyCode::Down {
        WindowKey::Down
    } else if key.code == KeyCode::Char('k') || key.code == KeyCode::Up {
        WindowKey::Up
    } else if key.code == KeyCode::Char('m') {
        WindowKey::Merge
    } else if key.code == KeyCode::Char('f') {
        WindowKey::Force
    } else if key.code == KeyCode::Esc {
        WindowKey::Dismiss
    } else {
        WindowKey::Ignore
    }
}

/// A key in the resolution menu (see [`resolution_step`]).
pub fn resolution_key(key: KeyEvent) -> (r: WindowKey)
    ensures
        r == resolution_step(key),
{
    if key.code == KeyCode::Char('j') || key.code == KeyCode::Down {
        WindowKey::Down
    } else if key.code == KeyCode::Char('k') || key.code == KeyCode::Up {
        WindowKey::Up
    } else if key.code == KeyCode::Char('m') {
        WindowKey::Merge
    } else if key.code == KeyCode::Char('f') {
        WindowKey::Force
    } else if key.code == KeyCode::Esc {
        WindowKey::Dismiss
    } else {
        WindowKey::Ignore
    }
}

/// A key in the state picker, the wizard, or Config field editing: Esc
/// dismisses (the wizard goes back a step), Enter accepts, other keys go to
/// the input.
pub open spec fn dialog_step(key: KeyEvent) -> WindowKey {
    if key.code == KeyCode::Esc {
        WindowKey::Dismiss
    } else if key.code == KeyCode::Enter {
        WindowKey::Accept
    } else {
        WindowKey::Input
    }
}

/// A key in a simple dialog (see [`dialog_step`]).
pub fn dialog_key(key: KeyEvent) -> (r: WindowKey)
    ensures
        r == dialog_step(key),
{
    if key.code == KeyCode::Esc {
        WindowKey::Dismiss
    } else if key.code == KeyCode::Enter {
        WindowKey::Accept
    } else {
        WindowKey::Input
    }
}

/// Ctrl-C quits whatever is open, and an open resolution menu takes every
/// other key before anything else.
pub proof fn law_quit_and_resolution_first(m: Modals, key: KeyEvent)
    ensures
        is_quit_chord(key) ==> route_of(m, key) == Route::Quit,
        !is_quit_chord(key) && m.resolution ==> route_of(m, key) == Route::Resolution,
        !m.resolution && !m.tags_editor && !m.state_picker && !m.iteration_picker && !m.date_range && !m.type_picker
            && !m.yank_menu && !m.info_editor && !m.help && !m.wizard && !m.insert && !is_quit_chord(key)
            ==> route_of(m, key) == Route::Normal,
{
}

} // verus!
