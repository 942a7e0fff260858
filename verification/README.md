# lazyaz

A lazygit-style terminal client for Azure DevOps work items: browse the items
assigned to you, walk their parent/child tree, edit fields, comments and notes
locally, and push the changes back with conflict detection.

## Layout

- `src/` — the library, written in Verus. Its functions carry contracts and
  are verified, except seven small wrappers around outside calls
  (`char::is_alphanumeric`, `String::push`, three readings of the system
  clock, the skim fuzzy matcher and Base64 encoding), whose contracts are
  trusted. The backend trait's contract is proved for the in-memory backend;
  the HTTP backend in `app/` is not verified against it.
  - `api/` — the work-item model (items, states, dates, timeframes, filters),
    the in-memory backend, and the reading of Azure DevOps REST records.
  - `auth/` — sign-in states, the `Authorization` header, and the decisions of
    the device-code sign-in.
  - `app.rs`, `detail.rs` — pending edits and comments, conflict detection,
    pushes and their outcome, the fuzzy list filter, labels and links.
  - `tree_view.rs`, `ui/tree.rs` — the lazily fetched relationship tree.
  - `filters.rs`, `view.rs`, `event.rs`, `keys.rs` — list filters, panes and
    cursors, what each key means where, and the key bindings.
  - `ui/` — text input, pickers, tag and type editors, the calendar and date
    range input, the fuzzy ranking, and the yank menu.
  - `report.rs` — the HTML report of a tree (hierarchy, Mermaid graph and
    story-point statistics).
  - `text.rs` — string helpers shared by the above.
- `app/` — the binary: terminal drawing, key events, files, HTTP, the
  clipboard and the background threads, calling into the library.
- `tests/` — tests of the library on concrete values.

## Running

Set `AZURE_DEVOPS_PAT` (with an organisation and project configured) to use a
Personal Access Token; otherwise `lazyaz` signs in with Entra ID through the
device-code flow. `lazyaz --setup` runs the first-run wizard again.
