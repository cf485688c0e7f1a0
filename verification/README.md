# openzone

The state and rules of the OpenZone desktop shell, verified with Verus:
a multi-window workspace of tabbed panes in a split tree, three edge
docks, a keymap and command palette, tab drag and drop within and across
windows, layout capture and restore, the shared counter and clock stores
every window observes, onboarding, and the guard that asks before
unsaved tabs are lost when windows close.

## Layout

- `src/shared/design.rs` — theme modes and design tokens.
- `src/workspace/` — the shell: pane split tree (`workspace_pane_grid`),
  tab stacks, docks, keymap and palette, drag state, the workspace
  reducer (`workspace_state`), layout snapshots (`workspace_persistence`),
  the panel registry, the app-root stores, and the chrome and probes the
  renderer reads.
- `src/features/` — the shipped panels (counter, text, clock, scratch),
  onboarding, and the layout round-trip laws.
- `src/open_zone.rs` — the application root: every window by key, the
  close guard, cross-window drops; each step returns the effects the
  program carries out.
- `tests/` — scenarios over the public API.
- `app/` — the iced program: windows, files, hit testing and drawing.

Cursor positions, window sizes, split ratios and dock extents are carried
through the library as the bit patterns of their single precision values;
the library never computes with them.
