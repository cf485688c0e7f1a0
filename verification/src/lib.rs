//! OpenZone — the verified core of a desktop workspace shell.
//!
//! The crate holds the state machines behind the workspace window: the
//! center split tree and its tab stacks, the edge docks, focus, the
//! keymap and command palette, tab drag-and-drop decisions, layout
//! snapshots, and the app-root domain stores. Rendering, windowing and
//! file IO live in the application around it.

pub mod features;
pub mod shared;
pub mod workspace;
pub mod open_zone;
