pub mod workspace_command;
pub mod workspace_command_palette;
pub mod workspace_location;
pub mod workspace_stores;
pub mod workspace_text;
pub mod workspace_pane_grid;
pub mod workspace_panel;
pub mod workspace_pane_state;
pub mod workspace_dock;
pub mod workspace_drag;
pub mod workspace_state;
pub mod workspace_registry;
pub mod workspace_persistence;
pub mod workspace_output_reveal;
pub mod workspace_shell_chrome;
pub mod workspace_view_smoke;
pub mod workspace_layout_store;
