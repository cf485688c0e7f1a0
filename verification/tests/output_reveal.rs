use openzone::workspace::workspace_dock::DockVisibility;
use openzone::workspace::workspace_output_reveal::output_dock_control_label;

#[test]
fn passive_badge_prefixes_label_in_every_visibility_state() {
    for visibility in [DockVisibility::Hidden, DockVisibility::Collapsed, DockVisibility::Open] {
        let label = output_dock_control_label(visibility, true);
        assert!(label.starts_with("● "));
    }
}

#[test]
fn unbadged_label_matches_visibility_affordance() {
    assert_eq!(output_dock_control_label(DockVisibility::Hidden, false), "Output");
    assert_eq!(output_dock_control_label(DockVisibility::Collapsed, false), "▸ Output");
    assert_eq!(output_dock_control_label(DockVisibility::Open, false), "▾ Output");
}

#[test]
fn badged_label_is_exact() {
    assert_eq!(output_dock_control_label(DockVisibility::Open, true), "● ▾ Output");
}
