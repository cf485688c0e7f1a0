use openzone::workspace::workspace_command_palette::{
    default_command_items, CommandId, CommandItem, PaletteState, MAX_RESULTS,
};

fn sample_items() -> Vec<CommandItem> {
    (0..15).map(|i| CommandItem::new(&format!("Command {i}"), CommandId::NewWindow)).collect()
}

#[test]
fn empty_query_shows_full_catalog() {
    let all = default_command_items();
    let mut palette = PaletteState::new();
    palette.filter(&all);
    assert_eq!(palette.filtered.len(), all.len());
    assert!(palette.filtered.iter().any(|item| item.id == CommandId::NewWindow));
}

#[test]
fn non_empty_query_is_capped_at_max_results() {
    let all = sample_items();
    let mut palette = PaletteState::new();
    palette.query = "command".into();
    palette.filter(&all);
    assert_eq!(palette.filtered.len(), MAX_RESULTS);
}

#[test]
fn filter_is_case_insensitive() {
    let all = default_command_items();
    let mut palette = PaletteState::new();
    palette.query = "NEW WINDOW".into();
    palette.filter(&all);
    assert_eq!(palette.filtered.len(), 1);
    assert_eq!(palette.filtered[0].id, CommandId::NewWindow);
}

#[test]
fn selection_wraps() {
    let all = default_command_items();
    let mut palette = PaletteState::new();
    palette.filter(&all);
    let last = palette.filtered.len() - 1;
    palette.selected = 0;
    palette.select_prev();
    assert_eq!(palette.selected, last);
    palette.select_next();
    assert_eq!(palette.selected, 0);
}

#[test]
fn take_selection_clears_state() {
    let all = default_command_items();
    let mut palette = PaletteState::new();
    palette.open = true;
    palette.query = "new".into();
    palette.filter(&all);
    let cmd = palette.take_selection();
    assert_eq!(cmd, Some(CommandId::NewWindow));
    assert!(!palette.open);
    assert!(palette.query.is_empty());
    assert!(palette.filtered.is_empty());
}

#[test]
fn dismiss_clears_without_returning_command() {
    let all = default_command_items();
    let mut palette = PaletteState::new();
    palette.open = true;
    palette.filter(&all);
    palette.dismiss();
    assert!(!palette.open);
    assert!(palette.filtered.is_empty());
}

#[test]
fn query_is_trimmed_before_matching() {
    let all = default_command_items();
    let mut palette = PaletteState::new();
    palette.query = "  split pane  ".into();
    palette.filter(&all);
    assert_eq!(palette.filtered.len(), 1);
    assert_eq!(palette.filtered[0].id, CommandId::SplitFocused);
}

#[test]
fn select_at_clamps_to_the_last_result() {
    let all = default_command_items();
    let mut palette = PaletteState::new();
    palette.filter(&all);
    palette.select_at(99);
    assert_eq!(palette.selected, all.len() - 1);
    palette.select_at(2);
    assert_eq!(palette.selected, 2);
}

#[test]
fn no_match_gives_no_results_and_no_selection() {
    let all = default_command_items();
    let mut palette = PaletteState::new();
    palette.query = "zzz".into();
    palette.filter(&all);
    assert!(palette.filtered.is_empty());
    assert_eq!(palette.take_selection(), None);
}

#[test]
fn count_label_reports_position_or_no_match() {
    let mut palette = PaletteState::new();
    assert_eq!(palette.count_label(), "No matching commands");
    palette.filter(&sample_items());
    palette.select_next();
    assert_eq!(palette.count_label(), "2/15");
}

#[test]
fn unicode_white_space_around_the_query_is_trimmed() {
    let all = default_command_items();
    let mut palette = PaletteState::new();
    palette.query = "\u{3000}\tsplit pane\u{a0}\u{2028}".into();
    palette.filter(&all);
    assert_eq!(palette.filtered.len(), 1);
    assert_eq!(palette.filtered[0].id, CommandId::SplitFocused);
    palette.query = "\u{2003} \u{85}".into();
    palette.filter(&all);
    assert_eq!(palette.filtered.len(), all.len());
}
