use openzone::workspace::workspace_command::{
    chord_from_keyboard_event, Chord, Command, KeyEvent, KeyName, Keymap, KeyRef, Mods,
};
use openzone::workspace::workspace_location::DockSide;

#[test]
fn bind_then_resolve_returns_command() {
    let mut keymap = Keymap::new();
    keymap.bind(Chord::ch('d', Mods::cmd()), Command::SplitFocused);
    assert_eq!(keymap.resolve(Chord::ch('d', Mods::cmd())), Some(Command::SplitFocused));
}

#[test]
fn rebinding_a_chord_replaces_the_command() {
    let mut keymap = Keymap::new();
    keymap.bind(Chord::ch('w', Mods::cmd()), Command::SplitFocused);
    keymap.bind(Chord::ch('w', Mods::cmd()), Command::CloseActiveTab);
    assert_eq!(keymap.len(), 1);
    assert_eq!(keymap.resolve(Chord::ch('w', Mods::cmd())), Some(Command::CloseActiveTab));
}

#[test]
fn unbound_chord_resolves_to_none() {
    let keymap = Keymap::default();
    assert_eq!(keymap.resolve(Chord::ch('z', Mods::cmd())), None);
}

#[test]
fn char_chords_are_case_insensitive() {
    assert_eq!(Chord::ch('D', Mods::cmd()), Chord::ch('d', Mods::cmd()));
}

#[test]
fn shift_distinguishes_chords() {
    assert_ne!(Chord::ch('d', Mods::cmd()), Chord::ch('d', Mods::cmd_shift()));
}

#[test]
fn default_keymap_binds_all_shipped_commands() {
    let keymap = Keymap::default();
    assert_eq!(keymap.resolve(Chord::ch('1', Mods::cmd())), Some(Command::OpenDock(DockSide::Left)));
    assert_eq!(keymap.resolve(Chord::ch('2', Mods::cmd())), Some(Command::OpenDock(DockSide::Right)));
    assert_eq!(keymap.resolve(Chord::ch('3', Mods::cmd())), Some(Command::OpenDock(DockSide::Bottom)));
    assert_eq!(keymap.resolve(Chord::ch('d', Mods::cmd())), Some(Command::SplitFocused));
    assert_eq!(keymap.resolve(Chord::ch('w', Mods::cmd())), Some(Command::CloseActiveTab));
}

#[test]
fn with_shift_sets_only_shift() {
    let m = Mods::cmd().with_shift();
    assert_eq!(m, Mods::cmd_shift());
    assert!(m.command && m.shift && !m.alt);
}

#[test]
fn chord_new_keeps_key_and_mods() {
    let c = Chord::new(KeyRef::Escape, Mods::none());
    assert_eq!(c.key, KeyRef::Escape);
    assert_eq!(c.mods, Mods::none());
}

#[test]
fn binding_other_chords_keeps_earlier_bindings() {
    let mut keymap = Keymap::new();
    assert!(keymap.is_empty());
    keymap.bind(Chord::ch('a', Mods::cmd()), Command::SplitFocused);
    keymap.bind(Chord::ch('b', Mods::cmd()), Command::CloseActiveTab);
    assert_eq!(keymap.len(), 2);
    assert_eq!(keymap.resolve(Chord::ch('a', Mods::cmd())), Some(Command::SplitFocused));
    assert_eq!(keymap.resolve(Chord::ch('b', Mods::cmd())), Some(Command::CloseActiveTab));
}

fn key_event(key: KeyName, latin: Option<char>, mods: Mods) -> KeyEvent {
    KeyEvent { pressed: true, repeat: false, key, latin, mods }
}

#[test]
fn character_keys_become_lower_cased_chords() {
    let e = key_event(KeyName::Character, Some('W'), Mods::cmd());
    assert_eq!(chord_from_keyboard_event(&e), Some(Chord::ch('w', Mods::cmd())));
    let e = key_event(KeyName::Escape, None, Mods::none());
    assert_eq!(chord_from_keyboard_event(&e), Some(Chord::new(KeyRef::Escape, Mods::none())));
}

#[test]
fn repeats_releases_and_unknown_keys_have_no_chord() {
    let mut e = key_event(KeyName::Character, Some('a'), Mods::none());
    e.repeat = true;
    assert_eq!(chord_from_keyboard_event(&e), None);
    let mut e = key_event(KeyName::Enter, None, Mods::none());
    e.pressed = false;
    assert_eq!(chord_from_keyboard_event(&e), None);
    assert_eq!(chord_from_keyboard_event(&key_event(KeyName::Other, None, Mods::none())), None);
    assert_eq!(chord_from_keyboard_event(&key_event(KeyName::Character, None, Mods::none())), None);
}
