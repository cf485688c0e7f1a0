//! Workspace commands and the keymap that drives them.
//!
//! Key routing is panel-first: the focused panel may consume a chord;
//! otherwise the chord bubbles to the workspace [`Keymap`], which resolves
//! it to a [`Command`].

use crate::workspace::workspace_location::DockSide;
use vstd::prelude::*;

verus! {

/// A workspace-level action.
#[derive(Debug, Clone, Copy, PartialEq, Eq, Hash, Structural)]
pub enum Command {
    /// Open a dock (Hidden→Open, Collapsed→Open, Open→no-op).
    OpenDock(DockSide),
    /// Collapse a dock to its rail.
    CollapseDock(DockSide),
    /// Hide a dock.
    HideDock(DockSide),
    /// Split the focused center pane; a no-op when a dock is focused.
    SplitFocused,
    /// Close the active tab of the focused pane or dock.
    CloseActiveTab,
}

/// A keyboard modifier set, reduced to what the keymap binds on.
#[derive(Debug, Clone, Copy, PartialEq, Eq, Hash, Structural)]
pub struct Mods {
    pub command: bool,
    pub shift: bool,
    pub alt: bool,
}

impl Mods {
    /// No modifier held.
    pub fn none() -> (r: Mods)
        ensures
            r == Mods::none_spec(),
    {
        Mods { command: false, shift: false, alt: false }
    }

    /// Primary accelerator (Cmd on macOS, Ctrl elsewhere).
    pub fn cmd() -> (r: Mods)
        ensures
            r == Mods::cmd_spec(),
    {
        Mods { command: true, shift: false, alt: false }
    }

    /// Primary accelerator plus shift.
    pub fn cmd_shift() -> (r: Mods)
        ensures
            r == (Mods { command: true, shift: true, alt: false }),
    {
        Mods { command: true, shift: true, alt: false }
    }

    pub open spec fn none_spec() -> Mods {
        Mods { command: false, shift: false, alt: false }
    }

    pub open spec fn cmd_spec() -> Mods {
        Mods { command: true, shift: false, alt: false }
    }

    /// The same set with shift added.
    pub fn with_shift(self) -> (r: Self)
        ensures
            r == (Mods { shift: true, ..self }),
    {
        Mods { shift: true, ..self }
    }
}

impl Default for Mods {
    fn default() -> (r: Self)
        ensures
            r == (Mods { command: false, shift: false, alt: false }),
    {
        Mods { command: false, shift: false, alt: false }
    }
}

/// A keyboard key, reduced to the subset the keymap binds.
#[derive(Debug, Clone, Copy, PartialEq, Eq, Hash, Structural)]
pub enum KeyRef {
    Char(char),
    Backspace,
    Escape,
    Enter,
    ArrowUp,
    ArrowDown,
}

/// A key plus its modifier set.
#[derive(Debug, Clone, Copy, PartialEq, Eq, Hash, Structural)]
pub struct Chord {
    pub key: KeyRef,
    pub mods: Mods,
}

/// ASCII letters mapped to lower case; every other character unchanged.
pub open spec fn ascii_lower(c: char) -> char {
    if 'A' <= c && c <= 'Z' {
        ((c as u32) + 32) as char
    } else {
        c
    }
}

/// `char::to_ascii_lowercase`, written out.
pub fn to_ascii_lowercase(c: char) -> (r: char)
    ensures
        r == ascii_lower(c),
{
    if 'A' <= c && c <= 'Z' {
        let code: u8 = (c as u8) + 32;
        assert(code as u32 == (c as u32) + 32);
        code as char
    } else {
        c
    }
}

impl Chord {
    pub fn new(key: KeyRef, mods: Mods) -> (r: Self)
        ensures
            r == (Chord { key, mods }),
    {
        Chord { key, mods }
    }

    /// A character chord; the character is lower-cased so chords differ
    /// by the shift modifier, never by letter case.
    pub fn ch(c: char, mods: Mods) -> (r: Self)
        ensures
            r == (Chord { key: KeyRef::Char(ascii_lower(c)), mods }),
    {
        Chord { key: KeyRef::Char(to_ascii_lowercase(c)), mods }
    }
}

/// The key of a keyboard event, as the windowing layer names it.
#[derive(Debug, Clone, Copy, PartialEq, Eq, Structural)]
pub enum KeyName {
    Backspace,
    Escape,
    Enter,
    ArrowUp,
    ArrowDown,
    /// A key that produces a character.
    Character,
    /// Any other key.
    Other,
}

/// A keyboard event reduced to plain values: whether it is a key press,
/// whether it is an auto-repeat, which key, the Latin character the key
/// stands for on the active layout (for a character key, when there is
/// one), and the modifiers held.
#[derive(Debug, Clone, Copy, PartialEq, Eq, Structural)]
pub struct KeyEvent {
    pub pressed: bool,
    pub repeat: bool,
    pub key: KeyName,
    pub latin: Option<char>,
    pub mods: Mods,
}

/// The chord of a key event: presses only, repeats ignored; the five
/// named keys map to themselves and a character key to its lower-cased
/// Latin character; anything else has no chord.
pub open spec fn event_chord(e: KeyEvent) -> Option<Chord> {
    if !e.pressed || e.repeat {
        None
    } else {
        match e.key {
            KeyName::Backspace => Some(Chord { key: KeyRef::Backspace, mods: e.mods }),
            KeyName::Escape => Some(Chord { key: KeyRef::Escape, mods: e.mods }),
            KeyName::Enter => Some(Chord { key: KeyRef::Enter, mods: e.mods }),
            KeyName::ArrowUp => Some(Chord { key: KeyRef::ArrowUp, mods: e.mods }),
            KeyName::ArrowDown => Some(Chord { key: KeyRef::ArrowDown, mods: e.mods }),
            KeyName::Character => match e.latin {
                Some(c) => Some(Chord { key: KeyRef::Char(ascii_lower(c)), mods: e.mods }),
                None => None,
            },
            KeyName::Other => None,
        }
    }
}

/// The chord a keyboard event stands for (see [`event_chord`]).
pub fn chord_from_keyboard_event(event: &KeyEvent) -> (r: Option<Chord>)
    ensures
        r == event_chord(*event),
{
    if !event.pressed || event.repeat {
        return None;
    }
    let key = match event.key {
        KeyName::Backspace => KeyRef::Backspace,
        KeyName::Escape => KeyRef::Escape,
        KeyName::Enter => KeyRef::Enter,
        KeyName::ArrowUp => KeyRef::ArrowUp,
        KeyName::ArrowDown => KeyRef::ArrowDown,
        KeyName::Character => match event.latin {
            Some(c) => KeyRef::Char(to_ascii_lowercase(c)),
            None => {
                return None;
            },
        },
        KeyName::Other => {
            return None;
        },
    };
    Some(Chord { key, mods: event.mods })
}

/// The command bound to `chord` in a binding list whose chords are unique.
pub open spec fn binding_of(bindings: Seq<(Chord, Command)>, chord: Chord) -> Option<Command> {
    if exists|i: int| 0 <= i < bindings.len() && #[trigger] bindings[i].0 == chord {
        Some(
            bindings[choose|i: int| 0 <= i < bindings.len() && #[trigger] bindings[i].0 == chord].1,
        )
    } else {
        None
    }
}

/// No chord is bound twice.
pub open spec fn chords_unique(bindings: Seq<(Chord, Command)>) -> bool {
    forall|i: int, j: int|
        0 <= i < bindings.len() && 0 <= j < bindings.len() && i != j ==> #[trigger] bindings[i].0
            != #[trigger] bindings[j].0
}

proof fn lemma_binding_at(bindings: Seq<(Chord, Command)>, i: int)
    requires
        chords_unique(bindings),
        0 <= i < bindings.len(),
    ensures
        binding_of(bindings, bindings[i].0) == Some(bindings[i].1),
{
    let c = bindings[i].0;
    assert(exists|k: int| 0 <= k < bindings.len() && #[trigger] bindings[k].0 == c);
    let k = choose|k: int| 0 <= k < bindings.len() && #[trigger] bindings[k].0 == c;
    assert(k == i);
}

/// Workspace keybinding table: chord → command, exact-match lookups.
#[derive(Debug, Clone)]
pub struct Keymap {
    bindings: Vec<(Chord, Command)>,
}

impl Keymap {
    /// The bindings in the order they were first made.
    pub closed spec fn bindings(&self) -> Seq<(Chord, Command)> {
        self.bindings@
    }

    /// What `chord` resolves to.
    pub open spec fn binding(&self, chord: Chord) -> Option<Command> {
        binding_of(self.bindings(), chord)
    }

    pub open spec fn wf(&self) -> bool {
        chords_unique(self.bindings())
    }

    /// An empty keymap.
    pub fn new() -> (k: Self)
        ensures
            k.wf(),
            k.bindings() == Seq::<(Chord, Command)>::empty(),
            forall|c: Chord| #[trigger] k.binding(c) is None,
    {
        Keymap { bindings: Vec::new() }
    }

    /// Bind a chord to a command, replacing any existing binding of the
    /// same chord. Returns `&mut self` for fluent setup.
    pub fn bind(&mut self, chord: Chord, command: Command) -> (r: &mut Self)
        requires
            old(self).wf(),
        ensures
            r.wf(),
            *final(self) == *final(r),
            forall|c: Chord| #[trigger]
                r.binding(c) == (if c == chord {
                    Some(command)
                } else {
                    old(self).binding(c)
                }),
            r.bindings().len() == old(self).bindings().len() + (if old(self).binding(chord) is None {
                1int
            } else {
                0int
            }),
    {
        self.insert_binding(chord, command);
        self
    }

    fn insert_binding(&mut self, chord: Chord, command: Command)
        requires
            old(self).wf(),
        ensures
            final(self).wf(),
            forall|c: Chord| #[trigger]
                final(self).binding(c) == (if c == chord {
                    Some(command)
                } else {
                    old(self).binding(c)
                }),
            final(self).bindings().len() == old(self).bindings().len() + (if old(
                self,
            ).binding(chord) is None {
                1int
            } else {
                0int
            }),
    {
        let n = self.bindings.len();
        let mut i: usize = 0;
        while i < n
            invariant
                n == self.bindings@.len(),
                i <= n,
                chords_unique(self.bindings@),
                self.bindings@ == old(self).bindings@,
                forall|k: int| 0 <= k < i ==> #[trigger] self.bindings@[k].0 != chord,
            decreases n - i,
        {
            if self.bindings[i].0 == chord {
                let ghost before = self.bindings@;
                self.bindings.set(i, (chord, command));
                proof {
                    let after = self.bindings@;
                    assert(chords_unique(after));
                    lemma_binding_at(before, i as int);
                    lemma_binding_at(after, i as int);
                    assert forall|c: Chord| #[trigger]
                        binding_of(after, c) == (if c == chord {
                            Some(command)
                        } else {
                            binding_of(before, c)
                        }) by {
                        if c != chord {
                            if exists|k: int| 0 <= k < before.len() && #[trigger] before[k].0 == c {
                                let k = choose|k: int|
                                    0 <= k < before.len() && #[trigger] before[k].0 == c;
                                lemma_binding_at(before, k);
                                lemma_binding_at(after, k);
                            } else {
                                assert forall|k: int| 0 <= k < after.len() implies #[trigger] after[k].0
                                    != c by {
                                    if k != i {
                                        assert(after[k] == before[k]);
                                    }
                                }
                            }
                        }
                    }
                }
                return;
            }
            i += 1;
        }
        let ghost before = self.bindings@;
        self.bindings.push((chord, command));
        proof {
            let after = self.bindings@;
            assert(after[n as int] == (chord, command));
            assert(chords_unique(after));
            lemma_binding_at(after, n as int);
            assert(!(exists|k: int| 0 <= k < before.len() && #[trigger] before[k].0 == chord));
            assert forall|c: Chord| #[trigger]
                binding_of(after, c) == (if c == chord {
                    Some(command)
                } else {
                    binding_of(before, c)
                }) by {
                if c != chord {
                    if exists|k: int| 0 <= k < before.len() && #[trigger] before[k].0 == c {
                        let k = choose|k: int| 0 <= k < before.len() && #[trigger] before[k].0 == c;
                        lemma_binding_at(before, k);
                        assert(after[k] == before[k]);
                        lemma_binding_at(after, k);
                    } else {
                        assert forall|k: int| 0 <= k < after.len() implies #[trigger] after[k].0
                            != c by {
                            if k < n {
                                assert(after[k] == before[k]);
                            }
                        }
                    }
                }
            }
        }
    }

    /// Resolve a chord to its bound command, if any.
    pub fn resolve(&self, chord: Chord) -> (r: Option<Command>)
        requires
            self.wf(),
        ensures
            r == self.binding(chord),
    {
        let n = self.bindings.len();
        let mut i: usize = 0;
        while i < n
            invariant
                n == self.bindings@.len(),
                i <= n,
                chords_unique(self.bindings@),
                forall|k: int| 0 <= k < i ==> #[trigger] self.bindings@[k].0 != chord,
            decreases n - i,
        {
            if self.bindings[i].0 == chord {
                proof {
                    lemma_binding_at(self.bindings@, i as int);
                }
                return Some(self.bindings[i].1);
            }
            i += 1;
        }
        None
    }

    /// Number of bound chords.
    pub fn len(&self) -> (n: usize)
        ensures
            n == self.bindings().len(),
    {
        self.bindings.len()
    }

    pub fn is_empty(&self) -> (b: bool)
        ensures
            b == (self.bindings().len() == 0),
    {
        self.bindings.len() == 0
    }
}

/// The shipped bindings: `Cmd+1/2/3` open the left / right / bottom dock,
/// `Cmd+D` splits the focused pane, `Cmd+W` closes the active tab.
pub open spec fn shipped_binding(chord: Chord) -> Option<Command> {
    if chord == Chord::ch_spec('1', Mods::cmd_spec()) {
        Some(Command::OpenDock(DockSide::Left))
    } else if chord == Chord::ch_spec('2', Mods::cmd_spec()) {
        Some(Command::OpenDock(DockSide::Right))
    } else if chord == Chord::ch_spec('3', Mods::cmd_spec()) {
        Some(Command::OpenDock(DockSide::Bottom))
    } else if chord == Chord::ch_spec('d', Mods::cmd_spec()) {
        Some(Command::SplitFocused)
    } else if chord == Chord::ch_spec('w', Mods::cmd_spec()) {
        Some(Command::CloseActiveTab)
    } else {
        None
    }
}

impl Chord {
    pub open spec fn ch_spec(c: char, mods: Mods) -> Chord {
        Chord { key: KeyRef::Char(ascii_lower(c)), mods }
    }
}

impl Default for Keymap {
    /// The shipped workspace bindings (see [`shipped_binding`]).
    fn default() -> (k: Self)
        ensures
            k.wf(),
            k.bindings().len() == 5,
            forall|c: Chord| #[trigger] k.binding(c) == shipped_binding(c),
    {
        let mut keymap = Keymap::new();
        keymap.bind(Chord::ch('1', Mods::cmd()), Command::OpenDock(DockSide::Left));
        keymap.bind(Chord::ch('2', Mods::cmd()), Command::OpenDock(DockSide::Right));
        keymap.bind(Chord::ch('3', Mods::cmd()), Command::OpenDock(DockSide::Bottom));
        keymap.bind(Chord::ch('d', Mods::cmd()), Command::SplitFocused);
        keymap.bind(Chord::ch('w', Mods::cmd()), Command::CloseActiveTab);
        keymap
    }
}

} // verus!
