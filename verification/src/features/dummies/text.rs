//! The text panel: a single line of editable text.

use crate::workspace::workspace_command::{Chord, KeyRef};
use crate::workspace::workspace_panel::{HandleData, HandleView};
use vstd::prelude::*;

verus! {

/// Text intents.
#[derive(Debug, Clone, PartialEq, Eq)]
pub enum TextMessage {
    Changed(String),
}

/// A text panel.
#[derive(Debug, Clone)]
pub struct TextPanel {
    pub content: String,
}

/// Whether a text input swallows `chord`: plain typing (a character or
/// backspace without the command modifier).
pub open spec fn text_captures(chord: Chord) -> bool {
    !chord.mods.command && (chord.key is Char || chord.key is Backspace)
}

/// The content a handle restores: its `content`, empty when absent.
pub open spec fn handle_content(h: HandleView) -> Seq<char> {
    match h.content {
        Some(c) => c,
        None => Seq::<char>::empty(),
    }
}

impl TextPanel {
    /// An empty text panel.
    pub fn new() -> (r: Self)
        ensures
            r.content@ == Seq::<char>::empty(),
    {
        TextPanel { content: String::new() }
    }

    /// Rehydrate from a handle.
    pub fn from_snapshot(snapshot: &HandleData) -> (r: Self)
        ensures
            r.content@ == handle_content(snapshot.view()),
    {
        match &snapshot.content {
            Some(c) => TextPanel { content: c.clone() },
            None => TextPanel { content: String::new() },
        }
    }

    /// The current content.
    pub fn content(&self) -> (r: &str)
        ensures
            r@ == self.content@,
    {
        self.content.as_str()
    }

    /// Fold a text intent.
    pub fn update(&mut self, message: TextMessage)
        ensures
            match message {
                TextMessage::Changed(v) => final(self).content@ == v@,
            },
    {
        match message {
            TextMessage::Changed(value) => self.content = value,
        }
    }

    /// Whether the input swallows `chord`.
    pub fn captures_chord(&self, chord: Chord) -> (r: bool)
        ensures
            r == text_captures(chord),
    {
        !chord.mods.command && match chord.key {
            KeyRef::Char(_) => true,
            KeyRef::Backspace => true,
            _ => false,
        }
    }

    /// The persisted handle: the content. Always durable.
    pub fn snapshot(&self) -> (r: Option<HandleData>)
        ensures
            r matches Some(h) && h.view() == (HandleView { count: None, ticks: None, content: Some(self.content@) }),
    {
        Some(HandleData { count: None, ticks: None, content: Some(self.content.clone()) })
    }

    /// The tab title.
    pub fn title(&self) -> (r: String)
        ensures
            r@ == "Text"@,
    {
        "Text".to_owned()
    }
}

} // verus!
