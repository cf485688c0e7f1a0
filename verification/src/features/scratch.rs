//! The scratch panel: an untitled, never-persisted text buffer.
//!
//! The editing engine belongs to the renderer; the panel keeps the text
//! and the cursor position the engine reports after each edit.

use crate::workspace::workspace_panel::{CloseRequest, HandleData};
use crate::workspace::workspace_text::{concat_str, decimal, decimal_string};
use vstd::prelude::*;

verus! {

/// The buffer after an edit, as the editing engine reports it.
#[derive(Debug, Clone, PartialEq, Eq)]
pub enum ScratchMessage {
    Edited { text: String, line: usize, column: usize },
}

/// A scratch buffer.
#[derive(Debug, Clone)]
pub struct ScratchPanel {
    pub text: String,
    pub line: usize,
    pub column: usize,
}

/// The status segments of a buffer whose cursor is at zero-based `line`
/// and `column`.
pub open spec fn scratch_status(line: nat, column: nat) -> Seq<Seq<char>> {
    seq!["Ln "@ + decimal(line + 1) + ", Col "@ + decimal(column + 1), "Plain Text"@]
}

/// The prompt shown before a dirty scratch buffer is discarded.
pub open spec fn scratch_discard_prompt() -> Seq<char> {
    "Discard changes to untitled?"@
}

impl ScratchPanel {
    /// An empty buffer with the cursor at the start.
    pub fn new() -> (r: Self)
        ensures
            r.text@ == Seq::<char>::empty(),
            r.line == 0,
            r.column == 0,
    {
        ScratchPanel { text: String::new(), line: 0, column: 0 }
    }

    /// Fold an edit.
    pub fn update(&mut self, message: ScratchMessage)
        ensures
            match message {
                ScratchMessage::Edited { text, line, column } => final(self).text@ == text@
                    && final(self).line == line && final(self).column == column,
            },
    {
        match message {
            ScratchMessage::Edited { text, line, column } => {
                self.text = text;
                self.line = line;
                self.column = column;
            },
        }
    }

    /// The tab title.
    pub fn title(&self) -> (r: String)
        ensures
            r@ == "untitled"@,
    {
        "untitled".to_owned()
    }

    /// What closing asks: confirmation while the buffer is dirty.
    pub fn close_request(&self) -> (r: CloseRequest)
        ensures
            (r is Confirm) == (self.text@.len() > 0),
            r matches CloseRequest::Confirm { message } ==> message@ == scratch_discard_prompt(),
    {
        if self.is_dirty() {
            CloseRequest::Confirm { message: "Discard changes to untitled?".to_owned() }
        } else {
            CloseRequest::Allowed
        }
    }

    /// A scratch buffer is never persisted.
    pub fn snapshot(&self) -> (r: Option<HandleData>)
        ensures
            r is None,
    {
        None
    }

    /// Whether the buffer holds text.
    pub fn is_dirty(&self) -> (r: bool)
        ensures
            r == (self.text@.len() > 0),
    {
        self.text.unicode_len() > 0
    }

    /// The status bar segments: the one-based cursor position and the
    /// language.
    pub fn status_segments(&self) -> (r: Vec<String>)
        ensures
            r@.map_values(|seg: String| seg@) == scratch_status(self.line as nat, self.column as nat),
    {
        let line = decimal_string((self.line as u128) + 1);
        let column = decimal_string((self.column as u128) + 1);
        let a = concat_str("Ln ", line.as_str());
        let b = concat_str(a.as_str(), ", Col ");
        let position = concat_str(b.as_str(), column.as_str());
        let mut out: Vec<String> = Vec::new();
        out.push(position);
        out.push("Plain Text".to_owned());
        proof {
            assert(out@.map_values(|seg: String| seg@) =~= scratch_status(self.line as nat, self.column as nat));
        }
        out
    }
}

} // verus!
