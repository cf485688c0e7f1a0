//! The output dock's reveal policy and its control label.

use crate::workspace::workspace_dock::DockVisibility;
use vstd::prelude::*;

verus! {

/// How output asks to be seen: a passive badge, or a reveal the user
/// asked for.
#[derive(Debug, Clone, Copy, PartialEq, Eq, Hash, Structural)]
pub enum OutputRevealKind {
    Passive,
    UserInvoked,
}

/// The output dock control label: an affordance for the visibility
/// (`▾` open, `▸` collapsed, nothing hidden) before "Output", prefixed
/// with `● ` when badged.
pub open spec fn output_label(visibility: DockVisibility, badged: bool) -> Seq<char> {
    let base = match visibility {
        DockVisibility::Open => "▾ Output"@,
        DockVisibility::Collapsed => "▸ Output"@,
        DockVisibility::Hidden => "Output"@,
    };
    if badged {
        "● "@ + base
    } else {
        base
    }
}

/// The output dock control label (see [`output_label`]).
pub fn output_dock_control_label(visibility: DockVisibility, badged: bool) -> (r: String)
    ensures
        r@ == output_label(visibility, badged),
{
    let base = match visibility {
        DockVisibility::Open => "▾ Output",
        DockVisibility::Collapsed => "▸ Output",
        DockVisibility::Hidden => "Output",
    };
    if badged {
        crate::workspace::workspace_text::concat_str("● ", base)
    } else {
        base.to_owned()
    }
}

} // verus!
