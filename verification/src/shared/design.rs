//! Design system vocabulary: light/dark mode, the resolved theme, and the
//! typed token enums. Concrete colors and metrics are resolved by the
//! renderer around the library; the library only decides which token and
//! which mode apply.

use vstd::prelude::*;

verus! {

/// Light / dark mode selector.
#[derive(Debug, Clone, Copy, PartialEq, Eq, Hash, Structural)]
pub enum ThemeMode {
    Light,
    Dark,
}

/// The other mode.
pub open spec fn toggled(mode: ThemeMode) -> ThemeMode {
    match mode {
        ThemeMode::Light => ThemeMode::Dark,
        ThemeMode::Dark => ThemeMode::Light,
    }
}

impl ThemeMode {
    pub fn toggle(self) -> (r: Self)
        ensures
            r == toggled(self),
    {
        match self {
            ThemeMode::Light => ThemeMode::Dark,
            ThemeMode::Dark => ThemeMode::Light,
        }
    }
}

/// Toggling twice gives the mode back.
pub proof fn lemma_toggle_involutive(mode: ThemeMode)
    ensures
        toggled(toggled(mode)) == mode,
        toggled(mode) != mode,
{
}

/// Resolved theme: the active mode, from which every token resolves.
#[derive(Debug, Clone, Copy, PartialEq, Eq, Structural)]
pub struct OpenZoneTheme {
    pub mode: ThemeMode,
}

impl OpenZoneTheme {
    pub fn from_mode(mode: ThemeMode) -> (t: Self)
        ensures
            t.mode == mode,
    {
        OpenZoneTheme { mode }
    }

    pub fn dark() -> (t: Self)
        ensures
            t.mode == ThemeMode::Dark,
    {
        Self::from_mode(ThemeMode::Dark)
    }

    pub fn light() -> (t: Self)
        ensures
            t.mode == ThemeMode::Light,
    {
        Self::from_mode(ThemeMode::Light)
    }
}

/// Background surface tokens.
#[derive(Debug, Clone, Copy, PartialEq, Eq, Structural)]
pub enum BackgroundToken {
    Primary,
    Secondary,
    Elevated,
    Tertiary,
    GalaxyTint,
}

/// Foreground (text / fill) tokens.
#[derive(Debug, Clone, Copy, PartialEq, Eq, Structural)]
pub enum ForegroundToken {
    Primary,
    Secondary,
    Muted,
    Accent,
}

/// Border / separator tokens.
#[derive(Debug, Clone, Copy, PartialEq, Eq, Structural)]
pub enum BorderToken {
    Default,
    Strong,
    Subtle,
}

/// Status / semantic tokens.
#[derive(Debug, Clone, Copy, PartialEq, Eq, Structural)]
pub enum StatusToken {
    Info,
    Success,
    Warning,
    Danger,
}

/// Accent depth tokens.
#[derive(Debug, Clone, Copy, PartialEq, Eq, Structural)]
pub enum AccentToken {
    Primary,
    Deep,
    Soft,
}

/// Action control tokens.
#[derive(Debug, Clone, Copy, PartialEq, Eq, Structural)]
pub enum ActionToken {
    Strong,
    StrongText,
}

/// Radius scale.
#[derive(Debug, Clone, Copy, PartialEq, Eq, Structural)]
pub enum RadiusToken {
    Xs,
    Sm,
    Md,
    Lg,
    Pill,
}

/// Spacing scale.
#[derive(Debug, Clone, Copy, PartialEq, Eq, Structural)]
pub enum SpacingToken {
    S1,
    S2,
    S3,
    S4,
    S5,
    S6,
    S7,
    S8,
}

/// Typography role.
#[derive(Debug, Clone, Copy, PartialEq, Eq, Structural)]
pub enum TypeRole {
    DisplayXl,
    DisplayLg,
    DisplayMd,
    BodyLg,
    BodyMd,
    LabelMd,
    MonoSm,
    MonoXs,
}

} // verus!
