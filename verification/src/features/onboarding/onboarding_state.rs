//! The first-run onboarding screen's state machine.
//!
//! The animated parts (orb hold progress, card glow, timing) are driven
//! by the renderer's clock; this state keeps the discrete choices and
//! decides the outcome of each message.

use crate::shared::design::{toggled, OpenZoneTheme, ThemeMode};
use vstd::prelude::*;

verus! {

/// Number of feature cards.
pub const FEATURE_COUNT: usize = 4;

/// The feature cards, in order.
#[derive(Debug, Clone, Copy, PartialEq, Eq, Hash, Structural)]
pub enum FeatureKind {
    Chat,
    Terminal,
    TextEditor,
    Rust,
}

/// What the onboarding screen reports to its host.
#[derive(Debug, Clone, Copy, PartialEq, Eq, Structural)]
pub enum OnboardingOutcome {
    Nothing,
    ThemeToggled(ThemeMode),
    Completed,
    Skipped,
}

/// Onboarding input.
#[derive(Debug, Clone, Copy, PartialEq, Eq)]
pub enum OnboardingMessage {
    /// A frame tick; its timing is the renderer's.
    Tick,
    ToggleTheme,
    OrbPressed,
    OrbReleased,
    FeatureSelected(usize),
    FeatureHovered(Option<usize>),
    EnterPressed,
    Skipped,
}

/// The discrete onboarding state.
#[derive(Debug, Clone, Copy, PartialEq, Eq, Structural)]
pub struct OnboardingState {
    pub theme: OpenZoneTheme,
    pub theme_mode: ThemeMode,
    pub selected_feature: usize,
    pub hovered_feature: Option<usize>,
    pub is_holding: bool,
}

/// The state and outcome after a message: selection and hover only take
/// card indices in range; enter completes and skip skips.
pub open spec fn onboarding_step(s: OnboardingState, m: OnboardingMessage) -> (OnboardingState, OnboardingOutcome) {
    match m {
        OnboardingMessage::Tick => (s, OnboardingOutcome::Nothing),
        OnboardingMessage::ToggleTheme => {
            let mode = toggled(s.theme_mode);
            (OnboardingState { theme_mode: mode, theme: OpenZoneTheme { mode }, ..s }, OnboardingOutcome::ThemeToggled(mode))
        },
        OnboardingMessage::OrbPressed => (OnboardingState { is_holding: true, ..s }, OnboardingOutcome::Nothing),
        OnboardingMessage::OrbReleased => (OnboardingState { is_holding: false, ..s }, OnboardingOutcome::Nothing),
        OnboardingMessage::FeatureSelected(i) => (
            if i < FEATURE_COUNT { OnboardingState { selected_feature: i, ..s } } else { s },
            OnboardingOutcome::Nothing,
        ),
        OnboardingMessage::FeatureHovered(h) => (
            OnboardingState {
                hovered_feature: match h {
                    Some(i) => if i < FEATURE_COUNT { Some(i) } else { None },
                    None => None,
                },
                ..s
            },
            OnboardingOutcome::Nothing,
        ),
        OnboardingMessage::EnterPressed => (s, OnboardingOutcome::Completed),
        OnboardingMessage::Skipped => (s, OnboardingOutcome::Skipped),
    }
}

/// The onboarding state at launch: the first card selected, nothing
/// hovered or held.
pub open spec fn initial_onboarding(theme_mode: ThemeMode) -> OnboardingState {
    OnboardingState {
        theme: OpenZoneTheme { mode: theme_mode },
        theme_mode,
        selected_feature: 0,
        hovered_feature: None,
        is_holding: false,
    }
}

impl OnboardingState {
    /// The first card selected, nothing hovered or held.
    pub fn new(theme_mode: ThemeMode) -> (r: Self)
        ensures
            r == initial_onboarding(theme_mode),
    {
        OnboardingState {
            theme: OpenZoneTheme::from_mode(theme_mode),
            theme_mode,
            selected_feature: 0,
            hovered_feature: None,
            is_holding: false,
        }
    }

    /// Fold a message (see [`onboarding_step`]).
    pub fn update(&mut self, message: OnboardingMessage) -> (r: OnboardingOutcome)
        ensures
            (*final(self), r) == onboarding_step(*old(self), message),
    {
        match message {
            OnboardingMessage::Tick => OnboardingOutcome::Nothing,
            OnboardingMessage::ToggleTheme => {
                self.theme_mode = self.theme_mode.toggle();
                self.theme = OpenZoneTheme::from_mode(self.theme_mode);
                OnboardingOutcome::ThemeToggled(self.theme_mode)
            },
            OnboardingMessage::OrbPressed => {
                self.is_holding = true;
                OnboardingOutcome::Nothing
            },
            OnboardingMessage::OrbReleased => {
                self.is_holding = false;
                OnboardingOutcome::Nothing
            },
            OnboardingMessage::FeatureSelected(index) => {
                if index < FEATURE_COUNT {
                    self.selected_feature = index;
                }
                OnboardingOutcome::Nothing
            },
            OnboardingMessage::FeatureHovered(index) => {
                self.hovered_feature = match index {
                    Some(i) => if i < FEATURE_COUNT { Some(i) } else { None },
                    None => None,
                };
                OnboardingOutcome::Nothing
            },
            OnboardingMessage::EnterPressed => OnboardingOutcome::Completed,
            OnboardingMessage::Skipped => OnboardingOutcome::Skipped,
        }
    }
}

} // verus!
