pub mod dummies;
pub mod feature_panel;
pub mod onboarding;
pub mod scratch;
pub mod layout_round_trip;
