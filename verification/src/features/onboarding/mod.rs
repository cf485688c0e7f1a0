pub mod onboarding_persistence;
pub mod onboarding_state;
