use openzone::features::onboarding::onboarding_persistence::{
    mark_completed, FileOnboardingPersistence, InMemoryOnboardingPersistence, OnboardingPersistence,
};
use openzone::features::onboarding::onboarding_state::{
    OnboardingMessage, OnboardingOutcome, OnboardingState, FEATURE_COUNT,
};
use openzone::shared::design::ThemeMode;

#[test]
fn round_trips() {
    let mut store = InMemoryOnboardingPersistence::new();
    assert!(!store.is_completed());
    store.mark_completed().unwrap();
    assert!(store.is_completed());
}

#[test]
fn marking_twice_keeps_the_flag() {
    let mut store = InMemoryOnboardingPersistence::new();
    assert_eq!(store.mark_completed(), Ok(()));
    assert_eq!(store.mark_completed(), Ok(()));
    assert!(store.is_completed());
}

#[test]
fn reset_clears() {
    let mut store = InMemoryOnboardingPersistence::already_completed();
    store.reset().unwrap();
    assert!(!store.is_completed());
}

#[test]
fn free_mark_completed_sets_the_flag() {
    let mut store = InMemoryOnboardingPersistence::new();
    assert_eq!(mark_completed(&mut store), Ok(()));
    assert!(store.is_completed());
}

#[test]
fn sentinel_path_is_inside_the_directory() {
    let store = FileOnboardingPersistence::new_at("/tmp/openzone-data");
    assert_eq!(store.sentinel_path(), "/tmp/openzone-data/onboarding-completed.flag");
}

#[test]
fn enter_yields_completed() {
    let mut state = OnboardingState::new(ThemeMode::Dark);
    let outcome = state.update(OnboardingMessage::EnterPressed);
    assert_eq!(outcome, OnboardingOutcome::Completed);
}

#[test]
fn feature_selection_updates_index() {
    let mut state = OnboardingState::new(ThemeMode::Dark);
    assert_eq!(state.selected_feature, 0);
    state.update(OnboardingMessage::FeatureSelected(2));
    assert_eq!(state.selected_feature, 2);
}

#[test]
fn feature_selection_clamps_to_valid_range() {
    let mut state = OnboardingState::new(ThemeMode::Dark);
    state.update(OnboardingMessage::FeatureSelected(99));
    assert_eq!(state.selected_feature, 0);
}

#[test]
fn skip_yields_skipped() {
    let mut state = OnboardingState::new(ThemeMode::Light);
    assert_eq!(state.update(OnboardingMessage::Skipped), OnboardingOutcome::Skipped);
}

#[test]
fn toggle_theme_reports_new_mode() {
    let mut state = OnboardingState::new(ThemeMode::Dark);
    assert_eq!(
        state.update(OnboardingMessage::ToggleTheme),
        OnboardingOutcome::ThemeToggled(ThemeMode::Light)
    );
    assert_eq!(state.theme_mode, ThemeMode::Light);
    assert_eq!(
        state.update(OnboardingMessage::ToggleTheme),
        OnboardingOutcome::ThemeToggled(ThemeMode::Dark)
    );
}

#[test]
fn hover_outside_the_cards_clears_hover() {
    let mut state = OnboardingState::new(ThemeMode::Dark);
    state.update(OnboardingMessage::FeatureHovered(Some(FEATURE_COUNT - 1)));
    assert_eq!(state.hovered_feature, Some(FEATURE_COUNT - 1));
    state.update(OnboardingMessage::FeatureHovered(Some(FEATURE_COUNT)));
    assert_eq!(state.hovered_feature, None);
}

#[test]
fn orb_press_and_release_track_holding() {
    let mut state = OnboardingState::new(ThemeMode::Dark);
    assert_eq!(state.update(OnboardingMessage::OrbPressed), OnboardingOutcome::Nothing);
    assert!(state.is_holding);
    state.update(OnboardingMessage::OrbReleased);
    assert!(!state.is_holding);
}
