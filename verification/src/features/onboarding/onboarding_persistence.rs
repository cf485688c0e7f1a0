//! Whether the first-run onboarding was completed.
//!
//! The flag lives behind [`OnboardingPersistence`]: in memory for tests and
//! embedding, or as a sentinel file whose presence is the flag (the file
//! itself is handled by the application; the library decides its path).

use crate::workspace::workspace_text::{join_path, joined_path};
use vstd::prelude::*;

verus! {

/// Why the flag could not be kept.
#[derive(Debug, Clone, PartialEq, Eq)]
pub enum OnboardingPersistenceError {
    /// No project data directory could be resolved.
    NoProjectDirs,
    /// Writing or removing the sentinel failed.
    Io(String),
}

/// A store for the completed flag.
pub trait OnboardingPersistence: Sized {
    /// The stored flag.
    spec fn completed_spec(&self) -> bool;

    /// Recording completion in store `before` leaves store `after` and
    /// reports `r`: what this store's own marking does.
    spec fn marked(before: Self, after: Self, r: Result<(), OnboardingPersistenceError>) -> bool;

    fn is_completed(&self) -> (r: bool)
        ensures
            r == self.completed_spec(),
    ;

    /// Record completion; once it succeeds the flag is set.
    fn mark_completed(&mut self) -> (r: Result<(), OnboardingPersistenceError>)
        ensures
            Self::marked(*old(self), *final(self), r),
            r is Ok ==> final(self).completed_spec(),
    ;

    /// Clear the flag; once it succeeds the flag is clear.
    fn reset(&mut self) -> (r: Result<(), OnboardingPersistenceError>)
        ensures
            r is Ok ==> !final(self).completed_spec(),
    ;
}

/// The flag in memory, held by one owner: marking goes through `&mut`, so
/// the store is not cloned (a copy would not see later marks).
#[derive(Debug, Default)]
pub struct InMemoryOnboardingPersistence {
    completed: bool,
}

impl InMemoryOnboardingPersistence {
    /// Not completed.
    pub fn new() -> (r: Self)
        ensures
            !r.completed_spec(),
    {
        InMemoryOnboardingPersistence { completed: false }
    }

    /// Already completed.
    pub fn already_completed() -> (r: Self)
        ensures
            r.completed_spec(),
    {
        InMemoryOnboardingPersistence { completed: true }
    }
}

impl OnboardingPersistence for InMemoryOnboardingPersistence {
    closed spec fn completed_spec(&self) -> bool {
        self.completed
    }

    /// Marking always succeeds and sets the flag.
    open spec fn marked(before: Self, after: Self, r: Result<(), OnboardingPersistenceError>) -> bool {
        after.completed_spec() && r == Ok::<(), OnboardingPersistenceError>(())
    }

    fn is_completed(&self) -> (r: bool) {
        self.completed
    }

    fn mark_completed(&mut self) -> (r: Result<(), OnboardingPersistenceError>)
        ensures
            r is Ok,
    {
        self.completed = true;
        Ok(())
    }

    fn reset(&mut self) -> (r: Result<(), OnboardingPersistenceError>)
        ensures
            r is Ok,
    {
        self.completed = false;
        Ok(())
    }
}

/// The sentinel file's name inside the data directory.
pub open spec fn sentinel_file_name() -> Seq<char> {
    "onboarding-completed.flag"@
}

/// The flag as a sentinel file.
#[derive(Debug, Clone)]
pub struct FileOnboardingPersistence {
    sentinel_path: String,
}

impl FileOnboardingPersistence {
    /// The sentinel's path.
    pub closed spec fn path_spec(&self) -> Seq<char> {
        self.sentinel_path@
    }

    /// A store whose sentinel lives in `dir`.
    pub fn new_at(dir: &str) -> (r: Self)
        ensures
            r.path_spec() == joined_path(dir@, sentinel_file_name()),
    {
        FileOnboardingPersistence { sentinel_path: join_path(dir, "onboarding-completed.flag") }
    }

    /// The sentinel's path.
    pub fn sentinel_path(&self) -> (r: &str)
        ensures
            r@ == self.path_spec(),
    {
        self.sentinel_path.as_str()
    }
}

/// Record completion in `persistence`: the outcome and the store after it
/// are those of the store's own marking.
pub fn mark_completed<S: OnboardingPersistence>(persistence: &mut S) -> (r: Result<(), OnboardingPersistenceError>)
    ensures
        S::marked(*old(persistence), *final(persistence), r),
        r is Ok ==> final(persistence).completed_spec(),
{
    persistence.mark_completed()
}

} // verus!
