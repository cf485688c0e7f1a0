pub mod clock;
pub mod counter;
pub mod text;
