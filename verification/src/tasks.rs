//! Tasks: what they are, how they are kept, and how they come about.
pub mod record;
pub mod requests;
pub mod store;
pub mod queue;
pub mod listing;
pub mod rewrite;
pub mod lifecycle;
pub mod parents;
pub mod places;
pub mod duplicates;
pub mod creation;
pub mod deletion;
pub mod journal;
pub mod resolve;
