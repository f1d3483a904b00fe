//! What the bridge promises, in terms of what goes in and what comes out.
pub mod words;
pub mod media;
pub mod endings;
pub mod commands;
pub mod progress;
pub mod orders;
pub mod states;
pub mod lists;
pub mod library;
pub mod web;
pub mod host;
pub mod answers;
