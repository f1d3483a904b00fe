//! The library: the folders and files below the download root.
pub mod changes;
pub mod errors;
pub mod names;
pub mod opening;
pub mod places;
pub mod requests;
pub mod tree;
