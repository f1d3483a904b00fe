//! What the web interface decides before and after the outside is asked.
pub mod errors;
pub mod guards;
pub mod resolving;
