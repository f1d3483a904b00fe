//! Downloads: how they are started, followed, stopped and finished.
pub mod progress;
pub mod launch;
pub mod control;
pub mod finish;
pub mod partial;
