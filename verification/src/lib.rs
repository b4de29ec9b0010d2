//! Helpers for reviewing the changed-file warnings that Rootkit Hunter emits.

pub mod config;
pub mod dnf;
pub mod error;
pub mod rpm;
pub mod text;
pub mod time;
pub mod utils;
pub mod workflow;
