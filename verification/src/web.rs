//! What the web routes decide.

pub mod browse;
pub mod files;
pub mod pastes;
pub mod support;
