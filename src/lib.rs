//! Validation and repair of CODEOWNERS manifests.

pub mod codeowners;
pub mod config;
pub mod github;
pub mod handles;
pub mod issues;
pub mod project;
pub mod repairing;
pub mod round_trip;
pub mod text;
pub mod validation;
