//! Project detection and local build orchestration, verified with Verus.
pub mod abort;
pub mod execution;
pub mod json;
pub mod monorepo;
pub mod project_detection;
pub mod text;
pub mod version;
