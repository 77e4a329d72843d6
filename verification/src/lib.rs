//! Launch-time logic of a Cloud Native Buildpacks launcher: API version rules,
//! process selection, launch environment assembly, shell payloads and error reporting.
pub mod api;
pub mod cli;
pub mod env;
pub mod exec_d;
pub mod exit;
pub mod launch;
pub mod plan;
pub mod laws;
pub mod shell;
pub mod text;
