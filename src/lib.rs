//! A launcher's library for local Jupyter Lab servers: it reads the status
//! listing of running servers, builds session records from their links, tracks
//! the one child process it started, and computes what a launch hands over.

pub mod text;
pub mod error;
pub mod session;
pub mod status;
pub mod registry;
pub mod launch;
pub mod config;
pub mod status_laws;
