//! A build-and-publish orchestrator for container artifacts.
//!
//! The crate drives independent build backends, each of which produces an
//! OCI image layout on disk, assembles the resulting images into an
//! in-memory content-addressable model, and publishes them to an OCI
//! registry with deduplication and bounded concurrency.

pub mod bazel;
pub mod builder;
pub mod canon;
pub mod config;
pub mod deploy;
pub mod digest;
pub mod docker;
pub mod events;
pub mod exec;
pub mod git;
pub mod image;
pub mod json;
pub mod ko;
pub mod nix;
pub mod outputdoc;
pub mod registry;
pub mod text;
