//! Turns a pnpm-style workspace into a Docker Bake descriptor: package
//! discovery rules, dependency resolution over sanitized target names, and the
//! two encodings of the resulting descriptor.

pub mod bake;
pub mod config;
pub mod entries;
pub mod error;
pub mod hcl;
pub mod model;
pub mod names;
pub mod order;
pub mod paths;
pub mod plan;
pub mod pnpm;
pub mod text;
pub mod value;
pub mod workspace;
