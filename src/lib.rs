//! Assembly of a logging configuration from a parsed configuration tree,
//! with components built by a registry of pluggable deserializers.

pub mod level;
pub mod registry;
pub mod config;
pub mod threshold;
