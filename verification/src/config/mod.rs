//! Shared configuration: namespaced environment variables, data folders,
//! third-party source lists and source mirrors.

pub mod env;
pub mod paths;
pub mod sources;
pub mod source;
