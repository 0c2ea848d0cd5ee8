//! Logic of `as4`, the earlier, simpler package installer.

pub mod software;
pub mod versions;
pub mod fetch;
