//! Logic of the `ls` directory lister.

pub mod config;
pub mod links;
pub mod scanner;
pub mod display;
pub mod listing;
