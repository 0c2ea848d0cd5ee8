//! Logic of the `as` package manager.

pub mod software;
pub mod list;
pub mod locate;
pub mod install;
pub mod rows;
pub mod table;
pub mod url_plan;
