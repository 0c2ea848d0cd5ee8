//! Verified core of the aminos command-line tool set: path and name
//! matching, configuration lookups, version ordering, date and size
//! formatting, download request checks and registry record handling.

pub mod text;
pub mod order;
pub mod environ;
pub mod glob;
pub mod rules;
pub mod datetime;
pub mod aspkg;
pub mod config;
pub mod colors;
pub mod ls;
pub mod net;
pub mod sys;
pub mod as4;
pub mod tags;
pub mod tag_table;
pub mod window;
pub mod ss;
