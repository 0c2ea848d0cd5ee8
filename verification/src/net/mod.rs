//! Download logic: browser fingerprints and request headers, request
//! checks, backends and their availability, file type detection and
//! progress text.

pub mod agent;
pub mod validator;
pub mod backend;
pub mod config;
pub mod verify;
pub mod download;
pub mod aria2;
pub mod range;
pub mod ureq;
