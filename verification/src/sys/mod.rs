//! System helpers: where the external tools are looked for.

pub mod finder;
