//! Colour tables of `e`, `env` and `ls`: names mapped to colours, read from a
//! YAML file as "colour: [names]" and laid over built-in defaults, and the
//! ANSI painting of text.

pub mod map;
pub mod e;
pub mod env;
pub mod show;
