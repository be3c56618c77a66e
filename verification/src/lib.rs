//! Build logic of a cargo subcommand that compiles Rust crates for the
//! PlayStation and packs them into a CD image.

pub mod args;
pub mod assets;
pub mod commands;
pub mod process_error;
pub mod text;
pub mod xml;
pub mod xml_support;
