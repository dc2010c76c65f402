//! Resolution of a command-line tool's settings from config files,
//! environment variables and arguments, and removal of the tool's global
//! flags from an argument list.
pub mod table;
pub mod strip;
pub mod config;
pub mod env;
pub mod settings;
pub mod layers;
pub mod laws;
