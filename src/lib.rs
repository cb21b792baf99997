//! Directory-scoped environment loading: locating a configuration file,
//! turning it into variables, and tracking how deeply sessions are nested.
pub mod error;
pub mod path;
pub mod locate;
pub mod variables;
pub mod level;
pub mod config;
pub mod shell;
pub mod dingus;
pub mod catalog;
pub mod laws;
