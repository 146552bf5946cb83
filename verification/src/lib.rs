#![verifier::loop_isolation(false)]
pub mod assets;
pub mod command;
pub mod config;
pub mod dashboard;
pub mod document;
pub mod error;
pub mod strutil;
pub mod transform;
pub mod watch;
pub mod writing;
pub mod yaml;
pub mod yamlio;
