//! A verified formatting pipeline for TOML documents.
//!
//! The crate resolves layered formatting options into one effective
//! configuration, normalizes the entry order of recognized sections in a
//! package manifest, and drives an external parser and printer to produce
//! the final text.

pub mod capabilities;
pub mod configuration;
pub mod conventions;
pub mod format_text;

pub use configuration::Configuration;
pub use configuration::ConfigurationBuilder;
pub use format_text::format_text;
pub use format_text::ParseError;
