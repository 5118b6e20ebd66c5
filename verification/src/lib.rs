//! Core persistence layer of a note-taking application: path confinement
//! for user-supplied names, a directory-backed document store (notes,
//! folders, pin metadata, screenshots), and an in-memory configuration
//! service with a debounced flush schedule.
//!
//! All disk and window-system work is left to the surrounding program;
//! this crate holds the decisions, data shapes and text formats, with
//! machine-checked contracts.

pub mod config;
pub mod jsontext;
pub mod jsonval;
pub mod models;
pub mod paths;
pub mod shortcuts;
pub mod store;
pub mod strutil;
pub mod window;
