//! Decision core of a one-shot configuration-tree synchronizer.
//!
//! The library plans how a tree of per-context source files is materialized
//! under a destination root: it resolves settings from layered inputs,
//! classifies each source file as text or opaque, renders text files through
//! a template engine, and decides per file between writing it fresh, backing
//! the old file up and replacing it, or leaving it alone.  Every decision is
//! returned as data (a list of filesystem operations) so that a thin shell
//! can carry it out; the contracts in this crate pin down exactly which
//! operations are emitted for which inputs.

pub mod bytes;
pub mod chars;
pub mod classify;
pub mod config;
pub mod contexts;
pub mod driver;
pub mod envparse;
pub mod errors;
pub mod file_system;
pub mod paths;
pub mod reconcile;
pub mod render;
pub mod vars;
