//! Discover buildable targets of a cargo project tree and pick one of them
//! by incremental fuzzy search.
//!
//! The crate is organised leaf-first:
//! - [`strings`] holds verified text primitives: trimming, prefix and
//!   substring tests, and the lexicographic order that ranking ties are
//!   broken by.
//! - [`select`] defines the [`select::Target`] data model, its display
//!   strings, and the fuzzy scorer with its ranking order.
//! - [`manifest`] resolves a workspace of cargo manifests into a flat
//!   target list through an explicit work-list state machine.
//! - [`get_tests`] extracts test functions from source text.
//! - [`tui`] holds the interactive selector's session state machine,
//!   windowing and cursor arithmetic.
//! - [`cli`] turns a parsed command line and a selected target into a
//!   concrete cargo invocation.

pub mod cli;
pub mod get_tests;
pub mod manifest;
pub mod select;
pub mod strings;
pub mod tui;
