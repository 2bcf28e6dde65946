//! Reader, catalog and renderer for polar scan lists.
//!
//! The crate decodes a line-oriented text format of polar samples
//! (angle, range), keeps the decoded scans in an ordered catalog,
//! projects them onto a square canvas as layered drawing paths, and
//! drives the handshake with an external live-preview process.
//!
//! Every numeric quantity is a decimal fixed-point number held in an
//! `i64` counting millionths; see [`fixed`] for the conventions.

pub mod catalog;
pub mod command;
pub mod config;
pub mod fixed;
pub mod previewer;
pub mod ptfl_parse;
pub mod render;
pub mod text;
pub mod trig;
