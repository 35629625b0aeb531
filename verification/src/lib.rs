//! Build-time interpreter version gate.
//!
//! The library parses a dotted version string into its numeric components
//! and applies a fixed rule table to decide between a silent pass, one or
//! two advisories, or a fatal rejection. Reading the environment and
//! emitting messages is left to the caller; every decision made here is
//! verified.

pub mod gate;
pub mod parse;
