//! A verified streaming search-and-replace engine.
//!
//! The crate rewrites a text by running an ordered list of rules over it.
//! Each rule pairs a compiled search pattern with a compiled replacement
//! plan; a pass scans the text left to right, keeps the spans between
//! matches, drops each matched span and inserts its expanded replacement.
//! Later rules see the output of earlier rules.

pub mod engine;
pub mod errors;
pub mod modifiers;
pub mod paths;
pub mod re;
pub mod runner;
pub mod template;
