//! The error surface: configuration faults are fatal and reported
//! before any text is rewritten; per-pass faults are isolated to the
//! text they came from.

use vstd::prelude::*;

verus! {

/// A configuration fault, reported before any file is touched.
#[derive(Debug)]
pub enum ConfigError {
    /// The search pattern was rejected by the pattern compiler.
    BadRegex(regex::Error),
    /// A replacement template names a modifier that is not registered.
    UnknownModifier(Vec<u8>),
    /// A replacement template's capture-group number does not fit the
    /// machine's word size.
    GroupTooBig,
    /// An unescaped marker in a replacement template has no group
    /// number at all.
    EmptyGroupNumber,
    /// There are not as many replacement templates as search patterns.
    UnequalCounts,
}

/// A per-pass fault.
#[derive(Clone, Copy, PartialEq, Eq, Structural, Debug)]
pub enum RunError {
    /// A replacement refers to a capture group that the match did not
    /// provide.
    MissingGroup(usize),
}

} // verus!
