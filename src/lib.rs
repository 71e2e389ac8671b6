//! Utilities for swapping bytes using patterns and masks.
//!
//! A [`BytePattern`] rewrites a single byte, a [`PositionPredicate`] decides
//! which stream positions a pattern applies to. A ruleset is an ordered slice
//! of `(pattern, predicate)` pairs, folded left to right over each byte.
use vstd::prelude::*;

pub mod io;
pub mod pattern;

verus! {

/// Default buffer size for streaming: 8KB.
pub const BUFFER_SIZE: usize = 8000;

/// Predicate on byte position.
pub trait PositionPredicate {
    /// Whether `position` is selected.
    spec fn selects(&self, position: int) -> bool;

    /// Returns `true` if `position` matches the locality rules, else `false`.
    fn eval(&self, position: usize) -> (r: bool)
        ensures
            r == self.selects(position as int),
    ;
}

/// Pattern on byte.
pub trait BytePattern {
    /// The byte that results from applying the pattern to `value`.
    spec fn applied(&self, value: u8) -> u8;

    /// Returns the value with the pattern applied.
    fn eval(&self, value: u8) -> (r: u8)
        ensures
            r == self.applied(value),
    ;
}

} // verus!
