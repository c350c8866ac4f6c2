//! Verified core of a GitHub notification monitor: parsing of `Link`
//! pagination headers, a paginated fetch state machine, and reason-count
//! aggregation.

pub mod block;
pub mod fetch;
pub mod json;
pub mod links;
pub mod tally;

use vstd::prelude::*;

verus! {

/// What can go wrong, from construction to one update cycle.
#[derive(Debug, Clone, Copy, PartialEq, Eq, Structural)]
pub enum BlockError {
    /// No credential was supplied at construction time.
    MissingCredential,
    /// The display template was rejected at construction time.
    InvalidFormatTemplate,
    /// A page request failed; the current cycle is abandoned.
    TransportError,
    /// A page body was not an array of records; the current cycle is
    /// abandoned.
    DecodeError,
    /// Rendering an otherwise successful tally failed; only this cycle's
    /// display update is lost.
    RenderError,
}

} // verus!
