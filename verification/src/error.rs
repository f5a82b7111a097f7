//! The closed set of failure kinds shared between a host and its loader
//! plugins. All three are terminal for the operation that raised them.

use vstd::prelude::*;

verus! {

/// A failure reported across the plugin boundary.
#[derive(Debug, Clone, PartialEq, Eq)]
pub enum Error {
    /// An I/O layer failure, carrying the underlying error's description.
    IoError(String),
    /// A loader-internal failure with a free-text diagnostic.
    Plugin(String),
    /// A named signal lookup failed; carries the name that had no match.
    NotFound(String),
}

} // verus!
