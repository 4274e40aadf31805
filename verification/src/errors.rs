//! Error taxonomy: runtime storage faults and fatal build-time failures.

use vstd::prelude::*;

verus! {

/// A runtime storage fault during a request (for the in-memory store this is
/// a uniqueness conflict; a persistent backend maps its I/O faults here too).
/// It is never used for a failed lookup: absence of a match is a normal
/// outcome, reported as `None`.
#[derive(Clone, Copy, Debug, PartialEq, Eq, Structural)]
pub struct StoreError;

/// A service failed to assemble its routing subtree; fatal to the whole
/// composition.
#[derive(Clone, Copy, Debug, PartialEq, Eq, Structural)]
pub enum BuildError {
    /// The service's configuration could not be loaded.
    Configuration,
    /// The service's storage could not be opened.
    Connection,
    /// The service's storage schema could not be brought current.
    Migration,
}

} // verus!
