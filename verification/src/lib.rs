//! Verified core of a BLHA (Binary Les Houches Accord) one-loop-provider
//! interface: an order-file parser, the contract data model, and the
//! decision logic of the provider binding and phase-space sampling loop.
#![verifier::loop_isolation(false)]

pub mod bytes;
pub mod contract;
pub mod values;
pub mod error;
pub mod parser;
pub mod olp;
pub mod model;
pub mod gosam;

use vstd::prelude::*;

verus! {

/// Scale configuration for phase-space sampling: either a fixed invariant
/// mass squared or one drawn uniformly from a range.
pub enum Scale<F> {
    Fixed(F),
    Uniform { min: F, max: F },
}

} // verus!
