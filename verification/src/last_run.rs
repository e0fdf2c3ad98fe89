//! The sibling component that reports when the status was last updated.
//! It holds no state and computes nothing; the current time is read and
//! formatted at the display boundary.

use vstd::prelude::*;

verus! {

/// Configuration of the last-updated display component.
#[derive(Clone, Debug, PartialEq, Eq, Structural)]
pub struct LastRun {}

} // verus!
