//! What every holder of histograms can be asked to do.

use vstd::prelude::*;
use crate::error::Error;

verus! {

/// The check of all histograms that a value holds: each is looked through
/// and brought into its sorted state, and the first failure, if there is
/// one, is returned.
pub trait DvhCheck {
    /// Every histogram that the value holds is sorted, and so ready for
    /// queries.
    spec fn ready(&self) -> bool;

    /// Checks the histograms. After a check that succeeded they are
    /// [`ready`](DvhCheck::ready).
    fn dvh_check(&mut self) -> (r: Result<(), Error>)
        ensures
            r is Ok ==> final(self).ready(),
    ;
}

} // verus!
