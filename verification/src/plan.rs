//! The treatment plan: a record that holds histograms by the name of the
//! structure that each describes.

use vstd::prelude::*;
use crate::dvh_map::DvhMap;
use crate::error::Error;
use crate::traits::DvhCheck;

verus! {

/// A treatment plan.
#[derive(Debug, Clone, PartialEq)]
pub struct Plan {
    /// What identifies the plan.
    pub id: String,
    /// A name for readers, if the plan has one.
    pub name: Option<String>,
    /// The histograms, each under the name of its structure.
    pub dvhs: DvhMap,
}

impl Default for Plan {
    /// The plan without identifier, name or histograms.
    fn default() -> (r: Self)
        ensures
            r.id@.len() == 0,
            r.name is None,
            r.dvhs@.len() == 0,
    {
        Plan { id: String::new(), name: None, dvhs: DvhMap::new() }
    }
}

impl DvhCheck for Plan {
    /// Every histogram of the plan is sorted.
    open spec fn ready(&self) -> bool {
        self.dvhs.ready()
    }

    /// Checks every histogram of the plan, as [`DvhMap::dvh_check`] does.
    /// None of them can fail, so the plan's check succeeds, and leaves every
    /// histogram sorted under its name.
    fn dvh_check(&mut self) -> (r: Result<(), Error>)
        ensures
            r is Ok,
            final(self).id == old(self).id,
            final(self).name == old(self).name,
            final(self).dvhs@.len() == old(self).dvhs@.len(),
            forall|i: int|
                0 <= i < old(self).dvhs@.len() ==> {
                    &&& (#[trigger] final(self).dvhs@[i]).0 == old(self).dvhs@[i].0
                    &&& old(self).dvhs@[i].1.sorts_to(final(self).dvhs@[i].1)
                },
    {
        self.dvhs.dvh_check()
    }
}

} // verus!
