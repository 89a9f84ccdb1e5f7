//! The patient: a record of who was treated and by which plans.

use vstd::prelude::*;
use crate::name::Name;
use crate::plan::Plan;

verus! {

/// A patient.
#[derive(Debug, Clone, PartialEq)]
pub struct Patient {
    /// What identifies the patient.
    pub patient_id: String,
    /// The patient's name in its parts, if it is known.
    pub name: Option<Name>,
    /// The patient's treatment plans.
    pub plans: Vec<Plan>,
}

impl Default for Patient {
    /// The patient without identifier, name or plans.
    fn default() -> (r: Self)
        ensures
            r.patient_id@.len() == 0,
            r.name is None,
            r.plans@.len() == 0,
    {
        Patient { patient_id: String::new(), name: None, plans: Vec::new() }
    }
}

} // verus!
