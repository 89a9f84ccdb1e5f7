//! The ways in which an operation on a histogram can fail.

use vstd::prelude::*;

verus! {

/// Why an operation was refused. Every failure is final: nothing is retried,
/// and the histogram is as it was before the call.
#[derive(Clone, Copy, Debug, PartialEq, Eq)]
pub enum Error {
    /// A query was put to a histogram whose samples are not sorted by dose.
    DvhUnsorted,
    /// A query was put to a histogram without samples.
    DvhNoData,
    /// A query was put to a histogram with a single sample: interpolation
    /// needs two.
    DvhInsufficientData,
    /// The search for the volume's bracket came to no result.
    DvhDxLogic,
    /// The search for the dose's bracket came to no result.
    DvhVxLogic,
    /// A volume below zero.
    NegativeVolume,
    /// A dose below zero.
    NegativeDose,
    /// A volume in percent outside the interval from zero to one.
    PercentVolumeOutOfRange,
    /// Doses and volumes that differ in number.
    MismatchedLengthDoseVolumeData,
}

} // verus!
