//! Dose-volume histograms for radiation-therapy treatment analysis: the
//! histogram with its append, sort and query discipline, the plan and patient
//! records that hold histograms, and the parsing of person names.
//!
//! Doses and volumes are double-precision numbers. The library compares them
//! and never computes with them, so it holds each by its bit pattern, a
//! `u64`: see [`binary64`]. A query that falls between two samples is
//! answered with the two samples, as a [`Segment`]; the value on the line
//! between them is for the caller to compute.

pub mod binary64;
pub mod dvh;
pub mod dvh_map;
pub mod error;
pub mod lookup;
pub mod name;
pub mod patient;
pub mod plan;
pub mod sorting;
pub mod traits;

pub use dvh::{DoseType, Dvh, DvhView, Sample, VolumeType};
pub use dvh_map::DvhMap;
pub use error::Error;
pub use lookup::{Reading, Segment};
pub use name::Name;
pub use patient::Patient;
pub use plan::Plan;
pub use traits::DvhCheck;
