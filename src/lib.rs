//! Geometry of a time-distance diagram for train services.
//!
//! Stations stand along a horizontal axis in proportion to their cumulative
//! track distance, and each trip segment is a line from the time and place at
//! which it enters the displayed stretch to the time and place at which it
//! leaves it. All of it is exact integer arithmetic: a position is the
//! fraction `distance / total` of a resolved sequence.
use vstd::prelude::*;

pub mod error;
pub mod diagram;
pub mod distance;
pub mod laws;
pub mod position;
pub mod timing;
pub mod trip;
pub mod visibility;

verus! {

} // verus!
