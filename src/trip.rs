use vstd::prelude::*;

verus! {

/// One contiguous leg of a trip: the stations it visits, in order, and its
/// departure and arrival in minutes since midnight.
pub struct TripSegment {
    pub departure: u16,
    pub arrival: u16,
    pub stations: Vec<String>,
}

/// A trip: its number and its segments, in order.
pub struct Trip {
    pub number: String,
    pub segments: Vec<TripSegment>,
}

/// The stations to show, in the order in which the diagram's axis lays them out.
pub struct DisplayConfig {
    pub stations: Vec<String>,
}

} // verus!
