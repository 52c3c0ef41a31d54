use vstd::prelude::*;

verus! {

/// What can go wrong while deriving the geometry of one station sequence.
#[derive(Debug, PartialEq, Eq)]
pub enum GeometryError {
    /// No distance record joins these two adjacent stations.
    MissingDistance { from: String, to: String },
    /// The sequence has no length, so no fraction of it can be taken.
    DegenerateSequence,
    /// The station asked for is not among the segment's stations.
    StationNotInSegment { station: String },
}

/// The two errors say the same thing: same variant, same station names.
pub open spec fn same_error(e1: GeometryError, e2: GeometryError) -> bool {
    match (e1, e2) {
        (
            GeometryError::MissingDistance { from: f1, to: t1 },
            GeometryError::MissingDistance { from: f2, to: t2 },
        ) => f1@ == f2@ && t1@ == t2@,
        (GeometryError::DegenerateSequence, GeometryError::DegenerateSequence) => true,
        (
            GeometryError::StationNotInSegment { station: s1 },
            GeometryError::StationNotInSegment { station: s2 },
        ) => s1@ == s2@,
        _ => false,
    }
}

} // verus!
