use vstd::prelude::*;

use crate::distance::DistanceIndex;
use crate::error::GeometryError;
use crate::position::{
    first_index, find_station, legs_known, lemma_cumulative_fits, lemma_cumulative_monotone,
    lemma_first_index, missing_leg, names, position_names, resolve_positions, resolved,
    total_distance, StationPosition,
};
use crate::timing::{interpolate_time, scheduled_time};
use crate::trip::{DisplayConfig, TripSegment};
use crate::visibility::{any_shown, boundaries, boundary_indices};

verus! {

/// One end of a segment's line: a station, the time at which the segment
/// passes it, and its place `distance / total` on the diagram's axis.
pub struct LineEnd {
    pub station: String,
    pub time: u16,
    pub distance: u128,
    pub total: u128,
}

/// The line that a segment draws between its first and its last displayed
/// station.
pub struct SegmentLine {
    pub start: LineEnd,
    pub end: LineEnd,
}

/// The fixed context of a diagram: the stations shown, the known distances,
/// and the axis resolved from the two.
pub struct Diagram {
    pub config: DisplayConfig,
    pub index: DistanceIndex,
    pub axis: Vec<StationPosition>,
}

impl Diagram {
    /// The axis is the resolution of the displayed stations.
    pub open spec fn wf(&self) -> bool {
        &&& self.config.stations.len() >= 1
        &&& resolved(self.axis@, self.index, self.config.stations@)
    }

    /// `end` is the end of a line of `segment` at its station `k`: the time
    /// of its first visit there, and that station's place on the axis.
    pub open spec fn ends_at(&self, segment: TripSegment, k: int, end: LineEnd) -> bool {
        let s = segment.stations@[k]@;
        &&& end.station@ == s
        &&& first_index(names(segment.stations@), s) matches Some(f) && end.time == scheduled_time(
            self.index,
            segment,
            f as int,
        )
        &&& first_index(names(self.config.stations@), s) matches Some(g) && end.distance
            == self.axis@[g as int].distance && end.total == self.axis@[g as int].total
    }

    /// Resolves the axis of the displayed stations once, for every segment
    /// drawn after.
    pub fn new(config: DisplayConfig, index: DistanceIndex) -> (r: Result<Diagram, GeometryError>)
        requires
            config.stations.len() >= 1,
        ensures
            !legs_known(index, config.stations@) ==> (r is Err && missing_leg(
                index,
                config.stations@,
                r->Err_0,
            )),
            legs_known(index, config.stations@) && config.stations.len() >= 2 && total_distance(
                index,
                config.stations@,
            ) == 0 ==> (r is Err && r->Err_0 is DegenerateSequence),
            legs_known(index, config.stations@) && (config.stations.len() == 1 || total_distance(
                index,
                config.stations@,
            ) > 0) ==> (r is Ok && r->Ok_0.wf() && r->Ok_0.config == config && r->Ok_0.index
                == index),
    {
        let axis = resolve_positions(&config.stations, &index)?;
        Ok(Diagram { config, index, axis })
    }

    /// The line of `segment` on this diagram: from its first to its last
    /// displayed station, each at the time the segment first passes it.
    /// `None` where the segment visits no displayed station.
    pub fn segment_line(&self, segment: &TripSegment) -> (r: Result<Option<SegmentLine>, GeometryError>)
        requires
            self.wf(),
            segment.stations.len() >= 1,
        ensures
            !any_shown(segment.stations@, self.config.stations@) ==> r matches Ok(None),
            any_shown(segment.stations@, self.config.stations@) && !legs_known(
                self.index,
                segment.stations@,
            ) ==> (r is Err && missing_leg(self.index, segment.stations@, r->Err_0)),
            any_shown(segment.stations@, self.config.stations@) && legs_known(
                self.index,
                segment.stations@,
            ) && total_distance(self.index, segment.stations@) == 0 ==> (r is Err
                && r->Err_0 is DegenerateSequence),
            any_shown(segment.stations@, self.config.stations@) && legs_known(
                self.index,
                segment.stations@,
            ) && total_distance(self.index, segment.stations@) > 0 ==> (r matches Ok(Some(line))
                && exists|i: int, j: int|
                boundaries(segment.stations@, self.config.stations@, i, j) && self.ends_at(
                    *segment,
                    i,
                    line.start,
                ) && self.ends_at(*segment, j, line.end)),
    {
        let (i, j) = match boundary_indices(segment, &self.config) {
            None => return Ok(None),
            Some(b) => b,
        };
        let ps = resolve_positions(&segment.stations, &self.index)?;
        let n = ps.len();
        if ps[n - 1].total == 0 {
            return Err(GeometryError::DegenerateSequence);
        }
        proof {
            assert(position_names(ps@) =~= names(segment.stations@));
            assert(position_names(self.axis@) =~= names(self.config.stations@));
            lemma_cumulative_fits(self.index, segment.stations@, n - 1);
        }
        let start = self.line_end(segment, &ps, i);
        let end = self.line_end(segment, &ps, j);
        Ok(Some(SegmentLine { start, end }))
    }

    /// The end of the line of `segment`, resolved as `ps`, at its displayed
    /// station `k`.
    fn line_end(&self, segment: &TripSegment, ps: &Vec<StationPosition>, k: usize) -> (r: LineEnd)
        requires
            self.wf(),
            resolved(ps@, self.index, segment.stations@),
            legs_known(self.index, segment.stations@),
            total_distance(self.index, segment.stations@) <= crate::position::MAX_TOTAL,
            k < segment.stations.len(),
            exists|g: int|
                0 <= g < self.config.stations.len() && self.config.stations@[g]@
                    == segment.stations@[k as int]@,
        ensures
            self.ends_at(*segment, k as int, r),
    {
        let station = &segment.stations[k];
        proof {
            assert(position_names(ps@) =~= names(segment.stations@));
            assert(position_names(self.axis@) =~= names(self.config.stations@));
            lemma_first_index(names(segment.stations@), station@);
            lemma_first_index(names(self.config.stations@), station@);
            assert(names(segment.stations@)[k as int] == station@);
            let g = choose|g: int|
                0 <= g < self.config.stations.len() && self.config.stations@[g]@ == station@;
            assert(names(self.config.stations@)[g] == station@);
        }
        let f = find_station(ps, station).unwrap();
        let g = find_station(&self.axis, station).unwrap();
        proof {
            lemma_cumulative_monotone(
                self.index,
                segment.stations@,
                f as int,
                segment.stations.len() - 1,
            );
        }
        let time = interpolate_time(segment.departure, segment.arrival, ps[f].distance, ps[f].total);
        LineEnd {
            station: station.clone(),
            time,
            distance: self.axis[g].distance,
            total: self.axis[g].total,
        }
    }
}

} // verus!
