use vstd::prelude::*;
use vstd::arithmetic::div_mod::{lemma_div_by_multiple, lemma_div_is_ordered};
use vstd::arithmetic::mul::lemma_mul_inequality;

use crate::distance::DistanceIndex;
use crate::error::GeometryError;
use crate::position::{
    cumulative, find_station, first_index, legs_known, lemma_cumulative_fits, lemma_cumulative_monotone,
    lemma_first_index, missing_leg, names, position_names, resolve_positions, total_distance,
    StationPosition, MAX_TOTAL,
};
use crate::trip::TripSegment;

verus! {

/// The time reached at `offset` out of `total` along a run from `departure` to
/// `arrival`, at uniform speed, rounded toward `departure`. A run of no
/// length stays at `departure`.
pub open spec fn interpolate(departure: u16, arrival: u16, offset: nat, total: nat) -> int {
    if total == 0 {
        departure as int
    } else if departure <= arrival {
        departure + (arrival - departure) * offset / (total as int)
    } else {
        departure - (departure - arrival) * offset / (total as int)
    }
}

/// The time at which `segment` passes its station `k`.
pub open spec fn scheduled_time(index: DistanceIndex, segment: TripSegment, k: int) -> int {
    interpolate(
        segment.departure,
        segment.arrival,
        cumulative(index, segment.stations@, k),
        total_distance(index, segment.stations@),
    )
}

/// A fraction of a span is no more than the span, and grows with the fraction.
pub proof fn lemma_share(span: nat, o1: nat, o2: nat, total: nat)
    requires
        o1 <= o2 <= total,
        total > 0,
    ensures
        span * o1 / total <= span * o2 / total <= span,
{
    lemma_mul_inequality(o1 as int, o2 as int, span as int);
    lemma_mul_inequality(o2 as int, total as int, span as int);
    assert(o1 * span == span * o1 && o2 * span == span * o2 && total * span == span * total)
        by (nonlinear_arith);
    lemma_div_is_ordered((span * o1) as int, (span * o2) as int, total as int);
    lemma_div_is_ordered((span * o2) as int, (span * total) as int, total as int);
    lemma_div_by_multiple(span as int, total as int);
}

/// The interpolated time lies between departure and arrival.
pub proof fn lemma_interpolate_between(departure: u16, arrival: u16, offset: nat, total: nat)
    requires
        offset <= total,
    ensures
        departure <= arrival ==> departure <= interpolate(departure, arrival, offset, total)
            <= arrival,
        arrival < departure ==> arrival <= interpolate(departure, arrival, offset, total)
            <= departure,
{
    if total > 0 {
        if departure <= arrival {
            lemma_share((arrival - departure) as nat, 0, offset, total);
        } else {
            lemma_share((departure - arrival) as nat, 0, offset, total);
        }
    }
}

/// The time reached at `offset` out of `total` along a run from `departure` to
/// `arrival`; a run of no length stays at `departure`.
pub fn interpolate_time(departure: u16, arrival: u16, offset: u128, total: u128) -> (r: u16)
    requires
        offset <= total <= MAX_TOTAL,
    ensures
        r == interpolate(departure, arrival, offset as nat, total as nat),
{
    if total == 0 {
        return departure;
    }
    proof {
        lemma_interpolate_between(departure, arrival, offset as nat, total as nat);
    }
    if departure <= arrival {
        let span = (arrival - departure) as u128;
        assert(span * offset <= 0xffff * MAX_TOTAL) by (nonlinear_arith)
            requires
                span <= 0xffff,
                offset <= MAX_TOTAL,
        ;
        let shift = span * offset / total;
        departure + shift as u16
    } else {
        let span = (departure - arrival) as u128;
        assert(span * offset <= 0xffff * MAX_TOTAL) by (nonlinear_arith)
            requires
                span <= 0xffff,
                offset <= MAX_TOTAL,
        ;
        let shift = span * offset / total;
        departure - shift as u16
    }
}

/// The time at which `segment` passes `target`, interpolated along its track
/// distance at uniform speed. Where the segment visits `target` more than
/// once, the first visit counts.
pub fn time_at_station(segment: &TripSegment, target: &String, index: &DistanceIndex) -> (r: Result<
    u16,
    GeometryError,
>)
    requires
        segment.stations.len() >= 1,
    ensures
        !legs_known(*index, segment.stations@) ==> (r is Err && missing_leg(
            *index,
            segment.stations@,
            r->Err_0,
        )),
        legs_known(*index, segment.stations@) && total_distance(*index, segment.stations@) == 0
            ==> (r is Err && r->Err_0 is DegenerateSequence),
        legs_known(*index, segment.stations@) && total_distance(*index, segment.stations@) > 0
            ==> match first_index(names(segment.stations@), target@) {
            Some(k) => r == Ok::<u16, GeometryError>(
                scheduled_time(*index, *segment, k as int) as u16,
            ),
            None => r is Err && (r->Err_0 matches GeometryError::StationNotInSegment { station }
                && station@ == target@),
        },
{
    let ps = resolve_positions(&segment.stations, index)?;
    let n = ps.len();
    if ps[n - 1].total == 0 {
        return Err(GeometryError::DegenerateSequence);
    }
    proof {
        assert(position_names(ps@) =~= names(segment.stations@));
    }
    match find_station(&ps, target) {
        Some(k) => {
            proof {
                lemma_first_index(names(segment.stations@), target@);
                lemma_cumulative_monotone(*index, segment.stations@, k as int, n - 1);
                lemma_cumulative_fits(*index, segment.stations@, n - 1);
            }
            Ok(interpolate_time(segment.departure, segment.arrival, ps[k].distance, ps[k].total))
        },
        None => Err(GeometryError::StationNotInSegment { station: target.clone() }),
    }
}

} // verus!
