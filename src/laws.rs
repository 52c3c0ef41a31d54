use vstd::prelude::*;
use vstd::arithmetic::div_mod::lemma_div_by_multiple;

use crate::distance::DistanceIndex;
use crate::error::{same_error, GeometryError};
use crate::position::{
    cumulative, first_index, legs_known, legs_known_until, lemma_cumulative_monotone,
    lemma_first_index, missing_leg, names, resolves_to, total_distance, StationPosition,
};
use crate::timing::scheduled_time;
use crate::trip::TripSegment;
use crate::visibility::{any_shown, shown};

verus! {

/// Every leg of the sequence is known and has a positive length.
pub open spec fn legs_positive(index: DistanceIndex, stations: Seq<String>) -> bool {
    forall|k: int|
        1 <= k < stations.len() ==> ((#[trigger] index.leg(stations[k - 1]@, stations[k]@)) is Some
            && index.leg(stations[k - 1]@, stations[k]@)->0 > 0)
}

proof fn lemma_cumulative_strict(index: DistanceIndex, stations: Seq<String>, a: int, b: int)
    requires
        legs_positive(index, stations),
        0 <= a < b < stations.len(),
    ensures
        cumulative(index, stations, a) < cumulative(index, stations, b),
    decreases b - a,
{
    assert(index.leg(stations[b - 1]@, stations[b]@) is Some);
    if a < b - 1 {
        lemma_cumulative_strict(index, stations, a, b - 1);
    }
}

/// Where every leg has a positive length, resolving a sequence of two or more
/// stations succeeds, the positions strictly increase in sequence order, and
/// the last one is the whole (`distance == total`).
pub proof fn positive_legs_strictly_increase(
    index: DistanceIndex,
    stations: Seq<String>,
    r: Result<Vec<StationPosition>, GeometryError>,
)
    requires
        stations.len() >= 2,
        legs_positive(index, stations),
        resolves_to(index, stations, r),
    ensures
        r is Ok,
        forall|a: int, b: int|
            0 <= a < b < stations.len() ==> (#[trigger] r->Ok_0@[a]).distance < (
            #[trigger] r->Ok_0@[b]).distance,
        r->Ok_0@.last().distance == r->Ok_0@.last().total,
{
    assert(legs_known(index, stations)) by {
        assert forall|k: int| 1 <= k < stations.len() implies (#[trigger] index.leg(
            stations[k - 1]@,
            stations[k]@,
        )) is Some by {}
    }
    lemma_cumulative_strict(index, stations, 0, stations.len() - 1);
    assert forall|a: int, b: int| 0 <= a < b < stations.len() implies (
    #[trigger] r->Ok_0@[a]).distance < (#[trigger] r->Ok_0@[b]).distance by {
        lemma_cumulative_strict(index, stations, a, b);
    }
}

/// The first missing leg of a sequence is unique.
proof fn lemma_missing_leg_unique(index: DistanceIndex, stations: Seq<String>, e1: GeometryError, e2: GeometryError)
    requires
        missing_leg(index, stations, e1),
        missing_leg(index, stations, e2),
    ensures
        same_error(e1, e2),
{
    let k1 = choose|k: int|
        1 <= k < stations.len() && legs_known_until(index, stations, k) && index.leg(
            stations[k - 1]@,
            stations[k]@,
        ) is None && e1->MissingDistance_from@ == stations[k - 1]@ && e1->MissingDistance_to@
            == stations[k]@;
    let k2 = choose|k: int|
        1 <= k < stations.len() && legs_known_until(index, stations, k) && index.leg(
            stations[k - 1]@,
            stations[k]@,
        ) is None && e2->MissingDistance_from@ == stations[k - 1]@ && e2->MissingDistance_to@
            == stations[k]@;
    if k1 < k2 {
        assert(index.leg(stations[k1 - 1]@, stations[k1]@) is Some);
    } else if k2 < k1 {
        assert(index.leg(stations[k2 - 1]@, stations[k2]@) is Some);
    }
}

/// Resolving the same sequence against the same distances twice gives the
/// same outcome: the same positions, or the same error.
pub proof fn resolution_is_deterministic(
    index: DistanceIndex,
    stations: Seq<String>,
    r1: Result<Vec<StationPosition>, GeometryError>,
    r2: Result<Vec<StationPosition>, GeometryError>,
)
    requires
        stations.len() >= 1,
        resolves_to(index, stations, r1),
        resolves_to(index, stations, r2),
    ensures
        r1 is Ok <==> r2 is Ok,
        r1 is Ok ==> r1->Ok_0.len() == r2->Ok_0.len() && forall|k: int|
            0 <= k < r1->Ok_0.len() ==> (#[trigger] r1->Ok_0@[k]).station@ == r2->Ok_0@[k].station@
                && r1->Ok_0@[k].distance == r2->Ok_0@[k].distance && r1->Ok_0@[k].total
                == r2->Ok_0@[k].total,
        r1 is Err ==> same_error(r1->Err_0, r2->Err_0),
{
    if !legs_known(index, stations) {
        lemma_missing_leg_unique(index, stations, r1->Err_0, r2->Err_0);
    }
}

/// A segment whose legs are all known and of some length leaves its first
/// station at its departure time, and reaches its last station at its
/// arrival time where it has not passed that station before.
pub proof fn time_at_ends(index: DistanceIndex, segment: TripSegment)
    requires
        segment.stations.len() >= 1,
        legs_known(index, segment.stations@),
        total_distance(index, segment.stations@) > 0,
    ensures
        first_index(names(segment.stations@), segment.stations@[0]@) == Some(0nat),
        scheduled_time(index, segment, 0) == segment.departure,
        (forall|m: int|
            0 <= m < segment.stations.len() - 1 ==> segment.stations@[m]@
                != segment.stations@.last()@) ==> first_index(
            names(segment.stations@),
            segment.stations@.last()@,
        ) == Some((segment.stations.len() - 1) as nat) && scheduled_time(
            index,
            segment,
            segment.stations.len() - 1,
        ) == segment.arrival,
{
    let st = segment.stations@;
    let n = st.len();
    lemma_first_index(names(st), st[0]@);
    lemma_first_index(names(st), st.last()@);
    assert(names(st)[0] == st[0]@);
    assert(names(st)[n - 1] == st.last()@);
    let total = total_distance(index, st);
    assert((segment.arrival - segment.departure) * 0int / (total as int) == 0);
    assert((segment.departure - segment.arrival) * 0int / (total as int) == 0);
    if segment.departure <= segment.arrival {
        lemma_div_by_multiple(segment.arrival - segment.departure, total as int);
    } else {
        lemma_div_by_multiple(segment.departure - segment.arrival, total as int);
    }
    if forall|m: int| 0 <= m < n - 1 ==> st[m]@ != st.last()@ {
        assert forall|m: int| 0 <= m < n - 1 implies names(st)[m] != st.last()@ by {
            assert(names(st)[m] == st[m]@);
        }
    }
}

/// Along a segment that does not arrive before it departs, the time at which
/// it passes its stations never goes down in station order.
pub proof fn time_is_monotone(index: DistanceIndex, segment: TripSegment, a: int, b: int)
    requires
        segment.departure <= segment.arrival,
        0 <= a <= b < segment.stations.len(),
    ensures
        scheduled_time(index, segment, a) <= scheduled_time(index, segment, b),
{
    let st = segment.stations@;
    let total = total_distance(index, st);
    lemma_cumulative_monotone(index, st, a, b);
    lemma_cumulative_monotone(index, st, b, st.len() - 1);
    if total > 0 {
        let span = (segment.arrival - segment.departure) as nat;
        let oa = cumulative(index, st, a);
        let ob = cumulative(index, st, b);
        crate::timing::lemma_share(span, oa, ob, total);
    }
}

/// A segment is visible exactly when its stations and the displayed ones
/// have a station in common.
pub proof fn visible_iff_common_station(stations: Seq<String>, display: Seq<String>)
    ensures
        any_shown(stations, display) <==> names(stations).to_set().intersect(
            names(display).to_set(),
        ) != Set::<Seq<char>>::empty(),
{
    let common = names(stations).to_set().intersect(names(display).to_set());
    if any_shown(stations, display) {
        let i = choose|i: int| 0 <= i < stations.len() && shown(display, #[trigger] stations[i]@);
        let j = choose|j: int| 0 <= j < display.len() && display[j]@ == stations[i]@;
        assert(names(stations)[i] == stations[i]@);
        assert(names(display)[j] == display[j]@);
        assert(common.contains(stations[i]@));
    } else {
        assert forall|s: Seq<char>| !common.contains(s) by {
            if common.contains(s) {
                let i = choose|i: int| 0 <= i < names(stations).len() && names(stations)[i] == s;
                let j = choose|j: int| 0 <= j < names(display).len() && names(display)[j] == s;
                assert(shown(display, stations[i]@));
            }
        }
        assert(common =~= Set::<Seq<char>>::empty());
    }
}

} // verus!
