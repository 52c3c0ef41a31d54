use vstd::prelude::*;

use crate::trip::{DisplayConfig, Trip, TripSegment};

verus! {

/// `s` is one of the displayed stations.
pub open spec fn shown(display: Seq<String>, s: Seq<char>) -> bool {
    exists|j: int| 0 <= j < display.len() && display[j]@ == s
}

/// Some station of `stations` is displayed.
pub open spec fn any_shown(stations: Seq<String>, display: Seq<String>) -> bool {
    exists|i: int| 0 <= i < stations.len() && shown(display, #[trigger] stations[i]@)
}

/// `i` and `j` are the first and the last index of `stations` whose station
/// is displayed.
pub open spec fn boundaries(stations: Seq<String>, display: Seq<String>, i: int, j: int) -> bool {
    &&& 0 <= i <= j < stations.len()
    &&& shown(display, stations[i]@)
    &&& shown(display, stations[j]@)
    &&& forall|k: int| 0 <= k < i ==> !shown(display, #[trigger] stations[k]@)
    &&& forall|k: int| j < k < stations.len() ==> !shown(display, #[trigger] stations[k]@)
}

/// Whether `station` is among the displayed stations.
pub fn is_shown(display: &DisplayConfig, station: &String) -> (r: bool)
    ensures
        r == shown(display.stations@, station@),
{
    let mut j: usize = 0;
    while j < display.stations.len()
        invariant
            j <= display.stations.len(),
            forall|m: int| 0 <= m < j ==> display.stations@[m]@ != station@,
        decreases display.stations.len() - j,
    {
        if display.stations[j] == *station {
            return true;
        }
        j += 1;
    }
    false
}

/// Whether the segment visits at least one displayed station.
pub fn is_visible(segment: &TripSegment, display: &DisplayConfig) -> (r: bool)
    ensures
        r == any_shown(segment.stations@, display.stations@),
{
    let mut i: usize = 0;
    while i < segment.stations.len()
        invariant
            i <= segment.stations.len(),
            forall|m: int| 0 <= m < i ==> !shown(display.stations@, #[trigger] segment.stations@[m]@),
        decreases segment.stations.len() - i,
    {
        if is_shown(display, &segment.stations[i]) {
            return true;
        }
        i += 1;
    }
    false
}

/// Whether any segment of the trip visits a displayed station.
pub fn is_trip_visible(trip: &Trip, display: &DisplayConfig) -> (r: bool)
    ensures
        r == exists|s: int|
            0 <= s < trip.segments.len() && any_shown(
                (#[trigger] trip.segments@[s]).stations@,
                display.stations@,
            ),
{
    let mut s: usize = 0;
    while s < trip.segments.len()
        invariant
            s <= trip.segments.len(),
            forall|m: int|
                0 <= m < s ==> !any_shown(
                    (#[trigger] trip.segments@[m]).stations@,
                    display.stations@,
                ),
        decreases trip.segments.len() - s,
    {
        if is_visible(&trip.segments[s], display) {
            return true;
        }
        s += 1;
    }
    false
}

/// The indices of the first and the last station of the segment, in its own
/// order, that are displayed; both are the same where only one is. `None`
/// where the segment visits no displayed station.
pub fn boundary_indices(segment: &TripSegment, display: &DisplayConfig) -> (r: Option<(usize, usize)>)
    ensures
        r is None <==> !any_shown(segment.stations@, display.stations@),
        r matches Some((i, j)) ==> boundaries(
            segment.stations@,
            display.stations@,
            i as int,
            j as int,
        ),
{
    let n = segment.stations.len();
    let mut i: usize = 0;
    while i < n
        invariant
            n == segment.stations.len(),
            i <= n,
            forall|m: int| 0 <= m < i ==> !shown(display.stations@, #[trigger] segment.stations@[m]@),
        ensures
            i <= n,
            i < n ==> shown(display.stations@, segment.stations@[i as int]@),
            forall|m: int| 0 <= m < i ==> !shown(display.stations@, #[trigger] segment.stations@[m]@),
        decreases n - i,
    {
        if is_shown(display, &segment.stations[i]) {
            break;
        }
        i += 1;
    }
    if i == n {
        return None;
    }
    let mut j: usize = n - 1;
    while j > i
        invariant
            n == segment.stations.len(),
            i <= j < n,
            shown(display.stations@, segment.stations@[i as int]@),
            forall|m: int|
                j < m < n ==> !shown(display.stations@, #[trigger] segment.stations@[m]@),
        ensures
            i <= j < n,
            shown(display.stations@, segment.stations@[j as int]@),
            forall|m: int|
                j < m < n ==> !shown(display.stations@, #[trigger] segment.stations@[m]@),
        decreases j,
    {
        if is_shown(display, &segment.stations[j]) {
            break;
        }
        j -= 1;
    }
    Some((i, j))
}

} // verus!
