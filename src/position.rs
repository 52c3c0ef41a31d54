use vstd::prelude::*;

use crate::distance::{find_leg, DistanceIndex};
use crate::error::GeometryError;

verus! {

/// The largest total any resolved sequence reaches: at most `usize::MAX`
/// legs of at most `u32::MAX` each stay below this bound.
pub const MAX_TOTAL: u128 = 0xffff_ffff_ffff_ffff_ffff_ffff;

/// A station and its place along a resolved sequence: the fraction
/// `distance / total`, where `distance` is the cumulative track distance from
/// the sequence's first station and `total` that of its last one. A lone
/// station has total 0 and stands at 0.
pub struct StationPosition {
    pub station: String,
    pub distance: u128,
    pub total: u128,
}

/// Where `distance / total` falls on an axis `width` long, rounded down; a
/// lone station (total 0) falls at 0.
pub fn axis_x(distance: u128, total: u128, width: u32) -> (r: u32)
    requires
        distance <= total <= MAX_TOTAL,
    ensures
        total == 0 ==> r == 0,
        total > 0 ==> r == distance * width / (total as int),
{
    if total == 0 {
        return 0;
    }
    let w = width as u128;
    assert(distance * w <= MAX_TOTAL * 0xffff_ffff) by (nonlinear_arith)
        requires
            distance <= MAX_TOTAL,
            w <= 0xffff_ffff,
    ;
    proof {
        crate::timing::lemma_share(w as nat, distance as nat, total as nat, total as nat);
    }
    (distance * w / total) as u32
}

/// The station names of a sequence.
pub open spec fn names(stations: Seq<String>) -> Seq<Seq<char>> {
    stations.map_values(|s: String| s@)
}

/// The station names of a resolved sequence.
pub open spec fn position_names(ps: Seq<StationPosition>) -> Seq<Seq<char>> {
    ps.map_values(|p: StationPosition| p.station@)
}

/// The first index at or after `k` that holds `s`.
pub open spec fn index_from(ns: Seq<Seq<char>>, s: Seq<char>, k: nat) -> Option<nat>
    decreases ns.len() - k,
{
    if k >= ns.len() {
        None
    } else if ns[k as int] == s {
        Some(k)
    } else {
        index_from(ns, s, k + 1)
    }
}

/// The index of the first occurrence of `s`.
pub open spec fn first_index(ns: Seq<Seq<char>>, s: Seq<char>) -> Option<nat> {
    index_from(ns, s, 0)
}

pub proof fn lemma_index_from(ns: Seq<Seq<char>>, s: Seq<char>, k: nat)
    ensures
        index_from(ns, s, k) matches Some(j) ==> k <= j < ns.len() && ns[j as int] == s
            && forall|m: int| k <= m < j ==> ns[m] != s,
        index_from(ns, s, k) is None ==> forall|m: int| k <= m < ns.len() ==> ns[m] != s,
    decreases ns.len() - k,
{
    if k < ns.len() && ns[k as int] != s {
        lemma_index_from(ns, s, k + 1);
    }
}

/// The first occurrence of `s` is the least index that holds it.
pub proof fn lemma_first_index(ns: Seq<Seq<char>>, s: Seq<char>)
    ensures
        first_index(ns, s) matches Some(j) ==> j < ns.len() && ns[j as int] == s && forall|m: int|
            0 <= m < j ==> ns[m] != s,
        first_index(ns, s) is None <==> forall|m: int| 0 <= m < ns.len() ==> ns[m] != s,
{
    lemma_index_from(ns, s, 0);
}

/// The length of the leg that ends at station `k`, 0 where no record gives it.
pub open spec fn leg_length(index: DistanceIndex, stations: Seq<String>, k: int) -> nat {
    match index.leg(stations[k - 1]@, stations[k]@) {
        Some(d) => d as nat,
        None => 0,
    }
}

/// The track distance from the first station to station `k`.
pub open spec fn cumulative(index: DistanceIndex, stations: Seq<String>, k: int) -> nat
    decreases k,
{
    if k <= 0 {
        0
    } else {
        cumulative(index, stations, k - 1) + leg_length(index, stations, k)
    }
}

/// The track distance from the first station to the last.
pub open spec fn total_distance(index: DistanceIndex, stations: Seq<String>) -> nat {
    cumulative(index, stations, stations.len() - 1)
}

/// A record gives every leg before station `n`.
pub open spec fn legs_known_until(index: DistanceIndex, stations: Seq<String>, n: int) -> bool {
    forall|k: int| 1 <= k < n ==> (#[trigger] index.leg(stations[k - 1]@, stations[k]@)) is Some
}

/// A record gives every leg of the sequence.
pub open spec fn legs_known(index: DistanceIndex, stations: Seq<String>) -> bool {
    legs_known_until(index, stations, stations.len() as int)
}

/// `e` names the first leg of the sequence that no record gives.
pub open spec fn missing_leg(index: DistanceIndex, stations: Seq<String>, e: GeometryError) -> bool {
    e matches GeometryError::MissingDistance { from, to } && exists|k: int|
        1 <= k < stations.len() && legs_known_until(index, stations, k) && index.leg(
            stations[k - 1]@,
            stations[k]@,
        ) is None && from@ == stations[k - 1]@ && to@ == stations[k]@
}

/// `ps` is the resolution of `stations`: one position for each station, in
/// order, at its cumulative distance over the total.
pub open spec fn resolved(ps: Seq<StationPosition>, index: DistanceIndex, stations: Seq<String>) -> bool {
    &&& ps.len() == stations.len()
    &&& forall|k: int|
        0 <= k < ps.len() ==> (#[trigger] ps[k]).station@ == stations[k]@ && ps[k].distance
            == cumulative(index, stations, k) && ps[k].total == total_distance(index, stations)
}

/// What resolving `stations` gives: the first missing leg, a sequence of no
/// length, or the positions.
pub open spec fn resolves_to(
    index: DistanceIndex,
    stations: Seq<String>,
    r: Result<Vec<StationPosition>, GeometryError>,
) -> bool {
    &&& !legs_known(index, stations) ==> (r is Err && missing_leg(index, stations, r->Err_0))
    &&& legs_known(index, stations) && stations.len() >= 2 && total_distance(index, stations) == 0
        ==> (r is Err && r->Err_0 is DegenerateSequence)
    &&& legs_known(index, stations) && (stations.len() == 1 || total_distance(index, stations) > 0)
        ==> (r is Ok && resolved(r->Ok_0@, index, stations))
}

/// Each leg adds its length, so the cumulative distance never goes down.
pub proof fn lemma_cumulative_monotone(index: DistanceIndex, stations: Seq<String>, a: int, b: int)
    requires
        a <= b,
    ensures
        cumulative(index, stations, a) <= cumulative(index, stations, b),
    decreases b - a,
{
    if a < b {
        lemma_cumulative_monotone(index, stations, a, b - 1);
    }
}

/// Station `k` of a sequence of known legs lies at most `k` full legs out.
proof fn lemma_cumulative_bound(index: DistanceIndex, stations: Seq<String>, k: int)
    requires
        0 <= k,
    ensures
        cumulative(index, stations, k) <= k * 0xffff_ffff,
    decreases k,
{
    if k > 0 {
        lemma_cumulative_bound(index, stations, k - 1);
    }
}

/// The cumulative distance of any station of a sequence that a `Vec` can
/// hold stays within `MAX_TOTAL`.
pub proof fn lemma_cumulative_fits(index: DistanceIndex, stations: Seq<String>, k: int)
    requires
        0 <= k < stations.len() <= 0xffff_ffff_ffff_ffff,
    ensures
        cumulative(index, stations, k) <= MAX_TOTAL,
{
    lemma_cumulative_bound(index, stations, k);
    assert(k * 0xffff_ffff <= 0xffff_ffff_ffff_ffff * 0xffff_ffff) by (nonlinear_arith)
        requires
            k <= 0xffff_ffff_ffff_ffff,
    ;
}

/// The position of `station` in a resolved sequence: the index of its first
/// occurrence.
pub fn find_station(ps: &Vec<StationPosition>, station: &String) -> (r: Option<usize>)
    ensures
        r matches Some(k) ==> first_index(position_names(ps@), station@) == Some(k as nat),
        r is None ==> first_index(position_names(ps@), station@) is None,
{
    let ghost ns = position_names(ps@);
    let mut i: usize = 0;
    while i < ps.len()
        invariant
            i <= ps.len(),
            ns == position_names(ps@),
            first_index(ns, station@) == index_from(ns, station@, i as nat),
        decreases ps.len() - i,
    {
        if ps[i].station == *station {
            return Some(i);
        }
        i += 1;
    }
    None
}

/// Places each station of `stations` at its cumulative track distance over
/// the total. The first station stands at 0 and, unless the sequence is a
/// lone station, the last at the total.
pub fn resolve_positions(stations: &Vec<String>, index: &DistanceIndex) -> (r: Result<
    Vec<StationPosition>,
    GeometryError,
>)
    requires
        stations.len() >= 1,
    ensures
        resolves_to(*index, stations@, r),
        stations.len() == 1 ==> (r matches Ok(ps) && ps.len() == 1 && ps[0].station@
            == stations[0]@ && ps[0].distance == 0),
{
    let ghost st = stations@;
    let mut offsets: Vec<u128> = Vec::new();
    offsets.push(0);
    let mut sum: u128 = 0;
    let mut i: usize = 1;
    while i < stations.len()
        invariant
            st == stations@,
            1 <= i <= stations.len(),
            offsets.len() == i,
            legs_known_until(*index, st, i as int),
            sum == cumulative(*index, st, i - 1),
            forall|k: int| 0 <= k < i ==> offsets[k] == cumulative(*index, st, k),
        decreases stations.len() - i,
    {
        let leg = match index.lookup(&stations[i - 1], &stations[i]) {
            Ok(d) => d,
            Err(e) => {
                proof {
                    assert(missing_leg(*index, st, e));
                }
                return Err(e);
            },
        };
        proof {
            lemma_cumulative_bound(*index, st, i - 1);
            assert((i - 1) * 0xffff_ffff <= 0xffff_ffff_ffff_ffff * 0xffff_ffff) by (nonlinear_arith)
                requires
                    i - 1 <= 0xffff_ffff_ffff_ffff,
            ;
            assert(legs_known_until(*index, st, i + 1)) by {
                assert(index.leg(st[i - 1]@, st[i as int]@) is Some);
            }
        }
        sum = sum + leg as u128;
        offsets.push(sum);
        i += 1;
    }
    if stations.len() >= 2 && sum == 0 {
        return Err(GeometryError::DegenerateSequence);
    }
    let mut ps: Vec<StationPosition> = Vec::new();
    let mut j: usize = 0;
    while j < stations.len()
        invariant
            st == stations@,
            offsets.len() == stations.len(),
            sum == total_distance(*index, st),
            forall|k: int| 0 <= k < stations.len() ==> offsets[k] == cumulative(*index, st, k),
            j <= stations.len(),
            ps.len() == j,
            forall|k: int|
                0 <= k < j ==> (#[trigger] ps[k]).station@ == st[k]@ && ps[k].distance
                    == cumulative(*index, st, k) && ps[k].total == total_distance(*index, st),
        decreases stations.len() - j,
    {
        ps.push(StationPosition { station: stations[j].clone(), distance: offsets[j], total: sum });
        j += 1;
    }
    Ok(ps)
}

} // verus!
