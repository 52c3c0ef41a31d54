use tijdweg::diagram::Diagram;
use tijdweg::distance::{DistanceIndex, DistanceRecord};
use tijdweg::error::GeometryError;
use tijdweg::position::{axis_x, find_station, resolve_positions};
use tijdweg::timing::{interpolate_time, time_at_station};
use tijdweg::trip::{DisplayConfig, Trip, TripSegment};
use tijdweg::visibility::{boundary_indices, is_shown, is_trip_visible, is_visible};

fn names(list: &[&str]) -> Vec<String> {
    list.iter().map(|s| s.to_string()).collect()
}

fn record(from: &str, to: &str, distance: u32) -> DistanceRecord {
    DistanceRecord { from: from.to_string(), to: to.to_string(), distance }
}

fn abc_index() -> DistanceIndex {
    DistanceIndex::new(vec![record("A", "B", 10), record("B", "C", 20)])
}

fn segment(departure: u16, arrival: u16, list: &[&str]) -> TripSegment {
    TripSegment { departure, arrival, stations: names(list) }
}

fn display(list: &[&str]) -> DisplayConfig {
    DisplayConfig { stations: names(list) }
}

fn summary(ps: &[tijdweg::position::StationPosition]) -> Vec<(String, u128, u128)> {
    ps.iter().map(|p| (p.station.clone(), p.distance, p.total)).collect()
}

#[test]
fn lookup_is_symmetric() {
    let index = abc_index();
    assert_eq!(index.lookup(&"A".to_string(), &"B".to_string()), Ok(10));
    assert_eq!(index.lookup(&"B".to_string(), &"A".to_string()), Ok(10));
    assert_eq!(index.lookup(&"C".to_string(), &"B".to_string()), Ok(20));
}

#[test]
fn lookup_first_record_wins() {
    let index = DistanceIndex::new(vec![record("A", "B", 7), record("B", "A", 9)]);
    assert_eq!(index.lookup(&"B".to_string(), &"A".to_string()), Ok(7));
}

#[test]
fn lookup_missing_pair_names_both_stations() {
    let index = abc_index();
    assert_eq!(
        index.lookup(&"C".to_string(), &"D".to_string()),
        Err(GeometryError::MissingDistance { from: "C".to_string(), to: "D".to_string() })
    );
}

#[test]
fn single_station_resolves_to_zero() {
    let ps = resolve_positions(&names(&["X"]), &abc_index()).unwrap();
    assert_eq!(ps.len(), 1);
    assert_eq!(ps[0].station, "X");
    assert_eq!(ps[0].distance, 0);
    assert_eq!(axis_x(ps[0].distance, ps[0].total, 700), 0);
}

#[test]
fn example_positions_are_cumulative_fractions() {
    let ps = resolve_positions(&names(&["A", "B", "C"]), &abc_index()).unwrap();
    assert_eq!(
        summary(&ps),
        vec![("A".to_string(), 0, 30), ("B".to_string(), 10, 30), ("C".to_string(), 30, 30)]
    );
}

#[test]
fn positive_legs_give_strictly_increasing_positions() {
    let index = DistanceIndex::new(vec![
        record("A", "B", 5),
        record("C", "B", 1),
        record("C", "D", 12),
        record("D", "E", 3),
    ]);
    let ps = resolve_positions(&names(&["A", "B", "C", "D", "E"]), &index).unwrap();
    for k in 1..ps.len() {
        assert!(ps[k - 1].distance < ps[k].distance);
    }
    assert_eq!(ps[4].distance, ps[4].total);
    assert_eq!(ps[4].total, 21);
    assert_eq!(ps[2].distance, 6);
}

#[test]
fn resolving_twice_gives_the_same_positions() {
    let index = abc_index();
    let stations = names(&["C", "B", "A"]);
    let first = resolve_positions(&stations, &index).unwrap();
    let second = resolve_positions(&stations, &index).unwrap();
    assert_eq!(summary(&first), summary(&second));
    assert_eq!(summary(&first)[1], ("B".to_string(), 20, 30));
    let bad = names(&["A", "D"]);
    assert_eq!(resolve_positions(&bad, &index).err(), resolve_positions(&bad, &index).err());
}

#[test]
fn zero_length_sequence_is_degenerate() {
    let index = DistanceIndex::new(vec![record("A", "B", 0)]);
    assert_eq!(
        resolve_positions(&names(&["A", "B"]), &index).err(),
        Some(GeometryError::DegenerateSequence)
    );
}

#[test]
fn first_missing_leg_is_reported() {
    let index = abc_index();
    assert_eq!(
        resolve_positions(&names(&["A", "B", "C", "D", "E"]), &index).err(),
        Some(GeometryError::MissingDistance { from: "C".to_string(), to: "D".to_string() })
    );
}

#[test]
fn find_station_takes_first_occurrence() {
    let index = DistanceIndex::new(vec![record("A", "B", 4)]);
    let ps = resolve_positions(&names(&["A", "B", "A"]), &index).unwrap();
    assert_eq!(find_station(&ps, &"A".to_string()), Some(0));
    assert_eq!(find_station(&ps, &"B".to_string()), Some(1));
    assert_eq!(find_station(&ps, &"Q".to_string()), None);
}

#[test]
fn example_time_at_station() {
    let index = abc_index();
    let seg = segment(600, 660, &["A", "B", "C"]);
    assert_eq!(time_at_station(&seg, &"B".to_string(), &index), Ok(620));
    assert_eq!(time_at_station(&seg, &"C".to_string(), &index), Ok(660));
}

#[test]
fn time_at_first_and_last_station() {
    let index = abc_index();
    let seg = segment(481, 517, &["C", "B", "A"]);
    assert_eq!(time_at_station(&seg, &"C".to_string(), &index), Ok(481));
    assert_eq!(time_at_station(&seg, &"A".to_string(), &index), Ok(517));
    assert_eq!(time_at_station(&seg, &"B".to_string(), &index), Ok(481 + 36 * 20 / 30));
}

#[test]
fn time_never_goes_down_along_segment() {
    let index = DistanceIndex::new(vec![
        record("A", "B", 3),
        record("B", "C", 0),
        record("C", "D", 8),
    ]);
    let seg = segment(100, 177, &["A", "B", "C", "D"]);
    let times: Vec<u16> = ["A", "B", "C", "D"]
        .iter()
        .map(|s| time_at_station(&seg, &s.to_string(), &index).unwrap())
        .collect();
    assert_eq!(times, vec![100, 121, 121, 177]);
    for k in 1..times.len() {
        assert!(times[k - 1] <= times[k]);
    }
}

#[test]
fn time_rounds_down_within_the_run() {
    assert_eq!(interpolate_time(0, 10, 1, 3), 3);
    assert_eq!(interpolate_time(10, 0, 1, 3), 7);
    assert_eq!(interpolate_time(42, 99, 5, 0), 42);
    assert_eq!(interpolate_time(600, 660, 10, 30), 620);
}

#[test]
fn time_at_station_errors() {
    let index = abc_index();
    let seg = segment(600, 660, &["A", "B", "C"]);
    assert_eq!(
        time_at_station(&seg, &"Z".to_string(), &index),
        Err(GeometryError::StationNotInSegment { station: "Z".to_string() })
    );
    let lone = segment(600, 660, &["A"]);
    assert_eq!(
        time_at_station(&lone, &"A".to_string(), &index),
        Err(GeometryError::DegenerateSequence)
    );
    let broken = segment(600, 660, &["B", "C", "D"]);
    assert_eq!(
        time_at_station(&broken, &"B".to_string(), &index),
        Err(GeometryError::MissingDistance { from: "C".to_string(), to: "D".to_string() })
    );
}

#[test]
fn revisited_station_uses_first_visit() {
    let index = abc_index();
    let seg = segment(0, 60, &["A", "B", "C", "B"]);
    assert_eq!(time_at_station(&seg, &"B".to_string(), &index), Ok(12));
}

#[test]
fn visibility_needs_a_common_station() {
    let seg = segment(600, 660, &["A", "B", "C"]);
    assert!(!is_visible(&seg, &display(&["X", "Y"])));
    assert!(!is_visible(&seg, &display(&[])));
    assert!(is_visible(&seg, &display(&["X", "C"])));
    assert!(is_shown(&display(&["X", "C"]), &"C".to_string()));
    assert!(!is_shown(&display(&["X", "C"]), &"A".to_string()));
}

#[test]
fn trip_is_visible_through_any_segment() {
    let trip = Trip {
        number: "1234".to_string(),
        segments: vec![segment(0, 10, &["P", "Q"]), segment(20, 30, &["Q", "B"])],
    };
    assert!(is_trip_visible(&trip, &display(&["B"])));
    assert!(!is_trip_visible(&trip, &display(&["A"])));
}

#[test]
fn boundaries_are_first_and_last_displayed() {
    let seg = segment(0, 10, &["A", "B", "C", "D", "E"]);
    assert_eq!(boundary_indices(&seg, &display(&["D", "B", "C"])), Some((1, 3)));
    assert_eq!(boundary_indices(&seg, &display(&["Z"])), None);
}

#[test]
fn example_single_boundary_station() {
    let index = abc_index();
    let config = display(&["B"]);
    let seg = segment(600, 660, &["A", "B", "C"]);
    assert!(is_visible(&seg, &config));
    assert_eq!(boundary_indices(&seg, &config), Some((1, 1)));
    let diagram = Diagram::new(config, index).unwrap();
    let line = diagram.segment_line(&seg).unwrap().unwrap();
    assert_eq!(line.start.station, "B");
    assert_eq!(line.end.station, "B");
    assert_eq!(line.start.time, 620);
    assert_eq!(line.end.time, 620);
    assert_eq!((line.start.distance, line.start.total), (0, 0));
    assert_eq!((line.end.distance, line.end.total), (0, 0));
}

#[test]
fn example_missing_distance_skips_only_that_segment() {
    let index = DistanceIndex::new(vec![
        record("A", "B", 10),
        record("B", "C", 20),
    ]);
    assert_eq!(
        index.lookup(&"C".to_string(), &"D".to_string()),
        Err(GeometryError::MissingDistance { from: "C".to_string(), to: "D".to_string() })
    );
    let diagram = Diagram::new(display(&["A", "B", "C"]), index).unwrap();
    let segments = vec![
        segment(600, 660, &["A", "B", "C", "D"]),
        segment(700, 730, &["C", "B", "A"]),
    ];
    let mut drawn = Vec::new();
    let mut skipped = Vec::new();
    for seg in &segments {
        match diagram.segment_line(seg) {
            Ok(Some(line)) => drawn.push(line),
            Ok(None) => {}
            Err(e) => skipped.push(e),
        }
    }
    assert_eq!(
        skipped,
        vec![GeometryError::MissingDistance { from: "C".to_string(), to: "D".to_string() }]
    );
    assert_eq!(drawn.len(), 1);
    assert_eq!(drawn[0].start.station, "C");
    assert_eq!(drawn[0].start.time, 700);
    assert_eq!((drawn[0].start.distance, drawn[0].start.total), (30, 30));
    assert_eq!(drawn[0].end.station, "A");
    assert_eq!(drawn[0].end.time, 730);
    assert_eq!((drawn[0].end.distance, drawn[0].end.total), (0, 30));
}

#[test]
fn segment_line_spans_the_displayed_stretch() {
    let index = DistanceIndex::new(vec![
        record("A", "B", 10),
        record("B", "C", 20),
        record("C", "D", 30),
    ]);
    let diagram = Diagram::new(display(&["B", "C"]), index).unwrap();
    let line = diagram.segment_line(&segment(600, 660, &["A", "B", "C", "D"])).unwrap().unwrap();
    assert_eq!((line.start.station.as_str(), line.start.time), ("B", 610));
    assert_eq!((line.end.station.as_str(), line.end.time), ("C", 630));
    assert_eq!((line.start.distance, line.start.total), (0, 20));
    assert_eq!((line.end.distance, line.end.total), (20, 20));
    assert!(diagram.segment_line(&segment(0, 5, &["A", "D"])).unwrap().is_none());
    assert_eq!(
        diagram.segment_line(&segment(0, 5, &["B"])).err(),
        Some(GeometryError::DegenerateSequence)
    );
}

#[test]
fn diagram_needs_a_resolvable_axis() {
    let index = abc_index();
    assert_eq!(
        Diagram::new(display(&["A", "D"]), abc_index()).err(),
        Some(GeometryError::MissingDistance { from: "A".to_string(), to: "D".to_string() })
    );
    let zero = DistanceIndex::new(vec![record("A", "B", 0)]);
    assert_eq!(Diagram::new(display(&["A", "B"]), zero).err(), Some(GeometryError::DegenerateSequence));
    assert_eq!(Diagram::new(display(&["A", "B", "C"]), index).unwrap().axis.len(), 3);
}

#[test]
fn axis_x_scales_down() {
    assert_eq!(axis_x(10, 30, 700), 233);
    assert_eq!(axis_x(30, 30, 700), 700);
    assert_eq!(axis_x(0, 30, 700), 0);
}
