use scenario_sim::classification::{Color, OsmClass, OsmClassifier};
use scenario_sim::geometry::{Polygon, Pt2D};
use scenario_sim::map::{CityMap, GPSBounds, LonLat, Building, Road};
use scenario_sim::neighborhood::{Neighborhood, NeighborhoodBuilder};
use scenario_sim::osmosis::UNITS_PER_DEGREE;
use scenario_sim::run_loop::{speed_report_due, Event, ExpectationTracker, RunStatus};
use scenario_sim::selection::{calculate_current_selection, Candidate, ObjectKind};
use scenario_sim::tick::Tick;

fn pt(x: i32, y: i32) -> Pt2D {
    Pt2D { x, y }
}

#[test]
fn square_contains_inner_points_only() {
    let sq = Polygon::new(vec![pt(0, 0), pt(10, 0), pt(10, 10), pt(0, 10)]);
    assert!(sq.contains_pt(pt(5, 5)));
    assert!(sq.contains_pt(pt(0, 0)));
    // Points on the ring count as inside.
    assert!(sq.contains_pt(pt(10, 5)));
    assert!(sq.contains_pt(pt(5, 10)));
    assert!(sq.contains_pt(pt(10, 10)));
    assert!(!sq.contains_pt(pt(11, 5)));
    assert!(!sq.contains_pt(pt(-1, 5)));
    assert!(!sq.contains_pt(pt(5, 11)));
    let tri = Polygon::new(vec![pt(0, 0), pt(10, 0), pt(0, 10)]);
    assert!(tri.contains_pt(pt(2, 2)));
    assert!(!tri.contains_pt(pt(8, 8)));
    assert!(tri.contains_pt(pt(5, 5)));
    assert!(!tri.contains_pt(pt(6, 5)));
    assert!(!Polygon::new(vec![]).contains_pt(pt(0, 0)));
}

fn grid_map() -> CityMap {
    let mut buildings = Vec::new();
    let mut roads = Vec::new();
    let mut id = 0;
    for x in [0, 7, 50] {
        for y in [0, 50, 50] {
            buildings.push(Building { id, center: pt(x, y) });
            roads.push(Road { id, first_pt: pt(y, x) });
            id += 1;
        }
    }
    CityMap {
        name: "grid".to_string(),
        max_x: 50,
        max_y: 50,
        gps_bounds: GPSBounds { min_lon: 0, min_lat: 0, max_lon: 50, max_lat: 50 },
        buildings,
        roads,
        intersections: vec![],
    }
}

#[test]
fn everywhere_matches_all_buildings_and_roads() {
    let map = grid_map();
    let all = Neighborhood::make_everywhere(&map);
    assert_eq!(all.name, "_everywhere_");
    assert_eq!(all.map_name, "grid");
    assert_eq!(all.find_matching_buildings(&map), (0..9).collect::<Vec<usize>>());
    assert_eq!(all.find_matching_roads(&map), (0..9).collect::<Vec<usize>>());
    assert_eq!(all.polygon.points, vec![pt(0, 0), pt(50, 0), pt(50, 50), pt(0, 50), pt(0, 0)]);
}

#[test]
fn a_neighborhood_matches_by_centroid() {
    let map = grid_map();
    let n = Neighborhood {
        map_name: "grid".to_string(),
        name: "low".to_string(),
        polygon: Polygon::new(vec![pt(0, 0), pt(20, 0), pt(20, 20), pt(0, 20)]),
    };
    assert_eq!(n.find_matching_buildings(&map), vec![0, 3]);
    assert_eq!(n.find_matching_roads(&map), vec![0, 3]);
}

#[test]
fn osmosis_body_closes_the_ring() {
    let whole = NeighborhoodBuilder {
        map_name: "m".to_string(),
        name: "p".to_string(),
        points: vec![
            LonLat { longitude: 10_000_000, latitude: 20_000_000 },
            LonLat { longitude: 30_000_000, latitude: 40_000_000 },
            LonLat { longitude: 50_000_000, latitude: 60_000_000 },
        ],
    };
    let text: String = whole.osmosis_body().into_iter().collect();
    assert_eq!(text, "1\n     1    2\n     3    4\n     5    6\n     1    2\nEND\nEND\n");
    let b = NeighborhoodBuilder {
        map_name: "m".to_string(),
        name: "n".to_string(),
        points: vec![
            LonLat { longitude: -1_223_046_000, latitude: 476_500_001 },
            LonLat { longitude: 5, latitude: 0 },
            LonLat { longitude: -7, latitude: 10_000_000 },
        ],
    };
    let text: String = b.osmosis_body().into_iter().collect();
    assert_eq!(
        text,
        "1\n     -122.3046    47.6500001\n     0.0000005    0\n     -0.0000007    1\n     -122.3046    47.6500001\nEND\nEND\n"
    );
    assert_eq!(UNITS_PER_DEGREE, 10_000_000);
}

#[test]
fn ticks_count_tenths_of_seconds() {
    assert_eq!(Tick::from_seconds(5), Tick(50));
    assert_eq!(Tick::from_minutes(1), Tick(600));
    assert_eq!(Tick(9).next(), Tick(10));
    assert!(Tick(1200).is_multiple_of(Tick(600)));
    assert!(speed_report_due(Tick(600)));
    assert!(!speed_report_due(Tick(601)));
    assert!(speed_report_due(Tick(0)));
}

#[test]
fn expectations_met_in_order() {
    let a = Event::PedReachedBuilding(1, 2);
    let b = Event::CarReachedParkingSpot(3, 4);
    let c = Event::PedReachedBorder(5, 6);
    let mut t = ExpectationTracker::new(vec![a, b], Tick(100));
    // b before a does not count for b.
    assert_eq!(t.observe(&vec![b, a], Tick(1)), RunStatus::KeepGoing);
    assert_eq!(t.remaining(), vec![b]);
    assert_eq!(t.observe(&vec![c], Tick(2)), RunStatus::KeepGoing);
    assert_eq!(t.observe(&vec![c, b, a], Tick(3)), RunStatus::AllMet);
    assert!(t.is_met());
    assert!(t.remaining().is_empty());
}

#[test]
fn time_limit_reports_unmet_remainder() {
    let a = Event::BusArrivedAtStop(1, 2);
    let b = Event::PedEntersBus(3, 1);
    let mut t = ExpectationTracker::new(vec![a, b, a], Tick(2));
    assert_eq!(t.observe(&vec![a], Tick(1)), RunStatus::KeepGoing);
    assert_eq!(t.observe(&vec![a, a], Tick(2)), RunStatus::TimeLimitHit);
    assert_eq!(t.remaining(), vec![b, a]);
}

#[test]
fn empty_expectations_are_met_at_once() {
    let mut t = ExpectationTracker::new(vec![], Tick(5));
    assert!(t.is_met());
    assert_eq!(t.observe(&vec![], Tick(5)), RunStatus::AllMet);
}

#[test]
fn osm_classifier_colors() {
    assert!(OsmClassifier::new(true).is_some());
    assert!(OsmClassifier::new(false).is_none());
    let mut c = OsmClassifier::new(true).unwrap();
    assert!(c.blocking_event(false));
    assert!(!c.blocking_event(true));
    let tag = |s: &str| s.to_string();
    assert_eq!(c.class_for_lane(true, Some(&tag("motorway_link"))), Some(OsmClass::Motorway));
    assert_eq!(c.class_for_lane(true, Some(&tag("trunk"))), Some(OsmClass::Trunk));
    assert_eq!(c.class_for_lane(true, Some(&tag("primary_link"))), Some(OsmClass::Primary));
    assert_eq!(c.class_for_lane(true, Some(&tag("secondary"))), Some(OsmClass::Secondary));
    assert_eq!(c.class_for_lane(true, Some(&tag("residential"))), Some(OsmClass::Residential));
    assert_eq!(c.class_for_lane(true, Some(&tag("service"))), None);
    assert_eq!(c.class_for_lane(true, None), None);
    assert_eq!(c.class_for_lane(false, Some(&tag("motorway"))), None);
    assert_eq!(c.class_for_building(true), Some(OsmClass::House));
    assert_eq!(c.class_for_building(false), None);
    assert_eq!(OsmClass::Motorway.default_color(), Color { r: 231, g: 141, b: 159 });
    assert_eq!(OsmClass::Trunk.default_color(), Color { r: 249, g: 175, b: 152 });
    assert_eq!(OsmClass::House.color_name(), "OSM house");
    assert_eq!(OsmClass::Residential.color_name(), "OSM residential");
}

#[test]
fn selection_picks_frontmost_allowed_object() {
    let road = Candidate { kind: ObjectKind::Road, id: 1, under_cursor: true };
    let inter = Candidate { kind: ObjectKind::Intersection, id: 2, under_cursor: true };
    let bldg = Candidate { kind: ObjectKind::Building, id: 3, under_cursor: true };
    let missed = Candidate { kind: ObjectKind::Building, id: 4, under_cursor: false };
    let area = Candidate { kind: ObjectKind::Area, id: 5, under_cursor: true };
    let all = vec![missed, road, inter, bldg, area];
    assert_eq!(calculate_current_selection(&all, false, false, false), None);
    assert_eq!(calculate_current_selection(&all, false, true, false), Some(road));
    assert_eq!(calculate_current_selection(&all, false, false, true), Some(bldg));
    assert_eq!(calculate_current_selection(&all, true, false, false), Some(inter));
    assert_eq!(calculate_current_selection(&vec![area], true, false, false), Some(area));
    assert_eq!(calculate_current_selection(&vec![area], false, true, true), None);
}
