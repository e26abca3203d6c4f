use scenario_sim::map::{Building, CityMap, GPSBounds, Intersection, LonLat, Road};
use scenario_sim::geometry::Pt2D;
use scenario_sim::neighborhood::{Neighborhood, NeighborhoodBuilder};
use scenario_sim::scenario::{
    BorderSpawnOverTime, OriginDestination, Scenario, SeedParkedCars, SpawnOverTime,
};
use scenario_sim::sim::{DrivingGoal, Sim, SidewalkSpot, Trip, WeightedUsizeChoice};
use scenario_sim::spawn::{big_spawn_scenario, small_spawn_scenario};
use scenario_sim::tick::Tick;

fn pt(x: i32, y: i32) -> Pt2D {
    Pt2D { x, y }
}

fn test_map() -> CityMap {
    CityMap {
        name: "test_town".to_string(),
        max_x: 100,
        max_y: 100,
        gps_bounds: GPSBounds { min_lon: 0, min_lat: 0, max_lon: 1000, max_lat: 1000 },
        buildings: vec![
            Building { id: 0, center: pt(10, 10) },
            Building { id: 1, center: pt(20, 80) },
            Building { id: 2, center: pt(90, 90) },
            Building { id: 3, center: pt(100, 100) },
            Building { id: 4, center: pt(0, 0) },
        ],
        roads: vec![
            Road { id: 0, first_pt: pt(5, 5) },
            Road { id: 1, first_pt: pt(60, 60) },
            Road { id: 2, first_pt: pt(100, 0) },
        ],
        intersections: vec![
            Intersection {
                id: 0,
                is_border: true,
                incoming_driving_lanes: vec![12, 14],
                outgoing_driving_lanes: vec![10, 15],
                incoming_sidewalk: Some(13),
                outgoing_sidewalk: Some(11),
            },
            Intersection {
                id: 1,
                is_border: false,
                incoming_driving_lanes: vec![1],
                outgoing_driving_lanes: vec![2],
                incoming_sidewalk: None,
                outgoing_sidewalk: None,
            },
            Intersection {
                id: 2,
                is_border: true,
                incoming_driving_lanes: vec![20],
                outgoing_driving_lanes: vec![],
                incoming_sidewalk: None,
                outgoing_sidewalk: None,
            },
            Intersection {
                id: 3,
                is_border: true,
                incoming_driving_lanes: vec![],
                outgoing_driving_lanes: vec![30],
                incoming_sidewalk: None,
                outgoing_sidewalk: None,
            },
        ],
    }
}

fn everywhere() -> String {
    "_everywhere_".to_string()
}

fn west_side() -> (String, Neighborhood) {
    let n = Neighborhood {
        map_name: "test_town".to_string(),
        name: "west".to_string(),
        polygon: scenario_sim::geometry::Polygon::new(vec![pt(0, 0), pt(50, 0), pt(50, 101), pt(0, 101)]),
    };
    ("west".to_string(), n)
}

fn basic_scenario() -> Scenario {
    Scenario {
        scenario_name: "basic".to_string(),
        map_name: "test_town".to_string(),
        seed_parked_cars: vec![SeedParkedCars {
            neighborhood: everywhere(),
            cars_per_building: WeightedUsizeChoice { weights: vec![5, 5] },
        }],
        spawn_over_time: vec![
            SpawnOverTime {
                num_agents: 40,
                start_tick: Tick(0),
                stop_tick: Tick(50),
                start_from_neighborhood: everywhere(),
                goal: OriginDestination::Neighborhood("west".to_string()),
            },
            SpawnOverTime {
                num_agents: 10,
                start_tick: Tick(100),
                stop_tick: Tick(110),
                start_from_neighborhood: "west".to_string(),
                goal: OriginDestination::Border(2),
            },
        ],
        border_spawn_over_time: vec![BorderSpawnOverTime {
            num_peds: 7,
            num_cars: 5,
            start_tick: Tick(20),
            stop_tick: Tick(30),
            start_from_border: 0,
            goal: OriginDestination::Neighborhood(everywhere()),
        }],
    }
}

#[test]
fn spawn_times_lie_in_their_windows() {
    let map = test_map();
    let mut sim = Sim::new(42);
    basic_scenario().instantiate(&mut sim, &map, &vec![west_side()]);
    assert!(!sim.trips.is_empty());
    // The draws vary: neither every start tick nor every origin is the same.
    let mut starts: Vec<u64> = sim.trips.iter().map(|t| t.start().0).filter(|s| *s < 50).collect();
    starts.sort();
    starts.dedup();
    assert!(starts.len() > 5);
    let mut origins: Vec<usize> = sim
        .trips
        .iter()
        .filter_map(|t| match t {
            Trip::UsingParkedCar { from_bldg, .. } => Some(*from_bldg),
            Trip::JustWalking { from: SidewalkSpot::Building(b), .. } => Some(*b),
            _ => None,
        })
        .collect();
    origins.sort();
    origins.dedup();
    assert!(origins.len() > 2);
    for t in &sim.trips {
        let s = t.start().0;
        let ok = s < 50 || (100..110).contains(&s) || (20..30).contains(&s);
        assert!(ok, "start {} outside every window", s);
    }
}

#[test]
fn no_parked_car_is_used_twice() {
    let map = test_map();
    let mut sim = Sim::new(7);
    basic_scenario().instantiate(&mut sim, &map, &vec![west_side()]);
    let mut cars: Vec<usize> = Vec::new();
    for t in &sim.trips {
        if let Trip::UsingParkedCar { car, from_bldg, .. } = t {
            assert!(!cars.contains(car));
            cars.push(*car);
            let parked = sim.lookup_car(*car).unwrap();
            assert_eq!(parked.owner, *from_bldg);
        }
    }
    assert!(!cars.is_empty());
}

#[test]
fn same_seed_gives_same_trips() {
    let map = test_map();
    let mut a = Sim::new(3);
    let mut b = Sim::new(3);
    basic_scenario().instantiate(&mut a, &map, &vec![west_side()]);
    basic_scenario().instantiate(&mut b, &map, &vec![west_side()]);
    assert_eq!(a.trips, b.trips);
    assert_eq!(a.parked_cars, b.parked_cars);
}

#[test]
fn trip_kinds_follow_their_records() {
    let map = test_map();
    let mut sim = Sim::new(11);
    basic_scenario().instantiate(&mut sim, &map, &vec![west_side()]);
    let mut peds_at_border = 0;
    let mut cars_at_border = 0;
    for t in &sim.trips {
        match t {
            Trip::UsingParkedCar { start, goal, .. } => {
                if start.0 < 50 {
                    // West side: buildings 0, 1 and 4.
                    assert!(matches!(goal, DrivingGoal::ParkNear(0) | DrivingGoal::ParkNear(1) | DrivingGoal::ParkNear(4)));
                } else {
                    assert_eq!(*goal, DrivingGoal::Border(2, 20));
                }
            }
            Trip::JustWalking { from, to, start } => match from {
                SidewalkSpot::StartAtBorder(i, sw) => {
                    assert_eq!((*i, *sw), (0, 11));
                    assert!((20..30).contains(&start.0));
                    peds_at_border += 1;
                }
                SidewalkSpot::Building(b) => {
                    assert!(*b < 5);
                    assert!(start.0 < 50, "border 2 has no sidewalk to walk to");
                    assert!(matches!(to, SidewalkSpot::Building(0) | SidewalkSpot::Building(1) | SidewalkSpot::Building(4)));
                }
                _ => panic!("unexpected start"),
            },
            Trip::CarAtBorder { lane, start, .. } => {
                assert_eq!(*lane, 10);
                assert!((20..30).contains(&start.0));
                cars_at_border += 1;
            }
        }
    }
    assert_eq!(peds_at_border, 7);
    assert_eq!(cars_at_border, 5);
}

#[test]
fn free_car_and_goal_means_driving() {
    let map = test_map();
    let mut sim = Sim::new(5);
    // Only building 0 exists in this neighborhood, and it owns one car.
    let only_b0 = Neighborhood {
        map_name: "test_town".to_string(),
        name: "corner".to_string(),
        polygon: scenario_sim::geometry::Polygon::new(vec![pt(8, 8), pt(12, 8), pt(12, 12), pt(8, 12)]),
    };
    let ids = sim.seed_specific_parked_cars(0, 0, &vec![0]);
    assert_eq!(ids, vec![0]);
    let s = Scenario {
        scenario_name: "one_car".to_string(),
        map_name: "test_town".to_string(),
        seed_parked_cars: vec![],
        spawn_over_time: vec![SpawnOverTime {
            num_agents: 3,
            start_tick: Tick(0),
            stop_tick: Tick(10),
            start_from_neighborhood: "corner".to_string(),
            goal: OriginDestination::Neighborhood("corner".to_string()),
        }],
        border_spawn_over_time: vec![],
    };
    s.instantiate(&mut sim, &map, &vec![("corner".to_string(), only_b0)]);
    assert_eq!(sim.trips.len(), 3);
    assert!(matches!(sim.trips[0], Trip::UsingParkedCar { car: 0, from_bldg: 0, goal: DrivingGoal::ParkNear(0), .. }));
    for t in &sim.trips[1..] {
        assert!(matches!(t, Trip::JustWalking { from: SidewalkSpot::Building(0), to: SidewalkSpot::Building(0), .. }));
    }
}

#[test]
fn no_driving_goal_falls_back_to_walking() {
    let map = test_map();
    let mut sim = Sim::new(9);
    sim.seed_specific_parked_cars(0, 0, &vec![0, 1]);
    let corner = Neighborhood {
        map_name: "test_town".to_string(),
        name: "corner".to_string(),
        polygon: scenario_sim::geometry::Polygon::new(vec![pt(8, 8), pt(12, 8), pt(12, 12), pt(8, 12)]),
    };
    let s = Scenario {
        scenario_name: "to_border".to_string(),
        map_name: "test_town".to_string(),
        seed_parked_cars: vec![],
        spawn_over_time: vec![SpawnOverTime {
            num_agents: 2,
            start_tick: Tick(0),
            stop_tick: Tick(10),
            start_from_neighborhood: "corner".to_string(),
            // Border 3 has no lane into it and no sidewalk: nobody can go there.
            goal: OriginDestination::Border(3),
        }],
        border_spawn_over_time: vec![],
    };
    s.instantiate(&mut sim, &map, &vec![("corner".to_string(), corner)]);
    assert!(sim.trips.is_empty());
    // Border 0 has a sidewalk and lanes: both agents drive, one car each.
    let s2 = Scenario {
        spawn_over_time: vec![SpawnOverTime {
            num_agents: 3,
            start_tick: Tick(0),
            stop_tick: Tick(10),
            start_from_neighborhood: "corner".to_string(),
            goal: OriginDestination::Border(0),
        }],
        ..s
    };
    let corner2 = Neighborhood {
        map_name: "test_town".to_string(),
        name: "corner".to_string(),
        polygon: scenario_sim::geometry::Polygon::new(vec![pt(8, 8), pt(12, 8), pt(12, 12), pt(8, 12)]),
    };
    let mut sim2 = Sim::new(9);
    sim2.seed_specific_parked_cars(0, 0, &vec![0, 1]);
    s2.instantiate(&mut sim2, &map, &vec![("corner".to_string(), corner2)]);
    assert_eq!(sim2.trips.len(), 3);
    assert!(matches!(sim2.trips[0], Trip::UsingParkedCar { car: 0, goal: DrivingGoal::Border(0, 12), .. }));
    assert!(matches!(sim2.trips[1], Trip::UsingParkedCar { car: 1, goal: DrivingGoal::Border(0, 12), .. }));
    assert!(matches!(sim2.trips[2], Trip::JustWalking { to: SidewalkSpot::EndAtBorder(0, 13), .. }));
}

#[test]
fn border_without_sidewalk_skips_all_pedestrians() {
    let map = test_map();
    let mut sim = Sim::new(1);
    let s = Scenario {
        scenario_name: "border3".to_string(),
        map_name: "test_town".to_string(),
        seed_parked_cars: vec![],
        spawn_over_time: vec![],
        border_spawn_over_time: vec![BorderSpawnOverTime {
            num_peds: 4,
            num_cars: 2,
            start_tick: Tick(0),
            stop_tick: Tick(5),
            start_from_border: 3,
            goal: OriginDestination::Neighborhood(everywhere()),
        }],
    };
    s.instantiate(&mut sim, &map, &vec![]);
    assert_eq!(sim.trips.len(), 2);
    for t in &sim.trips {
        assert!(matches!(t, Trip::CarAtBorder { lane: 30, .. }));
    }
}

#[test]
fn seeding_parks_cars_on_matched_roads() {
    let map = test_map();
    let mut sim = Sim::new(2);
    let s = Scenario {
        scenario_name: "seed".to_string(),
        map_name: "test_town".to_string(),
        seed_parked_cars: vec![SeedParkedCars {
            neighborhood: "west".to_string(),
            cars_per_building: WeightedUsizeChoice { weights: vec![0, 0, 3] },
        }],
        spawn_over_time: vec![],
        border_spawn_over_time: vec![],
    };
    s.instantiate(&mut sim, &map, &vec![west_side()]);
    // Three west buildings, exactly two cars each, on the west road.
    assert_eq!(sim.parked_cars.len(), 6);
    for (k, c) in sim.parked_cars.iter().enumerate() {
        assert_eq!(c.car, k);
        assert!([0, 1, 4].contains(&c.owner));
        assert_eq!(c.road, 0);
    }
    assert_eq!(sim.get_parked_cars_by_owner(1).len(), 2);
}

#[test]
fn small_spawn_counts_attempted_agents() {
    let map = test_map();
    let s = small_spawn_scenario(&map);
    assert_eq!(s.scenario_name, "small_spawn");
    assert_eq!(s.seed_parked_cars[0].cars_per_building.weights, vec![5, 5]);
    // Incoming borders: 0 and 3. Outgoing borders: 0 and 2.
    assert_eq!(map.all_incoming_borders(), vec![0, 3]);
    assert_eq!(map.all_outgoing_borders(), vec![0, 2]);
    let attempted: usize = s.spawn_over_time.iter().map(|r| r.num_agents).sum::<usize>()
        + s.border_spawn_over_time.iter().map(|r| r.num_peds + r.num_cars).sum::<usize>();
    assert_eq!(attempted, 100 + 10 * 2 + 10 * 2 + 10 * 2);
    for r in &s.spawn_over_time {
        assert_eq!((r.start_tick.0, r.stop_tick.0), (0, 50));
    }
    let mut sim = Sim::new(4);
    sim.small_spawn(&map);
    assert!(sim.trips.len() <= attempted);
    assert!(sim.trips.len() >= 100);
    assert!(sim.trips.iter().all(|t| t.start().0 < 50));
    // Border 3 has no sidewalk: its ten pedestrians are skipped, its ten cars are not.
    let at_3 = sim.trips.iter().filter(|t| matches!(t, Trip::CarAtBorder { lane: 30, .. })).count();
    assert_eq!(at_3, 10);
}

#[test]
fn big_spawn_counts_attempted_agents() {
    let map = test_map();
    let s = big_spawn_scenario(&map);
    assert_eq!(s.scenario_name, "big_spawn");
    assert_eq!(s.seed_parked_cars[0].cars_per_building.weights, vec![2, 8]);
    assert_eq!(s.spawn_over_time.len(), 1);
    assert_eq!(s.spawn_over_time[0].num_agents, 1000);
    assert_eq!(s.border_spawn_over_time.len(), 2);
    let mut sim = Sim::new(4);
    sim.big_spawn(&map);
    assert!(sim.trips.len() <= 1000 + 400);
    assert!(sim.trips.len() >= 1000);
}

#[test]
fn make_ped_using_car_starts_next_tick() {
    let mut sim = Sim::new(1);
    sim.time = Tick(41);
    let ids = sim.seed_specific_parked_cars(2, 3, &vec![0, 1, 2]);
    assert_eq!(ids, vec![0, 1, 2]);
    sim.make_ped_using_car(1, DrivingGoal::ParkNear(4));
    assert_eq!(
        sim.trips,
        vec![Trip::UsingParkedCar { start: Tick(42), car: 1, from_bldg: 3, goal: DrivingGoal::ParkNear(4) }]
    );
    sim.spawn_specific_pedestrian(SidewalkSpot::Building(1), SidewalkSpot::Building(2));
    assert_eq!(
        sim.trips[1],
        Trip::JustWalking { start: Tick(42), from: SidewalkSpot::Building(1), to: SidewalkSpot::Building(2) }
    );
}

#[test]
fn weighted_choice_only_draws_positive_weights() {
    let mut sim = Sim::new(8);
    let w = WeightedUsizeChoice { weights: vec![0, 4, 0, 1] };
    let mut seen = [0usize; 4];
    for _ in 0..200 {
        let k = w.sample(&mut sim.rng);
        assert!(k == 1 || k == 3);
        seen[k] += 1;
    }
    assert!(seen[1] > seen[3] && seen[3] > 0);
    assert_eq!(w.index_for_roll(0), 1);
    assert_eq!(w.index_for_roll(3), 1);
    assert_eq!(w.index_for_roll(4), 3);
    let single = WeightedUsizeChoice { weights: vec![0, 0, 9] };
    assert_eq!(single.sample(&mut sim.rng), 2);
}

#[test]
fn finalize_projects_points() {
    let b = NeighborhoodBuilder {
        map_name: "test_town".to_string(),
        name: "tri".to_string(),
        points: vec![
            LonLat { longitude: 10, latitude: 990 },
            LonLat { longitude: 60, latitude: 990 },
            LonLat { longitude: 10, latitude: 900 },
        ],
    };
    let n = b.finalize(&test_map().gps_bounds);
    assert_eq!(n.name, "tri");
    assert_eq!(n.map_name, "test_town");
    assert_eq!(n.polygon.points, vec![pt(10, 10), pt(60, 10), pt(10, 100)]);
    assert_eq!(Pt2D::from_gps(LonLat { longitude: 1001, latitude: 5 }, &test_map().gps_bounds), None);
}

#[test]
fn whole_map_neighborhood_replaces_a_saved_one() {
    let map = test_map();
    let tiny = Neighborhood {
        map_name: "test_town".to_string(),
        name: "_everywhere_".to_string(),
        polygon: scenario_sim::geometry::Polygon::new(vec![pt(8, 8), pt(12, 8), pt(12, 12), pt(8, 12)]),
    };
    let s = Scenario {
        scenario_name: "everywhere".to_string(),
        map_name: "test_town".to_string(),
        seed_parked_cars: vec![],
        spawn_over_time: vec![SpawnOverTime {
            num_agents: 60,
            start_tick: Tick(0),
            stop_tick: Tick(10),
            start_from_neighborhood: everywhere(),
            goal: OriginDestination::Neighborhood(everywhere()),
        }],
        border_spawn_over_time: vec![],
    };
    let mut sim = Sim::new(6);
    s.instantiate(&mut sim, &map, &vec![("_everywhere_".to_string(), tiny)]);
    assert_eq!(sim.trips.len(), 60);
    let mut origins: Vec<usize> = sim
        .trips
        .iter()
        .map(|t| match t {
            Trip::JustWalking { from: SidewalkSpot::Building(b), .. } => *b,
            _ => panic!("nobody owns a car"),
        })
        .collect();
    origins.sort();
    origins.dedup();
    assert_eq!(origins, vec![0, 1, 2, 3, 4]);
}

#[test]
fn later_saved_neighborhood_of_a_name_wins() {
    let map = test_map();
    let west = west_side().1;
    let east = Neighborhood {
        map_name: "test_town".to_string(),
        name: "side".to_string(),
        polygon: scenario_sim::geometry::Polygon::new(vec![pt(85, 85), pt(95, 85), pt(95, 95), pt(85, 95)]),
    };
    let s = Scenario {
        scenario_name: "side".to_string(),
        map_name: "test_town".to_string(),
        seed_parked_cars: vec![],
        spawn_over_time: vec![SpawnOverTime {
            num_agents: 5,
            start_tick: Tick(0),
            stop_tick: Tick(10),
            start_from_neighborhood: "side".to_string(),
            goal: OriginDestination::Neighborhood("side".to_string()),
        }],
        border_spawn_over_time: vec![],
    };
    let mut sim = Sim::new(6);
    s.instantiate(&mut sim, &map, &vec![("side".to_string(), west), ("side".to_string(), east)]);
    assert_eq!(sim.trips.len(), 5);
    for t in &sim.trips {
        assert!(matches!(t, Trip::JustWalking { from: SidewalkSpot::Building(2), to: SidewalkSpot::Building(2), .. }));
    }
}
