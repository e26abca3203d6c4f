use vstd::prelude::*;
use crate::geometry::Pt2D;
use crate::map::CityMap;
use crate::neighborhood::{
    Neighborhood, everywhere_name, everywhere_ring, matched_buildings, matched_roads,
};
use crate::random::{choose_id, gen_range_u64};
use crate::sim::{DrivingGoal, ParkedCar, Sim, SidewalkSpot, Trip, WeightedUsizeChoice, cars_owned_by, seeded_in_turn};
use crate::tick::Tick;
use rand::prng::XorShiftRng;

verus! {

/// A symbolic origin or goal: a named neighborhood, or a border intersection.
#[derive(Clone, Debug)]
pub enum OriginDestination {
    Neighborhood(String),
    Border(usize),
}

/// `num_agents` agents leaving a neighborhood during `[start_tick, stop_tick)`;
/// each picks its mode when it is spawned.
#[derive(Clone, Debug)]
pub struct SpawnOverTime {
    pub num_agents: usize,
    pub start_tick: Tick,
    pub stop_tick: Tick,
    pub start_from_neighborhood: String,
    pub goal: OriginDestination,
}

/// Pedestrians and cars entering the map at a border during
/// `[start_tick, stop_tick)`.
#[derive(Clone, Debug)]
pub struct BorderSpawnOverTime {
    pub num_peds: usize,
    pub num_cars: usize,
    pub start_tick: Tick,
    pub stop_tick: Tick,
    pub start_from_border: usize,
    pub goal: OriginDestination,
}

/// Parked cars to place in a neighborhood before any trip starts.
#[derive(Clone, Debug)]
pub struct SeedParkedCars {
    pub neighborhood: String,
    pub cars_per_building: WeightedUsizeChoice,
}

/// A declarative description of the demand of one simulation run.
#[derive(Clone, Debug)]
pub struct Scenario {
    pub scenario_name: String,
    pub map_name: String,
    pub seed_parked_cars: Vec<SeedParkedCars>,
    pub spawn_over_time: Vec<SpawnOverTime>,
    pub border_spawn_over_time: Vec<BorderSpawnOverTime>,
}

/// The position of the last persisted neighborhood among the first `n` that is
/// filed under `name`; later ones replace earlier ones.
pub open spec fn last_named(p: Seq<(String, Neighborhood)>, name: Seq<char>, n: int) -> Option<int>
    decreases n,
{
    if n <= 0 {
        None
    } else if p[n - 1].0@ == name {
        Some(n - 1)
    } else {
        last_named(p, name, n - 1)
    }
}

/// A name that demand can refer to: the whole-map neighborhood, or a persisted one.
pub open spec fn declared(p: Seq<(String, Neighborhood)>, name: Seq<char>) -> bool {
    name == everywhere_name() || last_named(p, name, p.len() as int).is_some()
}

/// The polygon that a declared name stands for. The whole-map neighborhood
/// replaces any persisted one of the same name.
pub open spec fn named_polygon(map: CityMap, p: Seq<(String, Neighborhood)>, name: Seq<char>) -> Seq<Pt2D> {
    if name == everywhere_name() {
        everywhere_ring(map)
    } else {
        match last_named(p, name, p.len() as int) {
            Some(k) => p[k].1.polygon.points@,
            None => seq![],
        }
    }
}

/// The buildings that a named neighborhood matches.
pub open spec fn named_buildings(map: CityMap, p: Seq<(String, Neighborhood)>, name: Seq<char>) -> Seq<usize> {
    matched_buildings(map, named_polygon(map, p, name))
}

/// The roads that a named neighborhood matches.
pub open spec fn named_roads(map: CityMap, p: Seq<(String, Neighborhood)>, name: Seq<char>) -> Seq<usize> {
    matched_roads(map, named_polygon(map, p, name))
}

proof fn lemma_last_named_skip(p: Seq<(String, Neighborhood)>, name: Seq<char>, m: int, n: int)
    requires
        0 <= m <= n <= p.len(),
        forall|j: int| m <= j < n ==> #[trigger] p[j].0@ != name,
    ensures
        last_named(p, name, n) == last_named(p, name, m),
    decreases n - m,
{
    if m < n {
        lemma_last_named_skip(p, name, m, n - 1);
    }
}

/// The buildings and roads that one neighborhood matches, computed once per
/// instantiation.
pub struct MatchedSets {
    pub name: String,
    pub buildings: Vec<usize>,
    pub roads: Vec<usize>,
}

/// Matched sets for the whole-map neighborhood and each persisted one.
pub struct NeighborhoodIndex {
    pub everywhere: MatchedSets,
    pub persisted: Vec<MatchedSets>,
}

impl NeighborhoodIndex {
    pub open spec fn describes(&self, map: CityMap, p: Seq<(String, Neighborhood)>) -> bool {
        &&& self.everywhere.name@ == everywhere_name()
        &&& self.everywhere.buildings@ == matched_buildings(map, everywhere_ring(map))
        &&& self.everywhere.roads@ == matched_roads(map, everywhere_ring(map))
        &&& self.persisted@.len() == p.len()
        &&& forall|k: int|
            0 <= k < p.len() ==> {
                &&& (#[trigger] self.persisted@[k]).name@ == p[k].0@
                &&& self.persisted@[k].buildings@ == matched_buildings(map, p[k].1.polygon.points@)
                &&& self.persisted@[k].roads@ == matched_roads(map, p[k].1.polygon.points@)
            }
    }

    /// Computes every neighborhood's buildings and roads once.
    pub fn build(map: &CityMap, persisted: &Vec<(String, Neighborhood)>) -> (r: NeighborhoodIndex)
        requires
            map.wf(),
        ensures
            r.describes(*map, persisted@),
    {
        let all = Neighborhood::make_everywhere(map);
        let everywhere = MatchedSets {
            name: all.name.clone(),
            buildings: all.find_matching_buildings(map),
            roads: all.find_matching_roads(map),
        };
        let mut sets: Vec<MatchedSets> = Vec::new();
        let mut i: usize = 0;
        while i < persisted.len()
            invariant
                i <= persisted@.len(),
                sets@.len() == i,
                forall|k: int|
                    0 <= k < i ==> {
                        &&& (#[trigger] sets@[k]).name@ == persisted@[k].0@
                        &&& sets@[k].buildings@ == matched_buildings(*map, persisted@[k].1.polygon.points@)
                        &&& sets@[k].roads@ == matched_roads(*map, persisted@[k].1.polygon.points@)
                    },
            decreases persisted@.len() - i,
        {
            let (name, n) = &persisted[i];
            sets.push(MatchedSets {
                name: name.clone(),
                buildings: n.find_matching_buildings(map),
                roads: n.find_matching_roads(map),
            });
            i = i + 1;
        }
        NeighborhoodIndex { everywhere, persisted: sets }
    }

    /// The sets of a declared name, or None for an undeclared one.
    pub(crate) fn find(&self, name: &String, Ghost(map): Ghost<CityMap>, Ghost(p): Ghost<Seq<(String, Neighborhood)>>) -> (r: Option<&MatchedSets>)
        requires
            self.describes(map, p),
        ensures
            r.is_some() == declared(p, name@),
            r matches Some(m) ==> m.buildings@ == named_buildings(map, p, name@)
                && m.roads@ == named_roads(map, p, name@),
    {
        if *name == self.everywhere.name {
            return Some(&self.everywhere);
        }
        let n = self.persisted.len();
        let mut k: usize = n;
        while k > 0
            invariant
                self.describes(map, p),
                n == p.len(),
                name@ != everywhere_name(),
                k <= n,
                forall|j: int| k <= j < n ==> #[trigger] p[j].0@ != name@,
            decreases k,
        {
            if self.persisted[k - 1].name == *name {
                proof {
                    lemma_last_named_skip(p, name@, k as int, n as int);
                }
                return Some(&self.persisted[k - 1]);
            }
            k = k - 1;
        }
        proof {
            lemma_last_named_skip(p, name@, 0, n as int);
        }
        None
    }
}

/// A driving goal that the resolver can give for `od`.
pub open spec fn driving_goal_fits(od: OriginDestination, g: DrivingGoal, map: CityMap, p: Seq<(String, Neighborhood)>) -> bool {
    match od {
        OriginDestination::Neighborhood(n) => match g {
            DrivingGoal::ParkNear(b) => named_buildings(map, p, n@).contains(b),
            DrivingGoal::Border(_, _) => false,
        },
        OriginDestination::Border(i) => {
            let lanes = map.intersections@[i as int].incoming_driving_lanes@;
            lanes.len() > 0 && g == DrivingGoal::Border(i, lanes[0])
        },
    }
}

/// Whether the resolver finds some driving goal for `od`.
pub open spec fn driving_goal_exists(od: OriginDestination, map: CityMap, p: Seq<(String, Neighborhood)>) -> bool {
    match od {
        OriginDestination::Neighborhood(n) => named_buildings(map, p, n@).len() > 0,
        OriginDestination::Border(i) => map.intersections@[i as int].incoming_driving_lanes@.len() > 0,
    }
}

/// A walking goal that the resolver can give for `od`.
pub open spec fn walking_goal_fits(od: OriginDestination, s: SidewalkSpot, map: CityMap, p: Seq<(String, Neighborhood)>) -> bool {
    match od {
        OriginDestination::Neighborhood(n) => match s {
            SidewalkSpot::Building(b) => named_buildings(map, p, n@).contains(b),
            _ => false,
        },
        OriginDestination::Border(i) => match map.intersections@[i as int].incoming_sidewalk {
            Some(sw) => s == SidewalkSpot::EndAtBorder(i, sw),
            None => false,
        },
    }
}

/// Whether the resolver finds some walking goal for `od`.
pub open spec fn walking_goal_exists(od: OriginDestination, map: CityMap, p: Seq<(String, Neighborhood)>) -> bool {
    match od {
        OriginDestination::Neighborhood(n) => named_buildings(map, p, n@).len() > 0,
        OriginDestination::Border(i) => map.intersections@[i as int].incoming_sidewalk.is_some(),
    }
}

/// A goal that can be looked up: a declared name or an intersection of the map.
pub open spec fn od_valid(od: OriginDestination, map: CityMap, p: Seq<(String, Neighborhood)>) -> bool {
    match od {
        OriginDestination::Neighborhood(n) => declared(p, n@),
        OriginDestination::Border(i) => map.has_intersection(i),
    }
}

impl OriginDestination {
    /// Resolves the goal for a driver: a random building of the neighborhood
    /// to park near, or the first lane into the border intersection.
    fn pick_driving_goal(
        &self,
        map: &CityMap,
        index: &NeighborhoodIndex,
        rng: &mut XorShiftRng,
        Ghost(p): Ghost<Seq<(String, Neighborhood)>>,
    ) -> (r: Option<DrivingGoal>)
        requires
            index.describes(*map, p),
            od_valid(*self, *map, p),
        ensures
            r.is_some() == driving_goal_exists(*self, *map, p),
            self matches OriginDestination::Border(_) ==> *final(rng) == *old(rng),
            r matches Some(g) ==> driving_goal_fits(*self, g, *map, p),
    {
        match self {
            OriginDestination::Neighborhood(n) => {
                let sets = index.find(n, Ghost(*map), Ghost(p)).unwrap();
                match choose_id(rng, &sets.buildings) {
                    Some(b) => Some(DrivingGoal::ParkNear(b)),
                    None => None,
                }
            },
            OriginDestination::Border(i) => {
                let lanes = &map.get_i(*i).incoming_driving_lanes;
                if lanes.len() == 0 {
                    None
                } else {
                    Some(DrivingGoal::Border(*i, lanes[0]))
                }
            },
        }
    }

    /// Resolves the goal for a pedestrian: a random building of the
    /// neighborhood, or the sidewalk leaving the map at the border.
    fn pick_walking_goal(
        &self,
        map: &CityMap,
        index: &NeighborhoodIndex,
        rng: &mut XorShiftRng,
        Ghost(p): Ghost<Seq<(String, Neighborhood)>>,
    ) -> (r: Option<SidewalkSpot>)
        requires
            index.describes(*map, p),
            od_valid(*self, *map, p),
        ensures
            r.is_some() == walking_goal_exists(*self, *map, p),
            self matches OriginDestination::Border(_) ==> *final(rng) == *old(rng),
            r matches Some(s) ==> walking_goal_fits(*self, s, *map, p),
    {
        match self {
            OriginDestination::Neighborhood(n) => {
                let sets = index.find(n, Ghost(*map), Ghost(p)).unwrap();
                match choose_id(rng, &sets.buildings) {
                    Some(b) => Some(SidewalkSpot::Building(b)),
                    None => None,
                }
            },
            OriginDestination::Border(i) => match map.get_i(*i).incoming_sidewalk {
                Some(sw) => Some(SidewalkSpot::EndAtBorder(*i, sw)),
                None => None,
            },
        }
    }
}


/// The car ids that the parked-car trips of a sequence of trips use, in order.
pub open spec fn parked_car_ids(trips: Seq<Trip>) -> Seq<usize>
    decreases trips.len(),
{
    if trips.len() == 0 {
        seq![]
    } else {
        let rest = parked_car_ids(trips.drop_last());
        match trips.last() {
            Trip::UsingParkedCar { car, .. } => rest.push(car),
            _ => rest,
        }
    }
}

proof fn lemma_parked_car_ids_push(trips: Seq<Trip>, n: int, t: Trip)
    requires
        0 <= n <= trips.len(),
    ensures
        parked_car_ids(trips.push(t).skip(n)) == match t {
            Trip::UsingParkedCar { car, .. } => parked_car_ids(trips.skip(n)).push(car),
            _ => parked_car_ids(trips.skip(n)),
        },
{
    assert(trips.push(t).skip(n).drop_last() =~= trips.skip(n));
    assert(trips.push(t).skip(n).last() == t);
}

/// The inventory holds car `car`, owned by building `owner`.
pub open spec fn owns_car(cars: Seq<ParkedCar>, owner: usize, car: usize) -> bool {
    exists|k: int| 0 <= k < cars.len() && #[trigger] cars[k].car == car && cars[k].owner == owner
}

/// `car` is the first car that building `owner` owns, in inventory order,
/// that is not in `used`.
pub open spec fn first_free_car(cars: Seq<ParkedCar>, owner: usize, car: usize, used: Seq<usize>) -> bool {
    let owned = cars_owned_by(cars, owner, cars.len() as int);
    exists|j: int|
        0 <= j < owned.len() && #[trigger] owned[j].car == car && !used.contains(car) && forall|m: int|
            0 <= m < j ==> used.contains(#[trigger] owned[m].car)
}

pub open spec fn in_window(t: Tick, start: Tick, stop: Tick) -> bool {
    start.0 <= t.0 < stop.0
}

/// A trip that a neighborhood record can produce: it starts in the record's
/// window, from a building the origin neighborhood matches, driving a car that
/// building owns or walking, towards a goal that fits the record's goal. A
/// walker whose driving goal would resolve walks only because every car its
/// building owns is in `used`, the cars that earlier trips took.
pub open spec fn from_spawn(
    s: SpawnOverTime,
    t: Trip,
    map: CityMap,
    p: Seq<(String, Neighborhood)>,
    cars: Seq<ParkedCar>,
    used: Seq<usize>,
) -> bool {
    &&& in_window(t.start_spec(), s.start_tick, s.stop_tick)
    &&& match t {
        Trip::UsingParkedCar { car, from_bldg, goal, .. } => {
            &&& named_buildings(map, p, s.start_from_neighborhood@).contains(from_bldg)
            &&& owns_car(cars, from_bldg, car)
            &&& first_free_car(cars, from_bldg, car, used)
            &&& driving_goal_fits(s.goal, goal, map, p)
        },
        Trip::JustWalking { from, to, .. } => {
            &&& from matches SidewalkSpot::Building(b) && named_buildings(map, p, s.start_from_neighborhood@).contains(b)
                && (driving_goal_exists(s.goal, map, p) ==> forall|c: usize|
                #[trigger] owns_car(cars, b, c) ==> used.contains(c))
            &&& walking_goal_fits(s.goal, to, map, p)
        },
        Trip::CarAtBorder { .. } => false,
    }
}

/// A trip that a border record can produce: it starts in the record's window,
/// walking from the border's entering sidewalk or driving from its first
/// outgoing lane, towards a goal that fits the record's goal.
pub open spec fn from_border_spawn(s: BorderSpawnOverTime, t: Trip, map: CityMap, p: Seq<(String, Neighborhood)>) -> bool {
    let x = map.intersections@[s.start_from_border as int];
    &&& in_window(t.start_spec(), s.start_tick, s.stop_tick)
    &&& match t {
        Trip::JustWalking { from, to, .. } => {
            &&& x.outgoing_sidewalk matches Some(sw) && from == SidewalkSpot::StartAtBorder(s.start_from_border, sw)
            &&& walking_goal_fits(s.goal, to, map, p)
        },
        Trip::CarAtBorder { lane, goal, .. } => {
            &&& x.outgoing_driving_lanes@.len() > 0 && lane == x.outgoing_driving_lanes@[0]
            &&& driving_goal_fits(s.goal, goal, map, p)
        },
        Trip::UsingParkedCar { .. } => false,
    }
}

pub open spec fn seeded_from(s: SeedParkedCars, c: ParkedCar, map: CityMap, p: Seq<(String, Neighborhood)>) -> bool {
    &&& named_buildings(map, p, s.neighborhood@).contains(c.owner)
    &&& named_roads(map, p, s.neighborhood@).contains(c.road)
}

/// Trips a neighborhood record owes whatever the draws: every agent travels
/// when its origin neighborhood has a building and a walking goal resolves.
pub open spec fn spawn_min(s: SpawnOverTime, map: CityMap, p: Seq<(String, Neighborhood)>) -> int {
    if named_buildings(map, p, s.start_from_neighborhood@).len() > 0 && walking_goal_exists(s.goal, map, p) {
        s.num_agents as int
    } else {
        0
    }
}

/// Trips a neighborhood record can give at most: none when its origin
/// neighborhood has no building or no goal resolves for either mode.
pub open spec fn spawn_max(s: SpawnOverTime, map: CityMap, p: Seq<(String, Neighborhood)>) -> int {
    if named_buildings(map, p, s.start_from_neighborhood@).len() > 0 && (walking_goal_exists(
        s.goal,
        map,
        p,
    ) || driving_goal_exists(s.goal, map, p)) {
        s.num_agents as int
    } else {
        0
    }
}

/// Trips a border record gives: all its pedestrians when the border has a
/// sidewalk into the map and a walking goal resolves, all its cars when the
/// border has a lane into the map and a driving goal resolves.
pub open spec fn border_count(s: BorderSpawnOverTime, map: CityMap, p: Seq<(String, Neighborhood)>) -> int {
    ped_count(s, map, p) + car_count(s, map, p)
}

/// The pedestrians a border record gives.
pub open spec fn ped_count(s: BorderSpawnOverTime, map: CityMap, p: Seq<(String, Neighborhood)>) -> int {
    let x = map.intersections@[s.start_from_border as int];
    if x.outgoing_sidewalk.is_some() && walking_goal_exists(s.goal, map, p) {
        s.num_peds as int
    } else {
        0
    }
}

/// The cars a border record gives.
pub open spec fn car_count(s: BorderSpawnOverTime, map: CityMap, p: Seq<(String, Neighborhood)>) -> int {
    let x = map.intersections@[s.start_from_border as int];
    if x.outgoing_driving_lanes@.len() > 0 && driving_goal_exists(s.goal, map, p) {
        s.num_cars as int
    } else {
        0
    }
}

pub open spec fn sum_spawn_min(v: Seq<SpawnOverTime>, map: CityMap, p: Seq<(String, Neighborhood)>, n: int) -> int
    decreases n,
{
    if n <= 0 {
        0
    } else {
        sum_spawn_min(v, map, p, n - 1) + spawn_min(v[n - 1], map, p)
    }
}

pub open spec fn sum_spawn_max(v: Seq<SpawnOverTime>, map: CityMap, p: Seq<(String, Neighborhood)>, n: int) -> int
    decreases n,
{
    if n <= 0 {
        0
    } else {
        sum_spawn_max(v, map, p, n - 1) + spawn_max(v[n - 1], map, p)
    }
}

pub open spec fn sum_border_count(v: Seq<BorderSpawnOverTime>, map: CityMap, p: Seq<(String, Neighborhood)>, n: int) -> int
    decreases n,
{
    if n <= 0 {
        0
    } else {
        sum_border_count(v, map, p, n - 1) + border_count(v[n - 1], map, p)
    }
}

pub open spec fn sum_agents(v: Seq<SpawnOverTime>, n: int) -> int
    decreases n,
{
    if n <= 0 {
        0
    } else {
        sum_agents(v, n - 1) + v[n - 1].num_agents
    }
}

pub open spec fn sum_border_agents(v: Seq<BorderSpawnOverTime>, n: int) -> int
    decreases n,
{
    if n <= 0 {
        0
    } else {
        sum_border_agents(v, n - 1) + v[n - 1].num_peds + v[n - 1].num_cars
    }
}

/// Where block `b` starts: right after the previous one, or at `base`.
pub open spec fn block_start(ends: Seq<int>, base: int, b: int) -> int {
    if b == 0 {
        base
    } else {
        ends[b - 1]
    }
}

/// Trips `[lo, hi)` are those of neighborhood record `s`: as many as it owes
/// and can give, each one it can produce.
#[verifier::opaque]
pub open spec fn spawn_block(
    s: SpawnOverTime,
    lo: int,
    hi: int,
    map: CityMap,
    p: Seq<(String, Neighborhood)>,
    cars: Seq<ParkedCar>,
    trips: Seq<Trip>,
    base: int,
) -> bool {
    &&& 0 <= base <= lo
    &&& lo + spawn_min(s, map, p) <= hi <= lo + spawn_max(s, map, p)
    &&& hi <= trips.len()
    &&& forall|k: int|
        lo <= k < hi ==> from_spawn(
            s,
            #[trigger] trips[k],
            map,
            p,
            cars,
            parked_car_ids(trips.subrange(base, k)),
        )
}

/// Trips `[lo, mid)` are the pedestrians of border record `s` and
/// `[mid, hi)` its cars, as many of each as it gives.
#[verifier::opaque]
pub open spec fn border_block(
    s: BorderSpawnOverTime,
    lo: int,
    mid: int,
    hi: int,
    map: CityMap,
    p: Seq<(String, Neighborhood)>,
    trips: Seq<Trip>,
) -> bool {
    &&& 0 <= lo
    &&& mid == lo + ped_count(s, map, p)
    &&& hi == mid + car_count(s, map, p)
    &&& hi <= trips.len()
    &&& forall|k: int|
        lo <= k < mid ==> from_border_spawn(s, #[trigger] trips[k], map, p) && (trips[k] matches Trip::JustWalking { .. })
    &&& forall|k: int|
        mid <= k < hi ==> from_border_spawn(s, #[trigger] trips[k], map, p) && (trips[k] matches Trip::CarAtBorder { .. })
}

proof fn lemma_spawn_block_grow(
    s: SpawnOverTime,
    lo: int,
    hi: int,
    map: CityMap,
    p: Seq<(String, Neighborhood)>,
    cars: Seq<ParkedCar>,
    t1: Seq<Trip>,
    t2: Seq<Trip>,
    base: int,
)
    requires
        spawn_block(s, lo, hi, map, p, cars, t1, base),
        t1.len() <= t2.len(),
        t2.take(t1.len() as int) == t1,
    ensures
        spawn_block(s, lo, hi, map, p, cars, t2, base),
{
    reveal(spawn_block);
    let l1 = t1.len() as int;
    assert forall|m: int| 0 <= m < l1 implies #[trigger] t2[m] == t1[m] by {
        assert(t2.take(l1)[m] == t2[m]);
    }
    assert forall|k: int| lo <= k < hi implies from_spawn(
        s,
        #[trigger] t2[k],
        map,
        p,
        cars,
        parked_car_ids(t2.subrange(base, k)),
    ) by {
        assert(t2.subrange(base, k) =~= t1.subrange(base, k));
        assert(from_spawn(s, t1[k], map, p, cars, parked_car_ids(t1.subrange(base, k))));
    }
}

proof fn lemma_spawn_blocks_grow(
    v: Seq<SpawnOverTime>,
    ends: Seq<int>,
    n: int,
    map: CityMap,
    p: Seq<(String, Neighborhood)>,
    cars: Seq<ParkedCar>,
    t1: Seq<Trip>,
    t2: Seq<Trip>,
    base: int,
)
    requires
        0 <= n <= v.len(),
        n <= ends.len(),
        forall|b: int|
            0 <= b < n ==> spawn_block(v[b], block_start(ends, base, b), #[trigger] ends[b], map, p, cars, t1, base),
        t1.len() <= t2.len(),
        t2.take(t1.len() as int) == t1,
    ensures
        forall|b: int|
            0 <= b < n ==> spawn_block(v[b], block_start(ends, base, b), #[trigger] ends[b], map, p, cars, t2, base),
{
    assert forall|b: int| 0 <= b < n implies spawn_block(
        v[b],
        block_start(ends, base, b),
        #[trigger] ends[b],
        map,
        p,
        cars,
        t2,
        base,
    ) by {
        lemma_spawn_block_grow(v[b], block_start(ends, base, b), ends[b], map, p, cars, t1, t2, base);
    }
}

proof fn lemma_border_block_grow(
    s: BorderSpawnOverTime,
    lo: int,
    mid: int,
    hi: int,
    map: CityMap,
    p: Seq<(String, Neighborhood)>,
    t1: Seq<Trip>,
    t2: Seq<Trip>,
)
    requires
        border_block(s, lo, mid, hi, map, p, t1),
        t1.len() <= t2.len(),
        t2.take(t1.len() as int) == t1,
    ensures
        border_block(s, lo, mid, hi, map, p, t2),
{
    reveal(border_block);
    let l1 = t1.len() as int;
    assert forall|m: int| 0 <= m < l1 implies #[trigger] t2[m] == t1[m] by {
        assert(t2.take(l1)[m] == t2[m]);
    }
}

impl Scenario {
    /// How many agents the scenario asks for: each may still be skipped.
    pub open spec fn attempted_agents(&self) -> int {
        sum_agents(self.spawn_over_time@, self.spawn_over_time@.len() as int) + sum_border_agents(
            self.border_spawn_over_time@,
            self.border_spawn_over_time@.len() as int,
        )
    }

    /// Every name it refers to is declared, every border exists, every window
    /// that is drawn from is non-empty, every car-count distribution can be
    /// drawn from.
    pub open spec fn valid_for(&self, map: CityMap, p: Seq<(String, Neighborhood)>) -> bool {
        &&& self.map_name@ == map.name@
        &&& forall|i: int|
            0 <= i < self.seed_parked_cars@.len() ==> {
                &&& declared(p, (#[trigger] self.seed_parked_cars@[i]).neighborhood@)
                &&& self.seed_parked_cars@[i].cars_per_building.wf()
            }
        &&& forall|i: int|
            0 <= i < self.spawn_over_time@.len() ==> {
                let s = #[trigger] self.spawn_over_time@[i];
                &&& declared(p, s.start_from_neighborhood@)
                &&& od_valid(s.goal, map, p)
                &&& s.num_agents > 0 ==> s.start_tick.0 < s.stop_tick.0
            }
        &&& forall|i: int|
            0 <= i < self.border_spawn_over_time@.len() ==> {
                let s = #[trigger] self.border_spawn_over_time@[i];
                &&& map.has_intersection(s.start_from_border)
                &&& od_valid(s.goal, map, p)
                &&& s.num_peds + s.num_cars > 0 ==> s.start_tick.0 < s.stop_tick.0
            }
    }

    /// A parked car that seeding can place: one of the records' neighborhoods
    /// matches its owner and its road.
    pub open spec fn seeded(&self, c: ParkedCar, map: CityMap, p: Seq<(String, Neighborhood)>) -> bool {
        exists|i: int| 0 <= i < self.seed_parked_cars@.len() && seeded_from(#[trigger] self.seed_parked_cars@[i], c, map, p)
    }

    /// The new trips, from `base` on, lie in consecutive blocks in record
    /// order: one per neighborhood record, ending at `spawn_ends`, then for
    /// each border record one of pedestrians, ending at `ped_ends`, and one of
    /// cars, ending at `car_ends`; the last block ends with the trips.
    #[verifier::opaque]
    pub open spec fn laid_out(
        &self,
        spawn_ends: Seq<int>,
        ped_ends: Seq<int>,
        car_ends: Seq<int>,
        map: CityMap,
        p: Seq<(String, Neighborhood)>,
        cars: Seq<ParkedCar>,
        trips: Seq<Trip>,
        base: int,
    ) -> bool {
        let ns = self.spawn_over_time@.len() as int;
        let nb = self.border_spawn_over_time@.len() as int;
        let border_base = block_start(spawn_ends, base, ns);
        &&& spawn_ends.len() == ns
        &&& ped_ends.len() == nb
        &&& car_ends.len() == nb
        &&& forall|b: int|
            0 <= b < ns ==> spawn_block(
                self.spawn_over_time@[b],
                block_start(spawn_ends, base, b),
                #[trigger] spawn_ends[b],
                map,
                p,
                cars,
                trips,
                base,
            )
        &&& forall|j: int|
            0 <= j < nb ==> border_block(
                self.border_spawn_over_time@[j],
                block_start(car_ends, border_base, j),
                ped_ends[j],
                #[trigger] car_ends[j],
                map,
                p,
                trips,
            )
        &&& block_start(car_ends, border_base, nb) == trips.len()
    }

    /// One seed record's step of seeding, from `before` to `after`: the
    /// record's matched buildings in turn got drawable counts of cars on its
    /// matched roads, after the cars already there.
    pub open spec fn seeding_step(
        &self,
        s: SeedParkedCars,
        map: CityMap,
        p: Seq<(String, Neighborhood)>,
        before: Sim,
        after: Sim,
    ) -> bool {
        &&& after.parked_cars@.take(before.parked_cars@.len() as int) == before.parked_cars@
        &&& before.parked_cars@.len() <= after.parked_cars@.len()
        &&& exists|counts: Seq<int>|
            #[trigger] seeded_in_turn(
                counts,
                named_buildings(map, p, s.neighborhood@),
                named_roads(map, p, s.neighborhood@),
                s.cars_per_building,
                before,
                after,
            )
    }

    /// Seeding went through one snapshot per seed record, from `before` to
    /// the parked cars of `after`.
    #[verifier::opaque]
    pub open spec fn seeding_trace(
        &self,
        snaps: Seq<Sim>,
        map: CityMap,
        p: Seq<(String, Neighborhood)>,
        before: Sim,
        after: Sim,
    ) -> bool {
        let n = self.seed_parked_cars@.len() as int;
        &&& snaps.len() == n + 1
        &&& snaps[0] == before
        &&& snaps[n].parked_cars == after.parked_cars
        &&& forall|m: int|
            0 <= m < n ==> self.seeding_step(#[trigger] self.seed_parked_cars@[m], map, p, snaps[m], snaps[m + 1])
    }

    /// The fewest trips that instantiation owes.
    pub open spec fn trips_owed(&self, map: CityMap, p: Seq<(String, Neighborhood)>) -> int {
        sum_spawn_min(self.spawn_over_time@, map, p, self.spawn_over_time@.len() as int)
            + sum_border_count(self.border_spawn_over_time@, map, p, self.border_spawn_over_time@.len() as int)
    }

    /// The most trips that instantiation can give.
    pub open spec fn trips_possible(&self, map: CityMap, p: Seq<(String, Neighborhood)>) -> int {
        sum_spawn_max(self.spawn_over_time@, map, p, self.spawn_over_time@.len() as int)
            + sum_border_count(self.border_spawn_over_time@, map, p, self.border_spawn_over_time@.len() as int)
    }

    /// Every trip that instantiation hands over comes from one of the records.
    pub open spec fn produces(
        &self,
        t: Trip,
        map: CityMap,
        p: Seq<(String, Neighborhood)>,
        cars: Seq<ParkedCar>,
        used: Seq<usize>,
    ) -> bool {
        ||| exists|i: int| 0 <= i < self.spawn_over_time@.len() && from_spawn(#[trigger] self.spawn_over_time@[i], t, map, p, cars, used)
        ||| exists|i: int| 0 <= i < self.border_spawn_over_time@.len() && from_border_spawn(#[trigger] self.border_spawn_over_time@[i], t, map, p)
    }
}


proof fn lemma_owned_cars(cars: Seq<ParkedCar>, owner: usize, n: int)
    requires
        0 <= n <= cars.len(),
    ensures
        forall|j: int|
            0 <= j < cars_owned_by(cars, owner, n).len() ==> owns_car(
                cars,
                owner,
                (#[trigger] cars_owned_by(cars, owner, n)[j]).car,
            ),
    decreases n,
{
    if n > 0 {
        lemma_owned_cars(cars, owner, n - 1);
        let prev = cars_owned_by(cars, owner, n - 1);
        if cars[n - 1].owner == owner {
            assert forall|j: int|
                0 <= j < cars_owned_by(cars, owner, n).len() implies owns_car(
                cars,
                owner,
                (#[trigger] cars_owned_by(cars, owner, n)[j]).car,
            ) by {
                if j < prev.len() {
                    assert(cars_owned_by(cars, owner, n)[j] == prev[j]);
                } else {
                    assert(cars[n - 1].car == cars_owned_by(cars, owner, n)[j].car);
                }
            }
        }
    }
}

proof fn lemma_owned_cars_complete(cars: Seq<ParkedCar>, owner: usize, n: int)
    requires
        0 <= n <= cars.len(),
    ensures
        forall|k: int|
            0 <= k < n && cars[k].owner == owner ==> cars_owned_by(cars, owner, n).contains(
                #[trigger] cars[k],
            ),
    decreases n,
{
    if n > 0 {
        lemma_owned_cars_complete(cars, owner, n - 1);
        let prev = cars_owned_by(cars, owner, n - 1);
        assert forall|k: int|
            0 <= k < n && cars[k].owner == owner implies cars_owned_by(cars, owner, n).contains(
            #[trigger] cars[k],
        ) by {
            if k < n - 1 {
                let j = choose|j: int| 0 <= j < prev.len() && prev[j] == cars[k];
                if cars[n - 1].owner == owner {
                    assert(cars_owned_by(cars, owner, n)[j] == cars[k]);
                }
            } else {
                let all = cars_owned_by(cars, owner, n);
                assert(all[all.len() - 1] == cars[k]);
            }
        }
    }
}

proof fn lemma_push_no_duplicates(s: Seq<usize>, x: usize)
    requires
        s.no_duplicates(),
        !s.contains(x),
    ensures
        s.push(x).no_duplicates(),
{
    assert forall|i: int, j: int|
        0 <= i < s.push(x).len() && 0 <= j < s.push(x).len() && i != j implies s.push(x)[i]
        != s.push(x)[j] by {
        if i < s.len() && j < s.len() {
        } else if i < s.len() {
            assert(s.contains(s[i]));
        } else {
            assert(s.contains(s[j]));
        }
    }
}

/// The first car of `cars` whose id is not reserved yet.
fn first_unreserved(cars: &Vec<ParkedCar>, reserved: &Vec<usize>) -> (r: Option<ParkedCar>)
    ensures
        r matches Some(c) ==> exists|i: int|
            0 <= i < cars@.len() && #[trigger] cars@[i] == c && !reserved@.contains(c.car) && forall|k: int|
                0 <= k < i ==> reserved@.contains(#[trigger] cars@[k].car),
        r.is_none() ==> forall|k: int| 0 <= k < cars@.len() ==> reserved@.contains(#[trigger] cars@[k].car),
{
    let mut i: usize = 0;
    while i < cars.len()
        invariant
            i <= cars@.len(),
            forall|k: int| 0 <= k < i ==> reserved@.contains(#[trigger] cars@[k].car),
        decreases cars@.len() - i,
    {
        let c = cars[i];
        let mut taken = false;
        let mut j: usize = 0;
        while j < reserved.len()
            invariant
                j <= reserved@.len(),
                taken ==> reserved@.contains(c.car),
                !taken ==> forall|m: int| 0 <= m < j ==> reserved@[m] != c.car,
            decreases reserved@.len() - j,
        {
            if reserved[j] == c.car {
                taken = true;
                assert(reserved@[j as int] == c.car);
            }
            j = j + 1;
        }
        if !taken {
            assert(cars@[i as int] == c);
            return Some(c);
        }
        i = i + 1;
    }
    None
}

impl Scenario {
    /// Spawns the agents of one neighborhood record. Each draws a start tick and
    /// an origin building; it drives when its building owns a car that is not
    /// reserved yet and a driving goal resolves, and walks otherwise when a
    /// walking goal resolves.
    fn spawn_agents(
        s: &SpawnOverTime,
        sim: &mut Sim,
        map: &CityMap,
        index: &NeighborhoodIndex,
        reserved: &mut Vec<usize>,
        Ghost(p): Ghost<Seq<(String, Neighborhood)>>,
        Ghost(base): Ghost<int>,
    )
        requires
            index.describes(*map, p),
            declared(p, s.start_from_neighborhood@),
            od_valid(s.goal, *map, p),
            s.num_agents > 0 ==> s.start_tick.0 < s.stop_tick.0,
            0 <= base <= old(sim).trips@.len(),
            parked_car_ids(old(sim).trips@.skip(base)) == old(reserved)@,
            old(reserved)@.no_duplicates(),
        ensures
            final(sim).parked_cars == old(sim).parked_cars,
            final(sim).next_car_id == old(sim).next_car_id,
            final(sim).time == old(sim).time,
            old(sim).trips@.len() + spawn_min(*s, *map, p) <= final(sim).trips@.len()
                <= old(sim).trips@.len() + spawn_max(*s, *map, p),
            final(sim).trips@.take(old(sim).trips@.len() as int) == old(sim).trips@,
            forall|k: int|
                old(sim).trips@.len() <= k < final(sim).trips@.len() ==> from_spawn(
                    *s,
                    #[trigger] final(sim).trips@[k],
                    *map,
                    p,
                    final(sim).parked_cars@,
                    parked_car_ids(final(sim).trips@.subrange(base, k)),
                ),
            parked_car_ids(final(sim).trips@.skip(base)) == final(reserved)@,
            final(reserved)@.no_duplicates(),
    {
        let ghost start = *old(sim);
        let origin = index.find(&s.start_from_neighborhood, Ghost(*map), Ghost(p)).unwrap();
        let mut n: usize = 0;
        while n < s.num_agents
            invariant
                index.describes(*map, p),
                od_valid(s.goal, *map, p),
                s.num_agents > 0 ==> s.start_tick.0 < s.stop_tick.0,
                origin.buildings@ == named_buildings(*map, p, s.start_from_neighborhood@),
                n <= s.num_agents,
                0 <= base <= start.trips@.len(),
                sim.parked_cars == start.parked_cars,
                sim.next_car_id == start.next_car_id,
                sim.time == start.time,
                start.trips@.len() + (if spawn_min(*s, *map, p) > 0 { n as int } else { 0 })
                    <= sim.trips@.len() <= start.trips@.len() + (if spawn_max(*s, *map, p) > 0 {
                    n as int
                } else {
                    0
                }),
                sim.trips@.take(start.trips@.len() as int) == start.trips@,
                forall|k: int|
                    start.trips@.len() <= k < sim.trips@.len() ==> from_spawn(
                        *s,
                        #[trigger] sim.trips@[k],
                        *map,
                        p,
                        sim.parked_cars@,
                        parked_car_ids(sim.trips@.subrange(base, k)),
                    ),
                parked_car_ids(sim.trips@.skip(base)) == reserved@,
                reserved@.no_duplicates(),
            decreases s.num_agents - n,
        {
            let ghost before = sim.trips@;
            let spawn_time = Tick(gen_range_u64(&mut sim.rng, s.start_tick.0, s.stop_tick.0));
            match choose_id(&mut sim.rng, &origin.buildings) {
                None => {},
                Some(from_bldg) => {
                    let owned = sim.get_parked_cars_by_owner(from_bldg);
                    proof {
                        lemma_owned_cars(sim.parked_cars@, from_bldg, sim.parked_cars@.len() as int);
                    }
                    let free = first_unreserved(&owned, reserved);
                    let mut driving = false;
                    match free {
                        Some(c) => {
                            match s.goal.pick_driving_goal(map, index, &mut sim.rng, Ghost(p)) {
                                Some(goal) => {
                                    let t = Trip::UsingParkedCar { start: spawn_time, car: c.car, from_bldg, goal };
                                    proof {
                                        let k = choose|k: int| 0 <= k < owned@.len() && owned@[k] == c;
                                        assert(owns_car(sim.parked_cars@, from_bldg, owned@[k].car));
                                        lemma_push_no_duplicates(reserved@, c.car);
                                        lemma_parked_car_ids_push(sim.trips@, base, t);
                                        assert(owned@[k].car == c.car);
                                        assert(first_free_car(sim.parked_cars@, from_bldg, c.car, reserved@));
                                        assert(from_spawn(*s, t, *map, p, sim.parked_cars@, parked_car_ids(sim.trips@.skip(base))));
                                    }
                                    reserved.push(c.car);
                                    sim.start_trip(t);
                                    driving = true;
                                },
                                None => {},
                            }
                        },
                        None => {},
                    }
                    assert(!driving ==> (free.is_none() || !driving_goal_exists(s.goal, *map, p)));
                    if !driving {
                        match s.goal.pick_walking_goal(map, index, &mut sim.rng, Ghost(p)) {
                            Some(goal) => {
                                let t = Trip::JustWalking { start: spawn_time, from: SidewalkSpot::Building(from_bldg), to: goal };
                                proof {
                                    lemma_parked_car_ids_push(sim.trips@, base, t);
                                    if driving_goal_exists(s.goal, *map, p) {
                                        let len = sim.parked_cars@.len() as int;
                                        lemma_owned_cars_complete(sim.parked_cars@, from_bldg, len);
                                        assert forall|c: usize| #[trigger] owns_car(sim.parked_cars@, from_bldg, c) implies parked_car_ids(
                                            sim.trips@.skip(base),
                                        ).contains(c) by {
                                            let k = choose|k: int|
                                                0 <= k < len && #[trigger] sim.parked_cars@[k].car == c
                                                    && sim.parked_cars@[k].owner == from_bldg;
                                            assert(owned@.contains(sim.parked_cars@[k]));
                                            let j = choose|j: int| 0 <= j < owned@.len() && owned@[j] == sim.parked_cars@[k];
                                            assert(reserved@.contains(owned@[j].car));
                                        }
                                    }
                                    assert(from_spawn(*s, t, *map, p, sim.parked_cars@, parked_car_ids(sim.trips@.skip(base))));
                                }
                                sim.start_trip(t);
                            },
                            None => {},
                        }
                    }
                },
            }
            proof {
                assert(sim.trips@.take(start.trips@.len() as int) =~= start.trips@);
                assert forall|k: int|
                    start.trips@.len() <= k < sim.trips@.len() implies from_spawn(
                    *s,
                    #[trigger] sim.trips@[k],
                    *map,
                    p,
                    sim.parked_cars@,
                    parked_car_ids(sim.trips@.subrange(base, k)),
                ) by {
                    if k < before.len() {
                        assert(sim.trips@.subrange(base, k) =~= before.subrange(base, k));
                        assert(sim.trips@[k] == before[k]);
                    } else {
                        assert(sim.trips@.subrange(base, k) =~= before.skip(base));
                    }
                }
            }
            n = n + 1;
        }
    }

    /// Spawns the agents of one border record: all its pedestrians walk in from
    /// the border's sidewalk, or none when there is none; all its cars drive in
    /// on the border's first outgoing lane, or none when there is none.
    fn spawn_at_border(
        s: &BorderSpawnOverTime,
        sim: &mut Sim,
        map: &CityMap,
        index: &NeighborhoodIndex,
        Ghost(p): Ghost<Seq<(String, Neighborhood)>>,
        Ghost(base): Ghost<int>,
    ) -> (mid: Ghost<int>)
        requires
            index.describes(*map, p),
            map.has_intersection(s.start_from_border),
            od_valid(s.goal, *map, p),
            s.num_peds + s.num_cars > 0 ==> s.start_tick.0 < s.stop_tick.0,
            0 <= base <= old(sim).trips@.len(),
        ensures
            final(sim).parked_cars == old(sim).parked_cars,
            final(sim).next_car_id == old(sim).next_car_id,
            final(sim).time == old(sim).time,
            final(sim).trips@.len() == old(sim).trips@.len() + border_count(*s, *map, p),
            mid@ == old(sim).trips@.len() + ped_count(*s, *map, p),
            forall|k: int|
                old(sim).trips@.len() <= k < mid@ ==> #[trigger] final(sim).trips@[k] matches Trip::JustWalking { .. },
            forall|k: int|
                mid@ <= k < final(sim).trips@.len() ==> #[trigger] final(sim).trips@[k] matches Trip::CarAtBorder { .. },
            final(sim).trips@.take(old(sim).trips@.len() as int) == old(sim).trips@,
            forall|k: int|
                old(sim).trips@.len() <= k < final(sim).trips@.len() ==> from_border_spawn(
                    *s,
                    #[trigger] final(sim).trips@[k],
                    *map,
                    p,
                ),
            parked_car_ids(final(sim).trips@.skip(base)) == parked_car_ids(old(sim).trips@.skip(base)),
    {
        let ghost start = *old(sim);
        let x = map.get_i(s.start_from_border);
        match x.outgoing_sidewalk {
            Some(sw) => {
                let from = SidewalkSpot::StartAtBorder(s.start_from_border, sw);
                let mut n: usize = 0;
                while n < s.num_peds
                    invariant
                        index.describes(*map, p),
                        od_valid(s.goal, *map, p),
                        s.num_peds > 0 ==> s.start_tick.0 < s.stop_tick.0,
                        map.has_intersection(s.start_from_border),
                        *x == map.intersections@[s.start_from_border as int],
                        from == SidewalkSpot::StartAtBorder(s.start_from_border, sw),
                        x.outgoing_sidewalk == Some(sw),
                        forall|k: int|
                            start.trips@.len() <= k < sim.trips@.len() ==> #[trigger] sim.trips@[k] matches Trip::JustWalking { .. },
                        n <= s.num_peds,
                        0 <= base <= start.trips@.len(),
                        sim.parked_cars == start.parked_cars,
                        sim.next_car_id == start.next_car_id,
                        sim.time == start.time,
                        sim.trips@.len() == start.trips@.len() + if walking_goal_exists(s.goal, *map, p) {
                            n as int
                        } else {
                            0
                        },
                        sim.trips@.take(start.trips@.len() as int) == start.trips@,
                        forall|k: int|
                            start.trips@.len() <= k < sim.trips@.len() ==> from_border_spawn(
                                *s,
                                #[trigger] sim.trips@[k],
                                *map,
                                p,
                            ),
                        parked_car_ids(sim.trips@.skip(base)) == parked_car_ids(start.trips@.skip(base)),
                    decreases s.num_peds - n,
                {
                    let spawn_time = Tick(gen_range_u64(&mut sim.rng, s.start_tick.0, s.stop_tick.0));
                    match s.goal.pick_walking_goal(map, index, &mut sim.rng, Ghost(p)) {
                        Some(goal) => {
                            let t = Trip::JustWalking { start: spawn_time, from, to: goal };
                            proof {
                                lemma_parked_car_ids_push(sim.trips@, base, t);
                                assert(from_border_spawn(*s, t, *map, p));
                            }
                            sim.start_trip(t);
                        },
                        None => {},
                    }
                    proof {
                        assert(sim.trips@.take(start.trips@.len() as int) =~= start.trips@);
                    }
                    n = n + 1;
                }
            },
            None => {},
        }
        let ghost mid: int = sim.trips@.len() as int;
        assert(mid == start.trips@.len() + if x.outgoing_sidewalk.is_some() && walking_goal_exists(
            s.goal,
            *map,
            p,
        ) {
            s.num_peds as int
        } else {
            0
        });
        if x.outgoing_driving_lanes.len() > 0 {
            let lane = x.outgoing_driving_lanes[0];
            let mut n: usize = 0;
            while n < s.num_cars
                invariant
                    index.describes(*map, p),
                    od_valid(s.goal, *map, p),
                    s.num_cars > 0 ==> s.start_tick.0 < s.stop_tick.0,
                    map.has_intersection(s.start_from_border),
                    *x == map.intersections@[s.start_from_border as int],
                    x.outgoing_driving_lanes@.len() > 0,
                    lane == x.outgoing_driving_lanes@[0],
                    forall|k: int| start.trips@.len() <= k < mid ==> #[trigger] sim.trips@[k] matches Trip::JustWalking { .. },
                    forall|k: int| mid <= k < sim.trips@.len() ==> #[trigger] sim.trips@[k] matches Trip::CarAtBorder { .. },
                    mid <= sim.trips@.len(),
                    n <= s.num_cars,
                    0 <= base <= start.trips@.len(),
                    mid == start.trips@.len() + if x.outgoing_sidewalk.is_some() && walking_goal_exists(
                        s.goal,
                        *map,
                        p,
                    ) {
                        s.num_peds as int
                    } else {
                        0
                    },
                    sim.parked_cars == start.parked_cars,
                    sim.next_car_id == start.next_car_id,
                    sim.time == start.time,
                    sim.trips@.len() == mid + if driving_goal_exists(s.goal, *map, p) {
                        n as int
                    } else {
                        0
                    },
                    sim.trips@.take(start.trips@.len() as int) == start.trips@,
                    forall|k: int|
                        start.trips@.len() <= k < sim.trips@.len() ==> from_border_spawn(
                            *s,
                            #[trigger] sim.trips@[k],
                            *map,
                            p,
                        ),
                    parked_car_ids(sim.trips@.skip(base)) == parked_car_ids(start.trips@.skip(base)),
                decreases s.num_cars - n,
            {
                let spawn_time = Tick(gen_range_u64(&mut sim.rng, s.start_tick.0, s.stop_tick.0));
                match s.goal.pick_driving_goal(map, index, &mut sim.rng, Ghost(p)) {
                    Some(goal) => {
                        let t = Trip::CarAtBorder { start: spawn_time, lane, goal };
                        proof {
                            lemma_parked_car_ids_push(sim.trips@, base, t);
                            assert(from_border_spawn(*s, t, *map, p));
                        }
                        sim.start_trip(t);
                    },
                    None => {},
                }
                proof {
                    assert(sim.trips@.take(start.trips@.len() as int) =~= start.trips@);
                }
                n = n + 1;
            }
        }
        Ghost(mid)
    }

    /// Expands the scenario into trips of a simulation at tick zero: parked
    /// cars are seeded first, then each neighborhood record and each border
    /// record spawns its agents in order, all drawing from the simulation's one
    /// random source. No parked car is used by two trips.
    #[verifier::rlimit(100)]
    pub fn instantiate(&self, sim: &mut Sim, map: &CityMap, persisted: &Vec<(String, Neighborhood)>)
        requires
            old(sim).wf(),
            old(sim).time.0 == 0,
            map.wf(),
            self.valid_for(*map, persisted@),
        ensures
            final(sim).wf(),
            final(sim).time == old(sim).time,
            final(sim).parked_cars@.take(old(sim).parked_cars@.len() as int) == old(sim).parked_cars@,
            forall|k: int|
                old(sim).parked_cars@.len() <= k < final(sim).parked_cars@.len() ==> self.seeded(#[trigger] final(sim).parked_cars@[k], *map, persisted@),
            final(sim).trips@.take(old(sim).trips@.len() as int) == old(sim).trips@,
            final(sim).trips@.len() <= old(sim).trips@.len() + self.attempted_agents(),
            old(sim).trips@.len() + self.trips_owed(*map, persisted@) <= final(sim).trips@.len()
                <= old(sim).trips@.len() + self.trips_possible(*map, persisted@),
            forall|k: int|
                old(sim).trips@.len() <= k < final(sim).trips@.len() ==> self.produces(
                    #[trigger] final(sim).trips@[k],
                    *map,
                    persisted@,
                    final(sim).parked_cars@,
                    parked_car_ids(final(sim).trips@.subrange(old(sim).trips@.len() as int, k)),
                ),
            parked_car_ids(final(sim).trips@.skip(old(sim).trips@.len() as int)).no_duplicates(),
            exists|snaps: Seq<Sim>| #[trigger] self.seeding_trace(snaps, *map, persisted@, *old(sim), *final(sim)),
            exists|spawn_ends: Seq<int>, ped_ends: Seq<int>, car_ends: Seq<int>|
                #[trigger] self.laid_out(
                    spawn_ends,
                    ped_ends,
                    car_ends,
                    *map,
                    persisted@,
                    final(sim).parked_cars@,
                    final(sim).trips@,
                    old(sim).trips@.len() as int,
                ),
    {
        let ghost p = persisted@;
        let ghost start = *old(sim);
        let index = NeighborhoodIndex::build(map, persisted);

        let ghost mut snaps: Seq<Sim> = seq![*sim];
        let mut i: usize = 0;
        while i < self.seed_parked_cars.len()
            invariant
                snaps.len() == i + 1,
                snaps[0] == start,
                snaps[i as int] == *sim,
                forall|m: int|
                    0 <= m < i ==> self.seeding_step(#[trigger] self.seed_parked_cars@[m], *map, p, snaps[m], snaps[m + 1]),
                index.describes(*map, p),
                self.valid_for(*map, p),
                i <= self.seed_parked_cars@.len(),
                sim.wf(),
                sim.time == start.time,
                sim.trips == start.trips,
                start.parked_cars@.len() <= sim.parked_cars@.len(),
                sim.parked_cars@.take(start.parked_cars@.len() as int) == start.parked_cars@,
                forall|k: int|
                    start.parked_cars@.len() <= k < sim.parked_cars@.len() ==> self.seeded(#[trigger] sim.parked_cars@[k], *map, p),
            decreases self.seed_parked_cars@.len() - i,
        {
            let rec = &self.seed_parked_cars[i];
            assert(declared(p, self.seed_parked_cars@[i as int].neighborhood@));
            let sets = index.find(&rec.neighborhood, Ghost(*map), Ghost(p)).unwrap();
            let ghost before = sim.parked_cars@;
            sim.seed_parked_cars(&sets.buildings, &sets.roads, &rec.cars_per_building);
            proof {
                assert(sim.parked_cars@.take(start.parked_cars@.len() as int) =~= sim.parked_cars@.take(
                    before.len() as int,
                ).take(start.parked_cars@.len() as int));
                assert forall|k: int|
                    start.parked_cars@.len() <= k < sim.parked_cars@.len() implies self.seeded(#[trigger] sim.parked_cars@[k], *map, p) by {
                    if k < before.len() {
                        assert(sim.parked_cars@[k] == sim.parked_cars@.take(before.len() as int)[k]);
                    } else {
                        assert(self.seed_parked_cars@[i as int].neighborhood@ == rec.neighborhood@);
                        assert(seeded_from(self.seed_parked_cars@[i as int], sim.parked_cars@[k], *map, p));
                    }
                }
                let old_snaps = snaps;
                assert(self.seeding_step(self.seed_parked_cars@[i as int], *map, p, snaps[i as int], *sim));
                snaps = snaps.push(*sim);
                assert forall|m: int|
                    0 <= m < i + 1 implies self.seeding_step(#[trigger] self.seed_parked_cars@[m], *map, p, snaps[m], snaps[m + 1]) by {
                    if m < i {
                        assert(snaps[m] == old_snaps[m] && snaps[m + 1] == old_snaps[m + 1]);
                    }
                }
            }
            i = i + 1;
        }

        let ghost seeded = *sim;
        reveal(Scenario::seeding_trace);
        assert(self.seeding_trace(snaps, *map, p, start, seeded));
        let ghost base = sim.trips@.len() as int;
        let mut reserved: Vec<usize> = Vec::new();
        proof {
            assert(sim.trips@.skip(base) =~= seq![]);
            assert(parked_car_ids(sim.trips@.skip(base)) =~= reserved@);
        }
        let ghost mut se: Seq<int> = seq![];
        let mut i: usize = 0;
        while i < self.spawn_over_time.len()
            invariant
                self.seeding_trace(snaps, *map, p, start, seeded),
                sim.parked_cars == seeded.parked_cars,
                se.len() == i,
                forall|b: int|
                    0 <= b < i ==> spawn_block(
                        self.spawn_over_time@[b],
                        block_start(se, base, b),
                        #[trigger] se[b],
                        *map,
                        p,
                        sim.parked_cars@,
                        sim.trips@,
                        base,
                    ),
                block_start(se, base, i as int) == sim.trips@.len(),
                index.describes(*map, p),
                self.valid_for(*map, p),
                i <= self.spawn_over_time@.len(),
                sim.wf(),
                sim.time == start.time,
                base == start.trips@.len(),
                sim.parked_cars@.take(start.parked_cars@.len() as int) == start.parked_cars@,
                forall|k: int|
                    start.parked_cars@.len() <= k < sim.parked_cars@.len() ==> self.seeded(#[trigger] sim.parked_cars@[k], *map, p),
                base <= sim.trips@.len() <= base + sum_agents(self.spawn_over_time@, i as int),
                base + sum_spawn_min(self.spawn_over_time@, *map, p, i as int) <= sim.trips@.len()
                    <= base + sum_spawn_max(self.spawn_over_time@, *map, p, i as int),
                sim.trips@.take(base) == start.trips@,
                forall|k: int|
                    base <= k < sim.trips@.len() ==> self.produces(
                        #[trigger] sim.trips@[k],
                        *map,
                        p,
                        sim.parked_cars@,
                        parked_car_ids(sim.trips@.subrange(base, k)),
                    ),
                parked_car_ids(sim.trips@.skip(base)) == reserved@,
                reserved@.no_duplicates(),
            decreases self.spawn_over_time@.len() - i,
        {
            let rec = &self.spawn_over_time[i];
            let ghost before = sim.trips@;
            Self::spawn_agents(rec, sim, map, &index, &mut reserved, Ghost(p), Ghost(base));
            proof {
                assert(sim.trips@.take(base) =~= sim.trips@.take(before.len() as int).take(base));
                assert forall|k: int|
                    base <= k < sim.trips@.len() implies self.produces(
                        #[trigger] sim.trips@[k],
                        *map,
                        p,
                        sim.parked_cars@,
                        parked_car_ids(sim.trips@.subrange(base, k)),
                    ) by {
                    if k < before.len() {
                        assert(sim.trips@[k] == sim.trips@.take(before.len() as int)[k]);
                        assert(sim.trips@.subrange(base, k) =~= before.subrange(base, k));
                    } else {
                        assert(from_spawn(
                            self.spawn_over_time@[i as int],
                            sim.trips@[k],
                            *map,
                            p,
                            sim.parked_cars@,
                            parked_car_ids(sim.trips@.subrange(base, k)),
                        ));
                    }
                }
                let old_se = se;
                se = se.push(sim.trips@.len() as int);
                assert forall|b: int|
                    0 <= b < i + 1 implies spawn_block(
                    self.spawn_over_time@[b],
                    block_start(se, base, b),
                    #[trigger] se[b],
                    *map,
                    p,
                    sim.parked_cars@,
                    sim.trips@,
                    base,
                ) by {
                    if b < i {
                        assert(se[b] == old_se[b]);
                        assert(block_start(se, base, b) == block_start(old_se, base, b));
                        lemma_spawn_block_grow(
                            self.spawn_over_time@[b],
                            block_start(old_se, base, b),
                            old_se[b],
                            *map,
                            p,
                            sim.parked_cars@,
                            before,
                            sim.trips@,
                            base,
                        );
                    } else {
                        reveal(spawn_block);
                        assert(block_start(se, base, b) == before.len());
                    }
                }
                assert(block_start(se, base, i + 1) == sim.trips@.len());
            }
            i = i + 1;
        }

        let ghost extra = sim.trips@.len() - base - sum_spawn_min(self.spawn_over_time@, *map, p, i as int);
        let ghost bb = sim.trips@.len() as int;
        let ghost mut pe: Seq<int> = seq![];
        let ghost mut ce: Seq<int> = seq![];
        let mut j: usize = 0;
        while j < self.border_spawn_over_time.len()
            invariant
                self.seeding_trace(snaps, *map, p, start, seeded),
                sim.parked_cars == seeded.parked_cars,
                se.len() == i,
                bb == block_start(se, base, i as int),
                forall|b: int|
                    0 <= b < i ==> spawn_block(
                        self.spawn_over_time@[b],
                        block_start(se, base, b),
                        #[trigger] se[b],
                        *map,
                        p,
                        sim.parked_cars@,
                        sim.trips@,
                        base,
                    ),
                pe.len() == j,
                ce.len() == j,
                forall|jj: int|
                    0 <= jj < j ==> border_block(
                        self.border_spawn_over_time@[jj],
                        block_start(ce, bb, jj),
                        pe[jj],
                        #[trigger] ce[jj],
                        *map,
                        p,
                        sim.trips@,
                    ),
                block_start(ce, bb, j as int) == sim.trips@.len(),
                index.describes(*map, p),
                self.valid_for(*map, p),
                i == self.spawn_over_time@.len(),
                j <= self.border_spawn_over_time@.len(),
                sim.wf(),
                sim.time == start.time,
                base == start.trips@.len(),
                sim.parked_cars@.take(start.parked_cars@.len() as int) == start.parked_cars@,
                forall|k: int|
                    start.parked_cars@.len() <= k < sim.parked_cars@.len() ==> self.seeded(#[trigger] sim.parked_cars@[k], *map, p),
                base <= sim.trips@.len() <= base + sum_agents(self.spawn_over_time@, i as int)
                    + sum_border_agents(self.border_spawn_over_time@, j as int),
                sim.trips@.len() == base + sum_spawn_min(self.spawn_over_time@, *map, p, i as int)
                    + sum_border_count(self.border_spawn_over_time@, *map, p, j as int) + extra,
                0 <= extra <= sum_spawn_max(self.spawn_over_time@, *map, p, i as int) - sum_spawn_min(self.spawn_over_time@, *map, p, i as int),
                sim.trips@.take(base) == start.trips@,
                forall|k: int|
                    base <= k < sim.trips@.len() ==> self.produces(
                        #[trigger] sim.trips@[k],
                        *map,
                        p,
                        sim.parked_cars@,
                        parked_car_ids(sim.trips@.subrange(base, k)),
                    ),
                parked_car_ids(sim.trips@.skip(base)) == reserved@,
                reserved@.no_duplicates(),
            decreases self.border_spawn_over_time@.len() - j,
        {
            let rec = &self.border_spawn_over_time[j];
            let ghost before = sim.trips@;
            let mid = Self::spawn_at_border(rec, sim, map, &index, Ghost(p), Ghost(base));
            proof {
                assert(sim.trips@.take(base) =~= sim.trips@.take(before.len() as int).take(base));
                assert forall|k: int|
                    base <= k < sim.trips@.len() implies self.produces(
                        #[trigger] sim.trips@[k],
                        *map,
                        p,
                        sim.parked_cars@,
                        parked_car_ids(sim.trips@.subrange(base, k)),
                    ) by {
                    if k < before.len() {
                        assert(sim.trips@[k] == sim.trips@.take(before.len() as int)[k]);
                        assert(sim.trips@.subrange(base, k) =~= before.subrange(base, k));
                    } else {
                        assert(from_border_spawn(self.border_spawn_over_time@[j as int], sim.trips@[k], *map, p));
                    }
                }
                lemma_spawn_blocks_grow(self.spawn_over_time@, se, i as int, *map, p, sim.parked_cars@, before, sim.trips@, base);
                let old_pe = pe;
                let old_ce = ce;
                pe = pe.push(mid@);
                ce = ce.push(sim.trips@.len() as int);
                assert forall|jj: int|
                    0 <= jj < j + 1 implies border_block(
                    self.border_spawn_over_time@[jj],
                    block_start(ce, bb, jj),
                    pe[jj],
                    #[trigger] ce[jj],
                    *map,
                    p,
                    sim.trips@,
                ) by {
                    if jj < j {
                        assert(ce[jj] == old_ce[jj] && pe[jj] == old_pe[jj]);
                        assert(block_start(ce, bb, jj) == block_start(old_ce, bb, jj));
                        lemma_border_block_grow(
                            self.border_spawn_over_time@[jj],
                            block_start(old_ce, bb, jj),
                            old_pe[jj],
                            old_ce[jj],
                            *map,
                            p,
                            before,
                            sim.trips@,
                        );
                    } else {
                        reveal(border_block);
                        assert(block_start(ce, bb, jj) == before.len());
                    }
                }
                assert(block_start(ce, bb, j + 1) == sim.trips@.len());
            }
            j = j + 1;
        }
        proof {
            reveal(Scenario::laid_out);
            reveal(Scenario::seeding_trace);
            assert(self.laid_out(se, pe, ce, *map, p, sim.parked_cars@, sim.trips@, base));
            assert(self.seeding_trace(snaps, *map, p, start, *sim));
        }
    }
}



/// Every trip that a scenario produces starts inside the tick window
/// `[start_tick, stop_tick)` of a record that it comes from.
pub proof fn lemma_trip_starts_in_window(
    scenario: Scenario,
    t: Trip,
    map: CityMap,
    p: Seq<(String, Neighborhood)>,
    cars: Seq<ParkedCar>,
    used: Seq<usize>,
)
    requires
        scenario.produces(t, map, p, cars, used),
    ensures
        (exists|i: int|
            0 <= i < scenario.spawn_over_time@.len() && in_window(
                t.start_spec(),
                (#[trigger] scenario.spawn_over_time@[i]).start_tick,
                scenario.spawn_over_time@[i].stop_tick,
            )) || (exists|i: int|
            0 <= i < scenario.border_spawn_over_time@.len() && in_window(
                t.start_spec(),
                (#[trigger] scenario.border_spawn_over_time@[i]).start_tick,
                scenario.border_spawn_over_time@[i].stop_tick,
            )),
{
}

} // verus!
