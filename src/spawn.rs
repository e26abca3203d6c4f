use vstd::prelude::*;
use crate::map::CityMap;
use crate::neighborhood::{Neighborhood, all_ids, everywhere_name, lemma_everywhere_matches_all};
use crate::scenario::{
    BorderSpawnOverTime, OriginDestination, Scenario, SeedParkedCars, SpawnOverTime, declared,
    lemma_trip_starts_in_window, named_buildings, parked_car_ids, spawn_min, sum_agents,
    sum_border_agents, sum_border_count, sum_spawn_min,
};
use crate::sim::{Sim, WeightedUsizeChoice, weight_sum};
use crate::tick::Tick;

verus! {

proof fn lemma_sum_agents_push(v: Seq<SpawnOverTime>, x: SpawnOverTime, n: int)
    requires
        0 <= n <= v.len(),
    ensures
        sum_agents(v.push(x), n) == sum_agents(v, n),
    decreases n,
{
    if n > 0 {
        lemma_sum_agents_push(v, x, n - 1);
    }
}

proof fn lemma_sum_border_agents_push(v: Seq<BorderSpawnOverTime>, x: BorderSpawnOverTime, n: int)
    requires
        0 <= n <= v.len(),
    ensures
        sum_border_agents(v.push(x), n) == sum_border_agents(v, n),
    decreases n,
{
    if n > 0 {
        lemma_sum_border_agents_push(v, x, n - 1);
    }
}

proof fn lemma_borders_exist(map: CityMap, n: int, incoming: bool)
    requires
        0 <= n <= map.intersections@.len(),
        n <= usize::MAX,
    ensures
        forall|k: int|
            0 <= k < map.borders_upto(n, incoming).len() ==> #[trigger] map.borders_upto(n, incoming)[k] < n,
    decreases n,
{
    if n > 0 {
        lemma_borders_exist(map, n - 1, incoming);
        let prev = map.borders_upto(n - 1, incoming);
        assert forall|k: int|
            0 <= k < map.borders_upto(n, incoming).len() implies #[trigger] map.borders_upto(n, incoming)[k] < n by {
            if k < prev.len() {
                assert(prev[k] < n - 1);
            }
        }
    }
}

fn everywhere() -> (r: String)
    ensures
        r@ == everywhere_name(),
{
    let r = "_everywhere_".to_owned();
    proof {
        reveal_strlit("_everywhere_");
        assert(r@ =~= everywhere_name());
    }
    r
}

/// A demand record per border: `num` pedestrians and `num` cars entering there
/// during the first five seconds, headed anywhere.
fn border_records(map: &CityMap, borders: &Vec<usize>, num: usize) -> (r: Vec<BorderSpawnOverTime>)
    requires
        forall|k: int| 0 <= k < borders@.len() ==> map.has_intersection(#[trigger] borders@[k]),
    ensures
        r@.len() == borders@.len(),
        sum_border_agents(r@, r@.len() as int) == 2 * num * borders@.len(),
        forall|k: int|
            0 <= k < r@.len() ==> {
                let b = #[trigger] r@[k];
                &&& b.num_peds == num && b.num_cars == num
                &&& b.start_tick.0 == 0 && b.stop_tick.0 == 50
                &&& b.start_from_border == borders@[k]
                &&& b.goal matches OriginDestination::Neighborhood(n) && n@ == everywhere_name()
            },
{
    let mut out: Vec<BorderSpawnOverTime> = Vec::new();
    let mut i: usize = 0;
    while i < borders.len()
        invariant
            i <= borders@.len(),
            out@.len() == i,
            sum_border_agents(out@, i as int) == 2 * num * i,
            forall|k: int|
                0 <= k < i ==> {
                    let b = #[trigger] out@[k];
                    &&& b.num_peds == num && b.num_cars == num
                    &&& b.start_tick.0 == 0 && b.stop_tick.0 == 50
                    &&& b.start_from_border == borders@[k]
                    &&& b.goal matches OriginDestination::Neighborhood(n) && n@ == everywhere_name()
                },
        decreases borders@.len() - i,
    {
        let rec = BorderSpawnOverTime {
            num_peds: num,
            num_cars: num,
            start_tick: Tick::zero(),
            stop_tick: Tick::from_seconds(5),
            start_from_border: borders[i],
            goal: OriginDestination::Neighborhood(everywhere()),
        };
        proof {
            lemma_sum_border_agents_push(out@, rec, i as int);
            assert(2 * num * (i + 1) == 2 * num * i + 2 * num) by (nonlinear_arith);
        }
        out.push(rec);
        i = i + 1;
    }
    out
}

/// The goal "anywhere on the map".
pub open spec fn goes_anywhere(od: OriginDestination) -> bool {
    od matches OriginDestination::Neighborhood(n) && n@ == everywhere_name()
}

/// `s` is the whole-map demand named `name` for `map`: parked cars everywhere
/// by `weights`; `agents` agents from anywhere to anywhere; when
/// `to_outgoing`, ten agents from anywhere to each outgoing border, in border
/// order; and `per_border` pedestrians and `per_border` cars entering at each
/// incoming border, in border order, headed anywhere. Every record spans the
/// first five seconds, ticks `[0, 50)`.
pub open spec fn whole_map_demand(
    s: Scenario,
    map: CityMap,
    name: Seq<char>,
    weights: Seq<u64>,
    agents: usize,
    per_border: usize,
    to_outgoing: bool,
) -> bool {
    let n = map.intersections@.len() as int;
    let inc = map.borders_upto(n, true);
    let out = if to_outgoing { map.borders_upto(n, false) } else { seq![] };
    &&& s.scenario_name@ == name
    &&& s.map_name@ == map.name@
    &&& s.seed_parked_cars@.len() == 1
    &&& s.seed_parked_cars@[0].neighborhood@ == everywhere_name()
    &&& s.seed_parked_cars@[0].cars_per_building.weights@ == weights
    &&& s.spawn_over_time@.len() == 1 + out.len()
    &&& forall|k: int|
        0 <= k < s.spawn_over_time@.len() ==> {
            let r = #[trigger] s.spawn_over_time@[k];
            &&& r.start_tick.0 == 0 && r.stop_tick.0 == 50
            &&& r.start_from_neighborhood@ == everywhere_name()
            &&& if k == 0 {
                r.num_agents == agents && goes_anywhere(r.goal)
            } else {
                r.num_agents == 10 && r.goal == OriginDestination::Border(out[k - 1])
            }
        }
    &&& s.border_spawn_over_time@.len() == inc.len()
    &&& forall|k: int|
        0 <= k < s.border_spawn_over_time@.len() ==> {
            let b = #[trigger] s.border_spawn_over_time@[k];
            &&& b.num_peds == per_border && b.num_cars == per_border
            &&& b.start_tick.0 == 0 && b.stop_tick.0 == 50
            &&& b.start_from_border == inc[k]
            &&& goes_anywhere(b.goal)
        }
}

/// `s` is the small whole-map demand for `map`.
pub open spec fn is_small_spawn(s: Scenario, map: CityMap) -> bool {
    whole_map_demand(s, map, "small_spawn"@, seq![5u64, 5u64], 100, 10, true)
}

/// `s` is the big whole-map demand for `map`.
pub open spec fn is_big_spawn(s: Scenario, map: CityMap) -> bool {
    whole_map_demand(s, map, "big_spawn"@, seq![2u64, 8u64], 1000, 100, false)
}

/// What instantiating `s` against `map`, with no saved neighborhoods, did to
/// the simulation: the trips it owes and can give, each from one of its
/// records, no parked car used twice, and every trip starting in `[0, 50)`.
pub open spec fn spawned(s: Scenario, map: CityMap, before: Sim, after: Sim) -> bool {
    let p = Seq::<(String, Neighborhood)>::empty();
    let base = before.trips@.len() as int;
    &&& after.trips@.take(base) == before.trips@
    &&& base + s.trips_owed(map, p) <= after.trips@.len() <= base + s.trips_possible(map, p)
    &&& forall|k: int|
        base <= k < after.trips@.len() ==> s.produces(
            #[trigger] after.trips@[k],
            map,
            p,
            after.parked_cars@,
            parked_car_ids(after.trips@.subrange(base, k)),
        )
    &&& forall|k: int|
        base <= k < after.trips@.len() ==> (#[trigger] after.trips@[k]).start_spec().0 < 50
    &&& parked_car_ids(after.trips@.skip(base)).no_duplicates()
}

proof fn lemma_sum_spawn_min_first(v: Seq<SpawnOverTime>, map: CityMap, p: Seq<(String, Neighborhood)>, n: int)
    requires
        1 <= n <= v.len(),
    ensures
        sum_spawn_min(v, map, p, n) >= spawn_min(v[0], map, p),
    decreases n,
{
    if n > 1 {
        lemma_sum_spawn_min_first(v, map, p, n - 1);
    } else {
        assert(sum_spawn_min(v, map, p, 0) == 0);
    }
}

proof fn lemma_sum_border_count_nonneg(v: Seq<BorderSpawnOverTime>, map: CityMap, p: Seq<(String, Neighborhood)>, n: int)
    ensures
        sum_border_count(v, map, p, n) >= 0,
    decreases n,
{
    if n > 0 {
        lemma_sum_border_count_nonneg(v, map, p, n - 1);
    }
}

/// Instantiating a whole-map demand: what `instantiate` gives, and when the
/// map has a building, at least the agents of the first record.
fn instantiate_whole_map(
    s: &Scenario,
    sim: &mut Sim,
    map: &CityMap,
    Ghost(name): Ghost<Seq<char>>,
    Ghost(weights): Ghost<Seq<u64>>,
    Ghost(agents): Ghost<usize>,
    Ghost(per_border): Ghost<usize>,
    Ghost(to_outgoing): Ghost<bool>,
)
    requires
        old(sim).wf(),
        old(sim).time.0 == 0,
        map.wf(),
        s.valid_for(*map, seq![]),
        whole_map_demand(*s, *map, name, weights, agents, per_border, to_outgoing),
    ensures
        final(sim).wf(),
        final(sim).time == old(sim).time,
        spawned(*s, *map, *old(sim), *final(sim)),
        final(sim).trips@.len() <= old(sim).trips@.len() + s.attempted_agents(),
        map.buildings@.len() > 0 ==> old(sim).trips@.len() + agents <= final(sim).trips@.len(),
{
    let ghost p = Seq::<(String, Neighborhood)>::empty();
    let none: Vec<(String, Neighborhood)> = Vec::new();
    assert(none@ == p);
    let ghost before = *sim;
    s.instantiate(sim, map, &none);
    proof {
        let base = before.trips@.len() as int;
        assert forall|k: int| base <= k < sim.trips@.len() implies (#[trigger] sim.trips@[k]).start_spec().0 < 50 by {
            let t = sim.trips@[k];
            lemma_trip_starts_in_window(*s, t, *map, p, sim.parked_cars@, parked_car_ids(sim.trips@.subrange(base, k)));
        }
        if map.buildings@.len() > 0 {
            lemma_everywhere_matches_all(*map);
            let v = s.spawn_over_time@;
            assert(named_buildings(*map, p, v[0].start_from_neighborhood@) == all_ids(map.buildings@.len() as int));
            assert(all_ids(map.buildings@.len() as int)[0] == 0);
            match v[0].goal {
                OriginDestination::Neighborhood(g) => {
                    assert(named_buildings(*map, p, g@) == all_ids(map.buildings@.len() as int));
                },
                _ => {},
            }
            assert(spawn_min(v[0], *map, p) == agents);
            lemma_sum_spawn_min_first(v, *map, p, v.len() as int);
            lemma_sum_border_count_nonneg(s.border_spawn_over_time@, *map, p, s.border_spawn_over_time@.len() as int);
        }
    }
}

/// A small demand for a whole map: parked cars everywhere, a hundred agents
/// moving anywhere to anywhere, ten pedestrians and ten cars entering at each
/// incoming border, and ten agents headed to each outgoing border.
pub fn small_spawn_scenario(map: &CityMap) -> (r: Scenario)
    ensures
        r.valid_for(*map, seq![]),
        is_small_spawn(r, *map),
        r.attempted_agents() == 100 + 20 * map.borders_upto(map.intersections@.len() as int, true).len()
            + 10 * map.borders_upto(map.intersections@.len() as int, false).len(),
{
    spawn_scenario(map, "small_spawn", 5, 5, 100, 10, true)
}

/// A big demand for a whole map: a thousand agents moving anywhere to
/// anywhere and a hundred pedestrians and cars entering at each incoming
/// border.
pub fn big_spawn_scenario(map: &CityMap) -> (r: Scenario)
    ensures
        r.valid_for(*map, seq![]),
        is_big_spawn(r, *map),
        r.attempted_agents() == 1000 + 200 * map.borders_upto(map.intersections@.len() as int, true).len(),
{
    spawn_scenario(map, "big_spawn", 2, 8, 1000, 100, false)
}

fn spawn_scenario(
    map: &CityMap,
    name: &str,
    w0: u64,
    w1: u64,
    num_agents: usize,
    per_border: usize,
    to_outgoing: bool,
) -> (r: Scenario)
    requires
        w0 + w1 > 0,
        w0 + w1 <= u64::MAX,
        num_agents > 0,
        per_border <= 100,
    ensures
        r.valid_for(*map, seq![]),
        whole_map_demand(r, *map, name@, seq![w0, w1], num_agents, per_border, to_outgoing),
        r.attempted_agents() == num_agents + 2 * per_border * map.borders_upto(map.intersections@.len() as int, true).len()
            + if to_outgoing { 10 * map.borders_upto(map.intersections@.len() as int, false).len() } else { 0 },
{
    let count = map.intersections.len();
    let ghost n = count as int;
    let ghost p: Seq<(String, Neighborhood)> = seq![];
    let weights = vec![w0, w1];
    proof {
        assert(weight_sum(weights@, 2) == w0 + w1) by {
            reveal_with_fuel(weight_sum, 3);
        }
    }
    let seed = SeedParkedCars {
        neighborhood: everywhere(),
        cars_per_building: WeightedUsizeChoice { weights },
    };
    let first = SpawnOverTime {
        num_agents,
        start_tick: Tick::zero(),
        stop_tick: Tick::from_seconds(5),
        start_from_neighborhood: everywhere(),
        goal: OriginDestination::Neighborhood(everywhere()),
    };
    let mut spawn_over_time = vec![first];
    proof {
        reveal_with_fuel(sum_agents, 2);
    }
    let incoming = map.all_incoming_borders();
    proof {
        lemma_borders_exist(*map, n, true);
    }
    let border_spawn_over_time = border_records(map, &incoming, per_border);
    if to_outgoing {
        let outgoing = map.all_outgoing_borders();
        proof {
            lemma_borders_exist(*map, n, false);
        }
        let mut i: usize = 0;
        while i < outgoing.len()
            invariant
                i <= outgoing@.len(),
                outgoing@ == map.borders_upto(n, false),
                n == map.intersections@.len(),
                forall|k: int| 0 <= k < outgoing@.len() ==> #[trigger] outgoing@[k] < n,
                spawn_over_time@.len() == 1 + i,
                spawn_over_time@[0] == first,
                sum_agents(spawn_over_time@, spawn_over_time@.len() as int) == num_agents + 10 * i,
                forall|k: int|
                    0 <= k < spawn_over_time@.len() ==> {
                        let s = #[trigger] spawn_over_time@[k];
                        &&& declared(p, s.start_from_neighborhood@)
                        &&& s.start_from_neighborhood@ == everywhere_name()
                        &&& s.start_tick.0 == 0 && s.stop_tick.0 == 50
                        &&& if k == 0 {
                            s.num_agents == num_agents && goes_anywhere(s.goal)
                        } else {
                            s.num_agents == 10 && s.goal == OriginDestination::Border(outgoing@[k - 1])
                                && map.has_intersection(outgoing@[k - 1])
                        }
                    },
            decreases outgoing@.len() - i,
        {
            let rec = SpawnOverTime {
                num_agents: 10,
                start_tick: Tick::zero(),
                stop_tick: Tick::from_seconds(5),
                start_from_neighborhood: everywhere(),
                goal: OriginDestination::Border(outgoing[i]),
            };
            proof {
                lemma_sum_agents_push(spawn_over_time@, rec, spawn_over_time@.len() as int);
            }
            spawn_over_time.push(rec);
            i = i + 1;
        }
    }
    Scenario {
        scenario_name: name.to_owned(),
        map_name: map.name.clone(),
        seed_parked_cars: vec![seed],
        spawn_over_time,
        border_spawn_over_time,
    }
}

impl Sim {
    /// Instantiates the small whole-map demand into a fresh simulation. On a
    /// map with a building, at least its hundred whole-map agents travel.
    pub fn small_spawn(&mut self, map: &CityMap)
        requires
            old(self).wf(),
            old(self).time.0 == 0,
            map.wf(),
        ensures
            final(self).wf(),
            final(self).time == old(self).time,
            exists|s: Scenario|
                #[trigger] is_small_spawn(s, *map)
                    && spawned(s, *map, *old(self), *final(self)),
            final(self).trips@.len() <= old(self).trips@.len() + 100 + 20 * map.borders_upto(
                map.intersections@.len() as int,
                true,
            ).len() + 10 * map.borders_upto(map.intersections@.len() as int, false).len(),
            map.buildings@.len() > 0 ==> old(self).trips@.len() + 100 <= final(self).trips@.len(),
    {
        let s = small_spawn_scenario(map);
        let ghost name: Seq<char> = "small_spawn"@;
        let ghost weights: Seq<u64> = seq![5u64, 5u64];
        instantiate_whole_map(&s, self, map, Ghost(name), Ghost(weights), Ghost(100), Ghost(10), Ghost(true));
    }

    /// Instantiates the big whole-map demand into a fresh simulation. On a
    /// map with a building, at least its thousand whole-map agents travel.
    pub fn big_spawn(&mut self, map: &CityMap)
        requires
            old(self).wf(),
            old(self).time.0 == 0,
            map.wf(),
        ensures
            final(self).wf(),
            final(self).time == old(self).time,
            exists|s: Scenario|
                #[trigger] is_big_spawn(s, *map)
                    && spawned(s, *map, *old(self), *final(self)),
            final(self).trips@.len() <= old(self).trips@.len() + 1000 + 200 * map.borders_upto(
                map.intersections@.len() as int,
                true,
            ).len(),
            map.buildings@.len() > 0 ==> old(self).trips@.len() + 1000 <= final(self).trips@.len(),
    {
        let s = big_spawn_scenario(map);
        let ghost name: Seq<char> = "big_spawn"@;
        let ghost weights: Seq<u64> = seq![2u64, 8u64];
        instantiate_whole_map(&s, self, map, Ghost(name), Ghost(weights), Ghost(1000), Ghost(100), Ghost(false));
    }
}

} // verus!
