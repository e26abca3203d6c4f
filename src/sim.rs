use vstd::prelude::*;
use rand::prng::XorShiftRng;
use crate::random::{choose_id, gen_range_u64, rng_from_seed};
use crate::tick::Tick;

verus! {

/// Where a driver is headed.
#[derive(Clone, Copy, Debug, PartialEq, Eq, Structural)]
pub enum DrivingGoal {
    /// Park near a building.
    ParkNear(usize),
    /// Leave the map at a border intersection, arriving on the given lane.
    Border(usize, usize),
}

/// A place on a sidewalk where a walk starts or ends.
#[derive(Clone, Copy, Debug, PartialEq, Eq, Structural)]
pub enum SidewalkSpot {
    /// The sidewalk in front of a building.
    Building(usize),
    /// Entering the map at a border intersection, on the given sidewalk.
    StartAtBorder(usize, usize),
    /// Leaving the map at a border intersection, on the given sidewalk.
    EndAtBorder(usize, usize),
}

/// A car parked on a road, owned by a building.
#[derive(Clone, Copy, Debug, PartialEq, Eq, Structural)]
pub struct ParkedCar {
    pub car: usize,
    pub owner: usize,
    pub road: usize,
}

/// A trip handed to the simulation, to begin at `start`.
#[derive(Clone, Copy, Debug, PartialEq, Eq, Structural)]
pub enum Trip {
    UsingParkedCar { start: Tick, car: usize, from_bldg: usize, goal: DrivingGoal },
    JustWalking { start: Tick, from: SidewalkSpot, to: SidewalkSpot },
    CarAtBorder { start: Tick, lane: usize, goal: DrivingGoal },
}

impl Trip {
    pub open spec fn start_spec(self) -> Tick {
        match self {
            Trip::UsingParkedCar { start, .. } => start,
            Trip::JustWalking { start, .. } => start,
            Trip::CarAtBorder { start, .. } => start,
        }
    }

    pub fn start(&self) -> (r: Tick)
        ensures
            r == self.start_spec(),
    {
        match self {
            Trip::UsingParkedCar { start, .. } => *start,
            Trip::JustWalking { start, .. } => *start,
            Trip::CarAtBorder { start, .. } => *start,
        }
    }
}

/// A weighted distribution over small counts: `i` is drawn with probability
/// proportional to `weights[i]`.
#[derive(Clone, Debug)]
pub struct WeightedUsizeChoice {
    pub weights: Vec<u64>,
}

pub open spec fn weight_sum(w: Seq<u64>, n: int) -> int
    decreases n,
{
    if n <= 0 {
        0
    } else {
        weight_sum(w, n - 1) + w[n - 1]
    }
}

impl WeightedUsizeChoice {
    /// Some weight is positive and the total fits in a `u64`.
    pub open spec fn wf(&self) -> bool {
        0 < weight_sum(self.weights@, self.weights@.len() as int) <= u64::MAX
    }

    /// An index that a draw can give: one whose weight is positive.
    pub open spec fn drawable(&self, k: int) -> bool {
        0 <= k < self.weights@.len() && self.weights@[k] > 0
    }

    /// The index that a roll below the total weight picks: the one whose
    /// stretch of the cumulative weights holds the roll.
    pub fn index_for_roll(&self, roll: u64) -> (r: usize)
        requires
            self.wf(),
            roll < weight_sum(self.weights@, self.weights@.len() as int),
        ensures
            r < self.weights@.len(),
            weight_sum(self.weights@, r as int) <= roll < weight_sum(self.weights@, r as int + 1),
            self.drawable(r as int),
    {
        let n = self.weights.len();
        let mut rest = roll;
        let mut j: usize = 0;
        while j < n
            invariant
                n == self.weights@.len(),
                j <= n,
                roll < weight_sum(self.weights@, n as int),
                rest + weight_sum(self.weights@, j as int) == roll,
            decreases n - j,
        {
            if rest < self.weights[j] {
                return j;
            }
            rest = rest - self.weights[j];
            j = j + 1;
        }
        0
    }

    /// Draws an index: a roll uniform below the total weight, mapped to its
    /// index.
    pub fn sample(&self, rng: &mut XorShiftRng) -> (r: usize)
        requires
            self.wf(),
        ensures
            self.drawable(r as int),
            exists|roll: int| #[trigger] roll_picks(self.weights@, roll, r as int),
    {
        let n = self.weights.len();
        let mut total: u64 = 0;
        let mut i: usize = 0;
        while i < n
            invariant
                n == self.weights@.len(),
                self.wf(),
                i <= n,
                total == weight_sum(self.weights@, i as int),
            decreases n - i,
        {
            proof {
                lemma_weight_sum_mono(self.weights@, i as int + 1, n as int);
            }
            total = total + self.weights[i];
            i = i + 1;
        }
        let roll = gen_range_u64(rng, 0, total);
        let r = self.index_for_roll(roll);
        assert(roll_picks(self.weights@, roll as int, r as int));
        r
    }
}

/// A roll below the total weight falls in index `r`'s stretch of the
/// cumulative weights.
pub open spec fn roll_picks(w: Seq<u64>, roll: int, r: int) -> bool {
    &&& 0 <= roll < weight_sum(w, w.len() as int)
    &&& weight_sum(w, r) <= roll < weight_sum(w, r + 1)
}

proof fn lemma_weight_sum_mono(w: Seq<u64>, i: int, n: int)
    requires
        0 <= i <= n <= w.len(),
    ensures
        weight_sum(w, i) <= weight_sum(w, n),
    decreases n - i,
{
    if i < n {
        lemma_weight_sum_mono(w, i, n - 1);
    }
}

/// The cars among the first `n` of the inventory that a building owns, in
/// inventory order.
pub open spec fn cars_owned_by(cars: Seq<ParkedCar>, owner: usize, n: int) -> Seq<ParkedCar>
    decreases n,
{
    if n <= 0 {
        seq![]
    } else if cars[n - 1].owner == owner {
        cars_owned_by(cars, owner, n - 1).push(cars[n - 1])
    } else {
        cars_owned_by(cars, owner, n - 1)
    }
}

/// Seeding gave owner `i` `counts[i]` cars, each count one that the
/// distribution can draw: the new cars' owners are the owners in turn, each
/// repeated its count, unless there was no road or car ids ran out.
pub open spec fn seeded_in_turn(
    counts: Seq<int>,
    owners: Seq<usize>,
    roads: Seq<usize>,
    w: WeightedUsizeChoice,
    before: Sim,
    after: Sim,
) -> bool {
    &&& counts.len() == owners.len()
    &&& forall|i: int| 0 <= i < counts.len() ==> w.drawable(#[trigger] counts[i])
    &&& (roads.len() > 0 && before.next_car_id + repeat_owners(owners, counts, counts.len() as int).len()
        <= usize::MAX) ==> owners_of(after.parked_cars@.skip(before.parked_cars@.len() as int))
        == repeat_owners(owners, counts, counts.len() as int)
}

/// The owners of a sequence of parked cars, in order.
pub open spec fn owners_of(cars: Seq<ParkedCar>) -> Seq<usize> {
    cars.map_values(|c: ParkedCar| c.owner)
}

/// Each of the first `n` owners repeated as many times as its count says, in
/// owner order.
pub open spec fn repeat_owners(owners: Seq<usize>, counts: Seq<int>, n: int) -> Seq<usize>
    decreases n,
{
    if n <= 0 {
        seq![]
    } else {
        repeat_owners(owners, counts, n - 1) + Seq::new(counts[n - 1] as nat, |_k: int| owners[n - 1])
    }
}

proof fn lemma_repeat_owners_prefix(owners: Seq<usize>, a: Seq<int>, b: Seq<int>, n: int)
    requires
        0 <= n <= a.len(),
        n <= b.len(),
        forall|j: int| 0 <= j < n ==> a[j] == b[j],
    ensures
        repeat_owners(owners, a, n) == repeat_owners(owners, b, n),
    decreases n,
{
    if n > 0 {
        lemma_repeat_owners_prefix(owners, a, b, n - 1);
    }
}

/// The simulation context that demand is instantiated into: its clock, its
/// seeded random source, the parked-car inventory and the trips handed to it.
pub struct Sim {
    pub time: Tick,
    pub rng: XorShiftRng,
    pub parked_cars: Vec<ParkedCar>,
    pub trips: Vec<Trip>,
    pub next_car_id: usize,
}

impl Sim {
    /// Car ids are issued in increasing order, below `next_car_id`.
    pub open spec fn wf(&self) -> bool {
        &&& forall|i: int|
            0 <= i < self.parked_cars@.len() ==> #[trigger] self.parked_cars@[i].car
                < self.next_car_id
        &&& forall|i: int, j: int|
            0 <= i < j < self.parked_cars@.len() ==> #[trigger] self.parked_cars@[i].car
                < #[trigger] self.parked_cars@[j].car
    }

    /// A fresh simulation at tick zero whose random source is seeded by `seed`.
    pub fn new(seed: u8) -> (r: Sim)
        ensures
            r.wf(),
            r.time.0 == 0,
            r.parked_cars@.len() == 0,
            r.trips@.len() == 0,
            r.next_car_id == 0,
    {
        Sim {
            time: Tick::zero(),
            rng: rng_from_seed(seed),
            parked_cars: Vec::new(),
            trips: Vec::new(),
            next_car_id: 0,
        }
    }

    fn park_new_car(&mut self, owner: usize, road: usize) -> (r: Option<usize>)
        requires
            old(self).wf(),
        ensures
            final(self).wf(),
            final(self).time == old(self).time,
            final(self).trips == old(self).trips,
            old(self).next_car_id < usize::MAX ==> r == Some(old(self).next_car_id)
                && final(self).next_car_id == old(self).next_car_id + 1
                && final(self).parked_cars@ == old(self).parked_cars@.push(
                ParkedCar { car: old(self).next_car_id, owner, road },
            ),
            old(self).next_car_id == usize::MAX ==> r.is_none() && final(self).next_car_id
                == old(self).next_car_id && final(self).parked_cars@ == old(self).parked_cars@,
    {
        if self.next_car_id == usize::MAX {
            return None;
        }
        let car = self.next_car_id;
        self.parked_cars.push(ParkedCar { car, owner, road });
        self.next_car_id = car + 1;
        Some(car)
    }

    /// Populates the parking inventory: each owner building in turn gets a
    /// number of cars drawn from `cars_per_building`, each parked on a randomly
    /// drawn road of `roads`. Nothing is parked where there is no road, and
    /// seeding stops once car ids run out.
    pub fn seed_parked_cars(
        &mut self,
        owner_buildings: &Vec<usize>,
        roads: &Vec<usize>,
        cars_per_building: &WeightedUsizeChoice,
    )
        requires
            old(self).wf(),
            cars_per_building.wf(),
        ensures
            final(self).wf(),
            final(self).time == old(self).time,
            final(self).trips == old(self).trips,
            old(self).next_car_id <= final(self).next_car_id,
            old(self).parked_cars@.len() <= final(self).parked_cars@.len(),
            final(self).parked_cars@.take(old(self).parked_cars@.len() as int)
                == old(self).parked_cars@,
            forall|k: int|
                old(self).parked_cars@.len() <= k < final(self).parked_cars@.len() ==> {
                    let c = #[trigger] final(self).parked_cars@[k];
                    &&& owner_buildings@.contains(c.owner)
                    &&& roads@.contains(c.road)
                    &&& old(self).next_car_id <= c.car
                },
            roads@.len() == 0 ==> final(self).parked_cars@ == old(self).parked_cars@,
            exists|counts: Seq<int>|
                #[trigger] seeded_in_turn(counts, owner_buildings@, roads@, *cars_per_building, *old(self), *final(self)),
    {
        let ghost start = *old(self);
        let ghost mut counts: Seq<int> = seq![];
        let mut complete = true;
        let mut i: usize = 0;
        while i < owner_buildings.len()
            invariant
                self.wf(),
                cars_per_building.wf(),
                i <= owner_buildings@.len(),
                self.time == start.time,
                self.trips == start.trips,
                start.next_car_id <= self.next_car_id,
                start.parked_cars@.len() <= self.parked_cars@.len(),
                self.parked_cars@.take(start.parked_cars@.len() as int) == start.parked_cars@,
                forall|k: int|
                    start.parked_cars@.len() <= k < self.parked_cars@.len() ==> {
                        let c = #[trigger] self.parked_cars@[k];
                        &&& owner_buildings@.contains(c.owner)
                        &&& roads@.contains(c.road)
                        &&& start.next_car_id <= c.car
                    },
                roads@.len() == 0 ==> self.parked_cars@ == start.parked_cars@,
                counts.len() == i,
                forall|j: int| 0 <= j < counts.len() ==> cars_per_building.drawable(#[trigger] counts[j]),
                roads@.len() > 0 && complete ==> owners_of(self.parked_cars@.skip(start.parked_cars@.len() as int))
                    == repeat_owners(owner_buildings@, counts, i as int),
                !complete ==> repeat_owners(owner_buildings@, counts, i as int).len() > usize::MAX
                    - start.next_car_id,
                self.parked_cars@.len() - start.parked_cars@.len() == self.next_car_id - start.next_car_id,
            decreases owner_buildings@.len() - i,
        {
            let owner = owner_buildings[i];
            let n = cars_per_building.sample(&mut self.rng);
            let ghost before_counts = counts;
            proof {
                counts = counts.push(n as int);
                lemma_repeat_owners_prefix(owner_buildings@, before_counts, counts, i as int);
            }
            let ghost new_start = self.parked_cars@.skip(start.parked_cars@.len() as int);
            let ghost placed_before = self.parked_cars@.len() - start.parked_cars@.len();
            let ghost next_before = self.next_car_id;
            let mut placed: usize = 0;
            while placed < n && complete
                invariant
                    self.wf(),
                    i < owner_buildings@.len(),
                    owner == owner_buildings@[i as int],
                    placed <= n,
                    counts.len() == i + 1,
                    counts[i as int] == n,
                    repeat_owners(owner_buildings@, counts, i as int) == repeat_owners(owner_buildings@, before_counts, i as int),
                    self.time == start.time,
                    self.trips == start.trips,
                    start.next_car_id <= self.next_car_id,
                    start.parked_cars@.len() <= self.parked_cars@.len(),
                    self.parked_cars@.take(start.parked_cars@.len() as int) == start.parked_cars@,
                    forall|k: int|
                        start.parked_cars@.len() <= k < self.parked_cars@.len() ==> {
                            let c = #[trigger] self.parked_cars@[k];
                            &&& owner_buildings@.contains(c.owner)
                            &&& roads@.contains(c.road)
                            &&& start.next_car_id <= c.car
                        },
                    roads@.len() == 0 ==> self.parked_cars@ == start.parked_cars@,
                    self.parked_cars@.len() - start.parked_cars@.len() == self.next_car_id - start.next_car_id,
                    roads@.len() > 0 && complete ==> owners_of(self.parked_cars@.skip(start.parked_cars@.len() as int))
                        == repeat_owners(owner_buildings@, before_counts, i as int) + Seq::new(
                        placed as nat,
                        |_k: int| owner,
                    ),
                    !complete ==> repeat_owners(owner_buildings@, before_counts, i as int).len() + n
                        > usize::MAX - start.next_car_id,
                ensures
                    roads@.len() > 0 && complete ==> placed == n,
                decreases n - placed,
            {
                let road = choose_id(&mut self.rng, roads);
                match road {
                    None => {
                        break;
                    },
                    Some(road) => {
                        let ghost before = self.parked_cars@;
                        match self.park_new_car(owner, road) {
                            None => {
                                complete = false;
                                break;
                            },
                            Some(_) => {
                                proof {
                                    assert(self.parked_cars@.take(start.parked_cars@.len() as int)
                                        =~= before.take(start.parked_cars@.len() as int));
                                    assert(self.parked_cars@.skip(start.parked_cars@.len() as int) =~= before.skip(
                                        start.parked_cars@.len() as int,
                                    ).push(ParkedCar { car: (self.next_car_id - 1) as usize, owner, road }));
                                    assert(owners_of(self.parked_cars@.skip(start.parked_cars@.len() as int)) =~= owners_of(
                                        before.skip(start.parked_cars@.len() as int),
                                    ).push(owner));
                                    assert(Seq::new((placed + 1) as nat, |_k: int| owner) =~= Seq::new(
                                        placed as nat,
                                        |_k: int| owner,
                                    ).push(owner));
                                }
                            },
                        }
                    },
                }
                placed = placed + 1;
            }
            proof {
                if roads@.len() > 0 && complete {
                    assert(Seq::new(n as nat, |_k: int| owner) =~= Seq::new(
                        counts[i as int] as nat,
                        |_k: int| owner_buildings@[i as int],
                    ));
                }
            }
            i = i + 1;
        }
        proof {
            if roads@.len() > 0 && start.next_car_id + repeat_owners(owner_buildings@, counts, counts.len() as int).len() <= usize::MAX {
                assert(complete);
            }
            assert(seeded_in_turn(counts, owner_buildings@, roads@, *cars_per_building, start, *self));
        }
    }

    /// Parks one car per given spot on `road`, all owned by `owner`, and returns
    /// their ids in order.
    pub fn seed_specific_parked_cars(&mut self, road: usize, owner: usize, spots: &Vec<usize>) -> (r: Vec<usize>)
        requires
            old(self).wf(),
            old(self).next_car_id + spots@.len() <= usize::MAX,
        ensures
            final(self).wf(),
            final(self).time == old(self).time,
            final(self).trips == old(self).trips,
            final(self).next_car_id == old(self).next_car_id + spots@.len(),
            r@.len() == spots@.len(),
            final(self).parked_cars@ == old(self).parked_cars@ + Seq::new(
                spots@.len(),
                |k: int| ParkedCar { car: (old(self).next_car_id + k) as usize, owner, road },
            ),
            forall|k: int| 0 <= k < r@.len() ==> r@[k] == old(self).next_car_id + k,
    {
        let ghost start = *old(self);
        let mut ids: Vec<usize> = Vec::new();
        let mut i: usize = 0;
        while i < spots.len()
            invariant
                self.wf(),
                i <= spots@.len(),
                start.next_car_id + spots@.len() <= usize::MAX,
                self.time == start.time,
                self.trips == start.trips,
                self.next_car_id == start.next_car_id + i,
                ids@.len() == i,
                self.parked_cars@ == start.parked_cars@ + Seq::new(
                    i as nat,
                    |k: int| ParkedCar { car: (start.next_car_id + k) as usize, owner, road },
                ),
                forall|k: int| 0 <= k < ids@.len() ==> ids@[k] == start.next_car_id + k,
            decreases spots@.len() - i,
        {
            let car = self.park_new_car(owner, road).unwrap();
            ids.push(car);
            i = i + 1;
            proof {
                assert(self.parked_cars@ =~= start.parked_cars@ + Seq::new(
                    i as nat,
                    |k: int| ParkedCar { car: (start.next_car_id + k) as usize, owner, road },
                ));
            }
        }
        ids
    }

    /// The parked car with the given id, if there is one.
    pub fn lookup_car(&self, car: usize) -> (r: Option<ParkedCar>)
        ensures
            r matches Some(p) ==> p.car == car && self.parked_cars@.contains(p),
            r.is_none() ==> forall|k: int|
                0 <= k < self.parked_cars@.len() ==> #[trigger] self.parked_cars@[k].car != car,
    {
        let mut i: usize = 0;
        while i < self.parked_cars.len()
            invariant
                i <= self.parked_cars@.len(),
                forall|k: int| 0 <= k < i ==> #[trigger] self.parked_cars@[k].car != car,
            decreases self.parked_cars@.len() - i,
        {
            if self.parked_cars[i].car == car {
                return Some(self.parked_cars[i]);
            }
            i = i + 1;
        }
        None
    }

    /// The cars owned by a building, in inventory order.
    pub fn get_parked_cars_by_owner(&self, owner: usize) -> (r: Vec<ParkedCar>)
        ensures
            r@ == cars_owned_by(self.parked_cars@, owner, self.parked_cars@.len() as int),
    {
        let mut out: Vec<ParkedCar> = Vec::new();
        let mut i: usize = 0;
        while i < self.parked_cars.len()
            invariant
                i <= self.parked_cars@.len(),
                out@ == cars_owned_by(self.parked_cars@, owner, i as int),
            decreases self.parked_cars@.len() - i,
        {
            let c = self.parked_cars[i];
            if c.owner == owner {
                out.push(c);
            }
            i = i + 1;
        }
        out
    }

    /// Hands the simulation a trip.
    pub fn start_trip(&mut self, trip: Trip)
        ensures
            final(self).trips@ == old(self).trips@.push(trip),
            final(self).time == old(self).time,
            final(self).parked_cars == old(self).parked_cars,
            final(self).next_car_id == old(self).next_car_id,
    {
        self.trips.push(trip);
    }

    /// A walk between two given spots, starting on the next tick.
    pub fn spawn_specific_pedestrian(&mut self, from: SidewalkSpot, to: SidewalkSpot)
        requires
            old(self).time.0 < u64::MAX,
        ensures
            final(self).trips@ == old(self).trips@.push(
                Trip::JustWalking { start: Tick((old(self).time.0 + 1) as u64), from, to },
            ),
            final(self).time == old(self).time,
            final(self).parked_cars == old(self).parked_cars,
            final(self).next_car_id == old(self).next_car_id,
    {
        let start = self.time.next();
        self.start_trip(Trip::JustWalking { start, from, to });
    }

    /// The owner of a parked car drives it to `to`, starting on the next tick.
    pub fn make_ped_using_car(&mut self, car: usize, to: DrivingGoal)
        requires
            old(self).time.0 < u64::MAX,
            exists|k: int| 0 <= k < old(self).parked_cars@.len() && #[trigger] old(self).parked_cars@[k].car == car,
        ensures
            exists|p: ParkedCar| #[trigger] old(self).parked_cars@.contains(p) && p.car == car
                && final(self).trips@ == old(self).trips@.push(
                Trip::UsingParkedCar {
                    start: Tick((old(self).time.0 + 1) as u64),
                    car,
                    from_bldg: p.owner,
                    goal: to,
                },
            ),
            final(self).time == old(self).time,
            final(self).parked_cars == old(self).parked_cars,
            final(self).next_car_id == old(self).next_car_id,
    {
        let parked = self.lookup_car(car);
        let parked = parked.unwrap();
        let start = self.time.next();
        self.start_trip(Trip::UsingParkedCar { start, car, from_bldg: parked.owner, goal: to });
    }
}

} // verus!
