use vstd::prelude::*;
use crate::geometry::{Polygon, Pt2D, polygon_contains, rectangle_ring, lemma_rectangle_contains};
use crate::map::{Building, CityMap, GPSBounds, LonLat, Road, gps_to_pt, pt_in_bounds};

verus! {

/// The persisted form of a neighborhood: its corners as geographic coordinates,
/// which survive small changes to the map's local coordinate system.
#[derive(Clone, Debug)]
pub struct NeighborhoodBuilder {
    pub map_name: String,
    pub name: String,
    pub points: Vec<LonLat>,
}

/// A named polygonal region of a map.
#[derive(Clone, Debug)]
pub struct Neighborhood {
    pub map_name: String,
    pub name: String,
    pub polygon: Polygon,
}

/// Ids of the first `n` buildings whose centroid lies in the polygon, in map order.
pub open spec fn buildings_in(bs: Seq<Building>, poly: Seq<Pt2D>, n: int) -> Seq<usize>
    decreases n,
{
    if n <= 0 {
        seq![]
    } else if polygon_contains(poly, bs[n - 1].center) {
        buildings_in(bs, poly, n - 1).push(bs[n - 1].id)
    } else {
        buildings_in(bs, poly, n - 1)
    }
}

/// Ids of the first `n` roads whose first center-line point lies in the polygon,
/// in map order.
pub open spec fn roads_in(rs: Seq<Road>, poly: Seq<Pt2D>, n: int) -> Seq<usize>
    decreases n,
{
    if n <= 0 {
        seq![]
    } else if polygon_contains(poly, rs[n - 1].first_pt) {
        roads_in(rs, poly, n - 1).push(rs[n - 1].id)
    } else {
        roads_in(rs, poly, n - 1)
    }
}

/// The buildings of a map that a polygon matches.
pub open spec fn matched_buildings(map: CityMap, poly: Seq<Pt2D>) -> Seq<usize> {
    buildings_in(map.buildings@, poly, map.buildings@.len() as int)
}

/// The roads of a map that a polygon matches.
pub open spec fn matched_roads(map: CityMap, poly: Seq<Pt2D>) -> Seq<usize> {
    roads_in(map.roads@, poly, map.roads@.len() as int)
}

/// The ring that covers a whole map: its bounding rectangle.
pub open spec fn everywhere_ring(map: CityMap) -> Seq<Pt2D> {
    rectangle_ring(map.max_x, map.max_y)
}

/// The name under which the whole-map neighborhood is always available.
pub open spec fn everywhere_name() -> Seq<char> {
    seq!['_', 'e', 'v', 'e', 'r', 'y', 'w', 'h', 'e', 'r', 'e', '_']
}

/// Ids `0..n`, the identifiers of the first `n` items of a well-formed map.
pub open spec fn all_ids(n: int) -> Seq<usize> {
    Seq::new(n as nat, |i: int| i as usize)
}

impl NeighborhoodBuilder {
    /// Projects the corners into map-local coordinates.
    pub fn finalize(&self, gps_bounds: &GPSBounds) -> (r: Neighborhood)
        requires
            self.points@.len() >= 3,
            forall|i: int|
                0 <= i < self.points@.len() ==> #[trigger] gps_to_pt(*gps_bounds, self.points@[i]).is_some(),
        ensures
            r.map_name@ == self.map_name@,
            r.name@ == self.name@,
            r.polygon.points@ == self.points@.map_values(|g: LonLat| gps_to_pt(*gps_bounds, g).unwrap()),
    {
        let mut pts: Vec<Pt2D> = Vec::new();
        let mut i: usize = 0;
        while i < self.points.len()
            invariant
                i <= self.points@.len(),
                forall|k: int|
                    0 <= k < self.points@.len() ==> #[trigger] gps_to_pt(*gps_bounds, self.points@[k]).is_some(),
                pts@ == self.points@.take(i as int).map_values(|g: LonLat| gps_to_pt(*gps_bounds, g).unwrap()),
            decreases self.points@.len() - i,
        {
            let g = self.points[i];
            let p = Pt2D::from_gps(g, gps_bounds);
            assert(gps_to_pt(*gps_bounds, self.points@[i as int]).is_some());
            let p = p.unwrap();
            pts.push(p);
            proof {
                assert(self.points@.take(i + 1) == self.points@.take(i as int).push(g));
            }
            i = i + 1;
        }
        assert(self.points@.take(i as int) == self.points@);
        Neighborhood {
            map_name: self.map_name.clone(),
            name: self.name.clone(),
            polygon: Polygon::new(pts),
        }
    }
}

impl Neighborhood {
    /// Every building whose centroid lies inside the polygon, in map order.
    pub fn find_matching_buildings(&self, map: &CityMap) -> (r: Vec<usize>)
        ensures
            r@ == matched_buildings(*map, self.polygon.points@),
    {
        let mut results: Vec<usize> = Vec::new();
        let mut i: usize = 0;
        while i < map.buildings.len()
            invariant
                i <= map.buildings@.len(),
                results@ == buildings_in(map.buildings@, self.polygon.points@, i as int),
            decreases map.buildings@.len() - i,
        {
            let b = map.buildings[i];
            if self.polygon.contains_pt(b.center) {
                results.push(b.id);
            }
            i = i + 1;
        }
        results
    }

    /// Every road whose first center-line point lies inside the polygon, in map
    /// order.
    pub fn find_matching_roads(&self, map: &CityMap) -> (r: Vec<usize>)
        ensures
            r@ == matched_roads(*map, self.polygon.points@),
    {
        let mut results: Vec<usize> = Vec::new();
        let mut i: usize = 0;
        while i < map.roads.len()
            invariant
                i <= map.roads@.len(),
                results@ == roads_in(map.roads@, self.polygon.points@, i as int),
            decreases map.roads@.len() - i,
        {
            let r = map.roads[i];
            if self.polygon.contains_pt(r.first_pt) {
                results.push(r.id);
            }
            i = i + 1;
        }
        results
    }

    /// The catch-all region: the map's bounding rectangle.
    pub fn make_everywhere(map: &CityMap) -> (r: Neighborhood)
        requires
            map.wf(),
        ensures
            r.map_name@ == map.name@,
            r.name@ == everywhere_name(),
            r.polygon.points@ == everywhere_ring(*map),
    {
        let w = map.max_x;
        let h = map.max_y;
        let pts = vec![
            Pt2D { x: 0, y: 0 },
            Pt2D { x: w, y: 0 },
            Pt2D { x: w, y: h },
            Pt2D { x: 0, y: h },
            Pt2D { x: 0, y: 0 },
        ];
        let name = "_everywhere_".to_owned();
        proof {
            reveal_strlit("_everywhere_");
            assert(name@ =~= everywhere_name());
            assert(pts@ =~= everywhere_ring(*map));
        }
        Neighborhood { map_name: map.name.clone(), name, polygon: Polygon::new(pts) }
    }
}

/// The whole-map region matches every building and every road of a
/// well-formed map.
pub proof fn lemma_everywhere_matches_all(map: CityMap)
    requires
        map.wf(),
    ensures
        matched_buildings(map, everywhere_ring(map)) == all_ids(map.buildings@.len() as int),
        matched_roads(map, everywhere_ring(map)) == all_ids(map.roads@.len() as int),
{
    lemma_everywhere_buildings(map, map.buildings@.len() as int);
    lemma_everywhere_roads(map, map.roads@.len() as int);
}

proof fn lemma_everywhere_buildings(map: CityMap, n: int)
    requires
        map.wf(),
        0 <= n <= map.buildings@.len(),
    ensures
        buildings_in(map.buildings@, everywhere_ring(map), n) == all_ids(n),
    decreases n,
{
    if n > 0 {
        lemma_everywhere_buildings(map, n - 1);
        let b = map.buildings@[n - 1];
        assert(map.buildings@[n - 1].id == n - 1);
        assert(pt_in_bounds(b.center, map.max_x, map.max_y));
        lemma_rectangle_contains(map.max_x, map.max_y, b.center);
        assert(all_ids(n - 1).push((n - 1) as usize) =~= all_ids(n));
    } else {
        assert(all_ids(n) =~= seq![]);
    }
}

proof fn lemma_everywhere_roads(map: CityMap, n: int)
    requires
        map.wf(),
        0 <= n <= map.roads@.len(),
    ensures
        roads_in(map.roads@, everywhere_ring(map), n) == all_ids(n),
    decreases n,
{
    if n > 0 {
        lemma_everywhere_roads(map, n - 1);
        let r = map.roads@[n - 1];
        assert(map.roads@[n - 1].id == n - 1);
        assert(pt_in_bounds(r.first_pt, map.max_x, map.max_y));
        lemma_rectangle_contains(map.max_x, map.max_y, r.first_pt);
        assert(all_ids(n - 1).push((n - 1) as usize) =~= all_ids(n));
    } else {
        assert(all_ids(n) =~= seq![]);
    }
}

} // verus!
