use vstd::prelude::*;
use crate::geometry::Pt2D;

verus! {

/// A geographic coordinate in fixed-point units (ten-millionths of a degree).
#[derive(Clone, Copy, Debug, PartialEq, Eq, Structural)]
pub struct LonLat {
    pub longitude: i32,
    pub latitude: i32,
}

/// The geographic box that a map covers.
#[derive(Clone, Copy, Debug, PartialEq, Eq, Structural)]
pub struct GPSBounds {
    pub min_lon: i32,
    pub min_lat: i32,
    pub max_lon: i32,
    pub max_lat: i32,
}

/// The map-local point of a geographic coordinate: x grows east from the
/// western edge, y grows south from the northern edge. None when the coordinate
/// lies outside the bounds or its offset does not fit a coordinate.
pub open spec fn gps_to_pt(b: GPSBounds, g: LonLat) -> Option<Pt2D> {
    let x = g.longitude - b.min_lon;
    let y = b.max_lat - g.latitude;
    if b.min_lon <= g.longitude <= b.max_lon && b.min_lat <= g.latitude <= b.max_lat && x
        <= i32::MAX && y <= i32::MAX {
        Some(Pt2D { x: x as i32, y: y as i32 })
    } else {
        None
    }
}

impl Pt2D {
    /// Projects a geographic coordinate into map-local space.
    pub fn from_gps(g: LonLat, b: &GPSBounds) -> (r: Option<Pt2D>)
        ensures
            r == gps_to_pt(*b, g),
    {
        if !(b.min_lon <= g.longitude && g.longitude <= b.max_lon && b.min_lat <= g.latitude
            && g.latitude <= b.max_lat) {
            return None;
        }
        let x = g.longitude as i64 - b.min_lon as i64;
        let y = b.max_lat as i64 - g.latitude as i64;
        if x <= i32::MAX as i64 && y <= i32::MAX as i64 {
            Some(Pt2D { x: x as i32, y: y as i32 })
        } else {
            None
        }
    }
}

#[derive(Clone, Copy, Debug, PartialEq, Eq, Structural)]
pub struct Building {
    pub id: usize,
    /// The centroid of the building's footprint.
    pub center: Pt2D,
}

#[derive(Clone, Copy, Debug, PartialEq, Eq, Structural)]
pub struct Road {
    pub id: usize,
    /// The first point of the road's center line.
    pub first_pt: Pt2D,
}

#[derive(Clone, Debug)]
pub struct Intersection {
    pub id: usize,
    pub is_border: bool,
    /// Driving lanes that end at this intersection, in lane order.
    pub incoming_driving_lanes: Vec<usize>,
    /// Driving lanes that start at this intersection, in lane order.
    pub outgoing_driving_lanes: Vec<usize>,
    /// The sidewalk on which a pedestrian can leave the map here.
    pub incoming_sidewalk: Option<usize>,
    /// The sidewalk on which a pedestrian can enter the map here.
    pub outgoing_sidewalk: Option<usize>,
}

/// The read-only map that demand is generated against.
#[derive(Clone, Debug)]
pub struct CityMap {
    pub name: String,
    /// All points of the map lie in `[0, max_x] x [0, max_y]`.
    pub max_x: i32,
    pub max_y: i32,
    pub gps_bounds: GPSBounds,
    pub buildings: Vec<Building>,
    pub roads: Vec<Road>,
    pub intersections: Vec<Intersection>,
}

pub open spec fn pt_in_bounds(p: Pt2D, max_x: i32, max_y: i32) -> bool {
    0 <= p.x <= max_x && 0 <= p.y <= max_y
}

impl CityMap {
    /// Identifiers are positions, and every point lies within the bounds.
    pub open spec fn wf(&self) -> bool {
        &&& 0 <= self.max_x
        &&& 0 <= self.max_y
        &&& forall|i: int|
            0 <= i < self.buildings@.len() ==> #[trigger] self.buildings@[i].id == i
                && pt_in_bounds(self.buildings@[i].center, self.max_x, self.max_y)
        &&& forall|i: int|
            0 <= i < self.roads@.len() ==> #[trigger] self.roads@[i].id == i && pt_in_bounds(
                self.roads@[i].first_pt,
                self.max_x,
                self.max_y,
            )
        &&& forall|i: int| 0 <= i < self.intersections@.len() ==> #[trigger] self.intersections@[i].id == i
    }

    pub open spec fn has_intersection(&self, i: usize) -> bool {
        i < self.intersections@.len()
    }

    /// Border intersections where agents can enter the map.
    pub open spec fn is_incoming_border(&self, i: int) -> bool {
        let x = self.intersections@[i];
        x.is_border && (x.outgoing_driving_lanes@.len() > 0 || x.outgoing_sidewalk.is_some())
    }

    /// Border intersections where agents can leave the map.
    pub open spec fn is_outgoing_border(&self, i: int) -> bool {
        let x = self.intersections@[i];
        x.is_border && (x.incoming_driving_lanes@.len() > 0 || x.incoming_sidewalk.is_some())
    }

    pub fn get_i(&self, i: usize) -> (r: &Intersection)
        requires
            self.has_intersection(i),
        ensures
            *r == self.intersections@[i as int],
    {
        &self.intersections[i]
    }

    pub open spec fn is_border_of_kind(&self, i: int, incoming: bool) -> bool {
        if incoming {
            self.is_incoming_border(i)
        } else {
            self.is_outgoing_border(i)
        }
    }

    /// The identifiers below `n` of the borders of one kind, in identifier order.
    pub open spec fn borders_upto(&self, n: int, incoming: bool) -> Seq<usize>
        decreases n,
    {
        if n <= 0 {
            seq![]
        } else if self.is_border_of_kind(n - 1, incoming) {
            self.borders_upto(n - 1, incoming).push((n - 1) as usize)
        } else {
            self.borders_upto(n - 1, incoming)
        }
    }

    /// The identifiers of the incoming borders, in identifier order.
    pub fn all_incoming_borders(&self) -> (r: Vec<usize>)
        ensures
            r@ == self.borders_upto(self.intersections@.len() as int, true),
    {
        self.borders(true)
    }

    /// The identifiers of the outgoing borders, in identifier order.
    pub fn all_outgoing_borders(&self) -> (r: Vec<usize>)
        ensures
            r@ == self.borders_upto(self.intersections@.len() as int, false),
    {
        self.borders(false)
    }

    fn borders(&self, incoming: bool) -> (r: Vec<usize>)
        ensures
            r@ == self.borders_upto(self.intersections@.len() as int, incoming),
    {
        let mut out: Vec<usize> = Vec::new();
        let mut i: usize = 0;
        while i < self.intersections.len()
            invariant
                i <= self.intersections@.len(),
                out@ == self.borders_upto(i as int, incoming),
            decreases self.intersections@.len() - i,
        {
            let x = &self.intersections[i];
            let keep = if incoming {
                x.is_border && (x.outgoing_driving_lanes.len() > 0 || x.outgoing_sidewalk.is_some())
            } else {
                x.is_border && (x.incoming_driving_lanes.len() > 0 || x.incoming_sidewalk.is_some())
            };
            if keep {
                out.push(i);
            }
            i = i + 1;
        }
        out
    }
}

} // verus!
