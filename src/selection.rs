use vstd::prelude::*;

verus! {

/// The kind of a map object under the cursor.
#[derive(Clone, Copy, Debug, PartialEq, Eq, Structural)]
pub enum ObjectKind {
    Road,
    Intersection,
    Building,
    Area,
    Other,
}

/// An object near the cursor, and whether its shape contains the cursor.
#[derive(Clone, Copy, Debug, PartialEq, Eq, Structural)]
pub struct Candidate {
    pub kind: ObjectKind,
    pub id: usize,
    pub under_cursor: bool,
}

/// Which objects can be selected. Zoomed in, everything but roads (whose
/// lanes are drawn instead); zoomed out, roads and intersections only when
/// asked for, and buildings only when asked for.
pub open spec fn selectable(kind: ObjectKind, zoomed_in: bool, roads_and_intersections: bool, buildings: bool) -> bool {
    match kind {
        ObjectKind::Road => roads_and_intersections && !zoomed_in,
        ObjectKind::Intersection => zoomed_in || roads_and_intersections,
        ObjectKind::Building => zoomed_in || buildings,
        _ => zoomed_in,
    }
}

pub open spec fn picks(c: Candidate, zoomed_in: bool, roads_and_intersections: bool, buildings: bool) -> bool {
    c.under_cursor && selectable(c.kind, zoomed_in, roads_and_intersections, buildings)
}

/// The object under the cursor: the frontmost candidate that is selectable
/// and contains the cursor. Zoomed out, nothing is selected unless roads and
/// intersections or buildings are asked for.
pub fn calculate_current_selection(
    front_to_back: &Vec<Candidate>,
    zoomed_in: bool,
    roads_and_intersections: bool,
    buildings: bool,
) -> (r: Option<Candidate>)
    ensures
        !(zoomed_in || roads_and_intersections || buildings) ==> r.is_none(),
        (zoomed_in || roads_and_intersections || buildings) ==> match r {
            Some(c) => exists|k: int|
                0 <= k < front_to_back@.len() && #[trigger] front_to_back@[k] == c && picks(
                    c,
                    zoomed_in,
                    roads_and_intersections,
                    buildings,
                ) && forall|j: int|
                    0 <= j < k ==> !picks(
                        #[trigger] front_to_back@[j],
                        zoomed_in,
                        roads_and_intersections,
                        buildings,
                    ),
            None => forall|j: int|
                0 <= j < front_to_back@.len() ==> !picks(
                    #[trigger] front_to_back@[j],
                    zoomed_in,
                    roads_and_intersections,
                    buildings,
                ),
        },
{
    if !(zoomed_in || roads_and_intersections || buildings) {
        return None;
    }
    let mut i: usize = 0;
    while i < front_to_back.len()
        invariant
            i <= front_to_back@.len(),
            forall|j: int|
                0 <= j < i ==> !picks(
                    #[trigger] front_to_back@[j],
                    zoomed_in,
                    roads_and_intersections,
                    buildings,
                ),
        decreases front_to_back@.len() - i,
    {
        let c = front_to_back[i];
        let ok = match c.kind {
            ObjectKind::Road => roads_and_intersections && !zoomed_in,
            ObjectKind::Intersection => zoomed_in || roads_and_intersections,
            ObjectKind::Building => zoomed_in || buildings,
            _ => zoomed_in,
        };
        if ok && c.under_cursor {
            assert(front_to_back@[i as int] == c);
            return Some(c);
        }
        i = i + 1;
    }
    None
}

} // verus!
