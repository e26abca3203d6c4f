use vstd::prelude::*;

verus! {

/// A color given as red, green and blue components.
#[derive(Clone, Copy, Debug, PartialEq, Eq, Structural)]
pub struct Color {
    pub r: u8,
    pub g: u8,
    pub b: u8,
}

/// The OSM classes that the classifier colors.
#[derive(Clone, Copy, Debug, PartialEq, Eq, Structural)]
pub enum OsmClass {
    Motorway,
    Trunk,
    Primary,
    Secondary,
    Residential,
    House,
}

/// The class of a driving lane's road from its `highway` tag.
pub open spec fn highway_class(tag: Seq<char>) -> Option<OsmClass> {
    if tag == "motorway"@ || tag == "motorway_link"@ {
        Some(OsmClass::Motorway)
    } else if tag == "trunk"@ || tag == "trunk_link"@ {
        Some(OsmClass::Trunk)
    } else if tag == "primary"@ || tag == "primary_link"@ {
        Some(OsmClass::Primary)
    } else if tag == "secondary"@ || tag == "secondary_link"@ {
        Some(OsmClass::Secondary)
    } else if tag == "residential"@ {
        Some(OsmClass::Residential)
    } else {
        None
    }
}

impl OsmClass {
    /// The color-scheme entry for the class.
    pub fn color_name(&self) -> (r: String)
        ensures
            r@ == match *self {
                OsmClass::Motorway => "OSM motorway"@,
                OsmClass::Trunk => "OSM trunk"@,
                OsmClass::Primary => "OSM primary"@,
                OsmClass::Secondary => "OSM secondary"@,
                OsmClass::Residential => "OSM residential"@,
                OsmClass::House => "OSM house"@,
            },
    {
        match self {
            OsmClass::Motorway => "OSM motorway".to_owned(),
            OsmClass::Trunk => "OSM trunk".to_owned(),
            OsmClass::Primary => "OSM primary".to_owned(),
            OsmClass::Secondary => "OSM secondary".to_owned(),
            OsmClass::Residential => "OSM residential".to_owned(),
            OsmClass::House => "OSM house".to_owned(),
        }
    }

    /// The color used when the color scheme has no entry for the class.
    pub fn default_color(&self) -> (r: Color)
        ensures
            r == match *self {
                OsmClass::Motorway => Color { r: 231, g: 141, b: 159 },
                OsmClass::Trunk => Color { r: 249, g: 175, b: 152 },
                OsmClass::Primary => Color { r: 252, g: 213, b: 160 },
                OsmClass::Secondary => Color { r: 252, g: 213, b: 160 },
                OsmClass::Residential => Color { r: 254, g: 254, b: 254 },
                OsmClass::House => Color { r: 0, g: 255, b: 0 },
            },
    {
        match self {
            OsmClass::Motorway => Color { r: 231, g: 141, b: 159 },
            OsmClass::Trunk => Color { r: 249, g: 175, b: 152 },
            OsmClass::Primary => Color { r: 252, g: 213, b: 160 },
            OsmClass::Secondary => Color { r: 252, g: 213, b: 160 },
            OsmClass::Residential => Color { r: 254, g: 254, b: 254 },
            OsmClass::House => Color { r: 0, g: 255, b: 0 },
        }
    }
}

fn tag_is(tag: &String, lit: &str) -> (r: bool)
    ensures
        r == (tag@ == lit@),
{
    let l = lit.to_owned();
    *tag == l
}

/// A debug view that colors lanes and buildings by their OSM tags.
pub struct OsmClassifier {}

impl OsmClassifier {
    /// The view opens when its toggle key was pressed.
    pub fn new(toggle_pressed: bool) -> (r: Option<OsmClassifier>)
        ensures
            r.is_some() == toggle_pressed,
    {
        if toggle_pressed {
            Some(OsmClassifier {})
        } else {
            None
        }
    }

    /// Whether the view stays open: it closes when its toggle key is pressed
    /// again.
    pub fn blocking_event(&mut self, toggle_pressed: bool) -> (r: bool)
        ensures
            r == !toggle_pressed,
    {
        !toggle_pressed
    }

    /// The class of a lane: driving lanes are classed by their road's
    /// `highway` tag; other lanes are not colored.
    pub fn class_for_lane(&self, is_driving: bool, highway: Option<&String>) -> (r: Option<OsmClass>)
        ensures
            r == if is_driving && highway.is_some() {
                highway_class(highway.unwrap()@)
            } else {
                None
            },
    {
        proof {
            reveal_strlit("motorway");
            reveal_strlit("motorway_link");
            reveal_strlit("trunk");
            reveal_strlit("trunk_link");
            reveal_strlit("primary");
            reveal_strlit("primary_link");
            reveal_strlit("secondary");
            reveal_strlit("secondary_link");
            reveal_strlit("residential");
        }
        if !is_driving {
            return None;
        }
        match highway {
            None => None,
            Some(tag) => {
                if tag_is(tag, "motorway") || tag_is(tag, "motorway_link") {
                    Some(OsmClass::Motorway)
                } else if tag_is(tag, "trunk") || tag_is(tag, "trunk_link") {
                    Some(OsmClass::Trunk)
                } else if tag_is(tag, "primary") || tag_is(tag, "primary_link") {
                    Some(OsmClass::Primary)
                } else if tag_is(tag, "secondary") || tag_is(tag, "secondary_link") {
                    Some(OsmClass::Secondary)
                } else if tag_is(tag, "residential") {
                    Some(OsmClass::Residential)
                } else {
                    None
                }
            },
        }
    }

    /// Buildings with a house number are colored as houses.
    pub fn class_for_building(&self, has_housenumber: bool) -> (r: Option<OsmClass>)
        ensures
            r == if has_housenumber {
                Some(OsmClass::House)
            } else {
                None
            },
    {
        if has_housenumber {
            Some(OsmClass::House)
        } else {
            None
        }
    }
}

} // verus!
