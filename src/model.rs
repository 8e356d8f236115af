//! The transit entities built from the map.

use vstd::prelude::*;

use crate::osm::Tags;

verus! {

/// A position, in units of 1e-7 degree. `(0, 0)` stands for "no position found".
#[derive(Clone, Copy, Debug, PartialEq, Eq, Structural)]
pub struct Coord {
    pub decimicro_lat: i32,
    pub decimicro_lon: i32,
}

impl Coord {
    /// A position from its latitude and longitude in units of 1e-7 degree.
    pub fn new(decimicro_lat: i32, decimicro_lon: i32) -> (r: Coord)
        ensures
            r.decimicro_lat == decimicro_lat,
            r.decimicro_lon == decimicro_lon,
    {
        Coord { decimicro_lat, decimicro_lon }
    }
}

/// The coordinate given when none could be resolved.
pub open spec fn sentinel() -> Coord {
    Coord { decimicro_lat: 0, decimicro_lon: 0 }
}

/// The role of a stop point along the routes that serve it.
#[derive(Clone, Copy, Debug, PartialEq, Eq, Structural)]
pub enum StopPointType {
    StopPosition,
    Platform,
    Unknown,
}

/// A place where vehicles stop or passengers wait: a node or way of the map.
/// Its id is `"<kind>:<number>"` of that object.
pub struct StopPoint {
    pub id: String,
    pub stop_point_type: StopPointType,
    pub coord: Coord,
    pub name: String,
    pub all_osm_tags: Tags,
}

/// A group of stop points; `stop_point_ids` are the ids of its `platform`
/// members, whether or not they were extracted as stop points.
pub struct StopArea {
    pub id: String,
    pub coord: Coord,
    pub name: String,
    pub all_osm_tags: Tags,
    pub stop_point_ids: Vec<String>,
}

/// A stop of a route: the member's role and the stop point's id.
pub struct RoutePoint {
    pub role: String,
    pub stop_point_id: String,
}

/// One itinerary of a transit service: its tags, its stops in order, and its
/// geometry as a list of polylines.
pub struct Route {
    pub id: String,
    pub name: String,
    pub code: String,
    pub destination: String,
    pub origin: String,
    pub colour: String,
    pub operator: String,
    pub network: String,
    pub mode: String,
    pub frequency: String,
    pub opening_hours: String,
    pub frequency_exceptions: String,
    pub travel_time: String,
    pub all_osm_tags: Tags,
    pub ordered_route_points: Vec<RoutePoint>,
    pub shape: Vec<Vec<Coord>>,
}

/// A transit line: its tags, the ids of its routes and their geometry.
pub struct Line {
    pub id: String,
    pub name: String,
    pub code: String,
    pub colour: String,
    pub operator: String,
    pub network: String,
    pub mode: String,
    pub frequency: String,
    pub opening_hours: String,
    pub frequency_exceptions: String,
    pub all_osm_tags: Tags,
    pub shape: Vec<Vec<Coord>>,
    pub routes_id: Vec<String>,
}

/// The polylines of a shape, as sequences.
pub open spec fn shape_view(s: Seq<Vec<Coord>>) -> Seq<Seq<Coord>> {
    s.map_values(|p: Vec<Coord>| p@)
}

/// The route points of a route, as (role, stop point id) pairs.
pub open spec fn points_view(s: Seq<RoutePoint>) -> Seq<(Seq<char>, Seq<char>)> {
    s.map_values(|p: RoutePoint| (p.role@, p.stop_point_id@))
}

/// A sequence of strings, as character sequences.
pub open spec fn texts_view(s: Seq<String>) -> Seq<Seq<char>> {
    s.map_values(|t: String| t@)
}

/// Entities with an id.
pub trait Id<T> {
    fn id(&self) -> &str;
}

/// Entities with a shape.
pub trait Shape {
    fn get_shape(&self) -> &Vec<Vec<Coord>>;
}

impl Id<Route> for Route {
    fn id(&self) -> &str {
        self.id.as_str()
    }
}

impl Shape for Route {
    fn get_shape(&self) -> &Vec<Vec<Coord>> {
        &self.shape
    }
}

impl Id<Line> for Line {
    fn id(&self) -> &str {
        self.id.as_str()
    }
}

impl Shape for Line {
    fn get_shape(&self) -> &Vec<Vec<Coord>> {
        &self.shape
    }
}

} // verus!
