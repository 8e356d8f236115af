//! Typed public-transit entities (stop points, stop areas, routes, lines)
//! extracted from a decoded OpenStreetMap object store.

pub mod categorize;
pub mod classify;
pub mod entity;
pub mod extract;
pub mod model;
pub mod osm;
pub mod resolve;
pub mod table;
pub mod text;

pub use categorize::{
    categorize_stop_point, get_routes_from_stop, ptv2_route_counts, update_stop_points_type,
};
pub use classify::{
    classify_route_type, is_line, is_pt_route_type, is_route, is_stop, is_stop_area,
    is_stop_point, RouteTypeClass,
};
pub use entity::{
    osm_line_to_routes_list, osm_obj_to_line, osm_obj_to_route, osm_obj_to_stop_area,
    osm_obj_to_stop_point, osm_route_to_route_points_list, osm_stop_area_to_stop_point_list,
};
pub use extract::{
    get_lines_from_osm, get_osm_tcobjects, get_routes_from_osm, get_stop_areas_from_osm,
    get_stop_points_from_osm, OsmTcResponse,
};
pub use model::{Coord, Id, Line, Route, RoutePoint, Shape, StopArea, StopPoint, StopPointType};
pub use osm::{id_string, Node, OsmId, OsmObj, OsmStore, Ref, Relation, Tag, Tags, Way};
pub use resolve::{
    get_one_coord_from_rel, get_one_coord_from_way, osm_line_to_shape, osm_route_to_shape,
    osm_way_to_vec,
};
pub use table::{
    entity_ref, lines_routes_rows, osm_header, osm_tag_list, route_points_rows,
    stop_areas_stop_point_rows, stop_point_type_name, tag_columns,
};
