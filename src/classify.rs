//! Predicates that decide which map objects stand for transit concepts.

use vstd::prelude::*;

use crate::osm::{has_tag, OsmObj, Ref};
use crate::text::str_eq;

verus! {

/// The value of `k` in `t`, if any.
pub open spec fn tag_value(t: Map<Seq<char>, Seq<char>>, k: Seq<char>) -> Option<Seq<char>> {
    if t.contains_key(k) {
        Some(t[k])
    } else {
        None
    }
}

/// Whether tags mark a stop point.
pub open spec fn stop_point_tags(t: Map<Seq<char>, Seq<char>>) -> bool {
    has_tag(t, "public_transport"@, "platform"@) || has_tag(t, "public_transport"@, "stop_position"@)
        || has_tag(t, "highway"@, "bus_stop"@) || has_tag(t, "railway"@, "tram_stop"@)
}

/// A node or way with stop point tags.
pub open spec fn spec_is_stop_point(obj: OsmObj) -> bool {
    (obj is Node || obj is Way) && stop_point_tags(obj.spec_tags())
}

/// A relation tagged `public_transport=stop_area`.
pub open spec fn spec_is_stop_area(obj: OsmObj) -> bool {
    obj is Relation && has_tag(obj.spec_tags(), "public_transport"@, "stop_area"@)
}

/// Transport modes that are public transport.
pub open spec fn listed_mode(v: Seq<char>) -> bool {
    v == "trolleybus"@ || v == "bus"@ || v == "train"@ || v == "subway"@ || v == "light_rail"@
        || v == "monorail"@ || v == "tram"@ || v == "railway"@ || v == "ferry"@ || v == "coach"@
        || v == "aerialway"@ || v == "funicular"@ || v == "rail"@ || v == "share_taxi"@
}

/// Transport modes that are not public transport.
pub open spec fn denied_mode(v: Seq<char>) -> bool {
    v == "bicycle"@ || v == "canoe"@ || v == "detour"@ || v == "fitness_trail"@ || v == "foot"@
        || v == "hiking"@ || v == "horse"@ || v == "inline_skates"@ || v == "mtb"@
        || v == "nordic_walking"@ || v == "pipeline"@ || v == "piste"@ || v == "power"@
        || v == "proposed"@ || v == "road"@ || v == "running"@ || v == "ski"@ || v == "historic"@
        || v == "path"@ || v == "junction"@ || v == "tracks"@
}

/// How a declared transport mode is judged.
#[derive(Clone, Copy, Debug, PartialEq, Eq, Structural)]
pub enum RouteTypeClass {
    /// A known public transport mode: kept.
    Listed,
    /// A mode on neither list: kept, and worth a warning asking to extend the lists.
    Unlisted,
    /// A known non-transit mode: left out.
    Denied,
    /// No mode declared: left out, and worth a warning.
    Missing,
}

pub open spec fn spec_classify_route_type(v: Option<Seq<char>>) -> RouteTypeClass {
    match v {
        None => RouteTypeClass::Missing,
        Some(m) => if denied_mode(m) {
            RouteTypeClass::Denied
        } else if listed_mode(m) {
            RouteTypeClass::Listed
        } else {
            RouteTypeClass::Unlisted
        },
    }
}

/// A declared mode passes unless it is absent or denied.
pub open spec fn spec_is_pt_route_type(v: Option<Seq<char>>) -> bool {
    match v {
        None => false,
        Some(m) => !denied_mode(m),
    }
}

/// A relation of `type=route` whose `route` mode passes.
pub open spec fn spec_is_route(obj: OsmObj) -> bool {
    obj is Relation && has_tag(obj.spec_tags(), "type"@, "route"@) && spec_is_pt_route_type(
        tag_value(obj.spec_tags(), "route"@),
    )
}

/// A relation of `type=route_master` whose `route_master` mode passes.
pub open spec fn spec_is_line(obj: OsmObj) -> bool {
    obj is Relation && has_tag(obj.spec_tags(), "type"@, "route_master"@) && spec_is_pt_route_type(
        tag_value(obj.spec_tags(), "route_master"@),
    )
}

/// Member roles that designate a stop of a route.
pub open spec fn stop_role(r: Seq<char>) -> bool {
    r == "stop"@ || r == "platform"@ || r == "stop_exit_only"@ || r == "stop_entry_only"@
        || r == "platform_exit_only"@ || r == "platform_entry_only"@ || r == "fixme"@
}

/// Whether `obj` is a node or way tagged as a platform, stop position, bus stop or tram stop.
pub fn is_stop_point(obj: &OsmObj) -> (r: bool)
    ensures
        r == spec_is_stop_point(*obj),
{
    let t = obj.tags();
    let kind_ok = match obj {
        OsmObj::Node(_) => true,
        OsmObj::Way(_) => true,
        OsmObj::Relation(_) => false,
    };
    kind_ok && (t.contains("public_transport", "platform") || t.contains(
        "public_transport",
        "stop_position",
    ) || t.contains("highway", "bus_stop") || t.contains("railway", "tram_stop"))
}

/// Whether `obj` is a relation tagged `public_transport=stop_area`.
pub fn is_stop_area(obj: &OsmObj) -> (r: bool)
    ensures
        r == spec_is_stop_area(*obj),
{
    match obj {
        OsmObj::Relation(rel) => rel.tags.contains("public_transport", "stop_area"),
        _ => false,
    }
}

fn is_listed_mode(v: &str) -> (r: bool)
    ensures
        r == listed_mode(v@),
{
    str_eq(v, "trolleybus") || str_eq(v, "bus") || str_eq(v, "train") || str_eq(v, "subway")
        || str_eq(v, "light_rail") || str_eq(v, "monorail") || str_eq(v, "tram") || str_eq(
        v,
        "railway",
    ) || str_eq(v, "ferry") || str_eq(v, "coach") || str_eq(v, "aerialway") || str_eq(
        v,
        "funicular",
    ) || str_eq(v, "rail") || str_eq(v, "share_taxi")
}

fn is_denied_mode(v: &str) -> (r: bool)
    ensures
        r == denied_mode(v@),
{
    str_eq(v, "bicycle") || str_eq(v, "canoe") || str_eq(v, "detour") || str_eq(v, "fitness_trail")
        || str_eq(v, "foot") || str_eq(v, "hiking") || str_eq(v, "horse") || str_eq(
        v,
        "inline_skates",
    ) || str_eq(v, "mtb") || str_eq(v, "nordic_walking") || str_eq(v, "pipeline") || str_eq(
        v,
        "piste",
    ) || str_eq(v, "power") || str_eq(v, "proposed") || str_eq(v, "road") || str_eq(v, "running")
        || str_eq(v, "ski") || str_eq(v, "historic") || str_eq(v, "path") || str_eq(v, "junction")
        || str_eq(v, "tracks")
}

/// Judges a declared transport mode against the allow and deny lists.
pub fn classify_route_type(route_type: Option<&String>) -> (r: RouteTypeClass)
    ensures
        r == spec_classify_route_type(
            match route_type {
                Some(s) => Some(s@),
                None => None,
            },
        ),
{
    match route_type {
        None => RouteTypeClass::Missing,
        Some(m) => {
            if is_denied_mode(m.as_str()) {
                RouteTypeClass::Denied
            } else if is_listed_mode(m.as_str()) {
                RouteTypeClass::Listed
            } else {
                RouteTypeClass::Unlisted
            }
        },
    }
}

/// Whether a declared transport mode counts as public transport: an absent
/// mode does not, a denied one does not, any other does.
pub fn is_pt_route_type(route_type: Option<&String>) -> (r: bool)
    ensures
        r == spec_is_pt_route_type(
            match route_type {
                Some(s) => Some(s@),
                None => None,
            },
        ),
{
    match classify_route_type(route_type) {
        RouteTypeClass::Listed => true,
        RouteTypeClass::Unlisted => true,
        RouteTypeClass::Denied => false,
        RouteTypeClass::Missing => false,
    }
}

/// Whether `obj` is a relation of `type=route` with a public transport mode.
pub fn is_route(obj: &OsmObj) -> (r: bool)
    ensures
        r == spec_is_route(*obj),
{
    match obj {
        OsmObj::Relation(rel) => rel.tags.contains("type", "route") && is_pt_route_type(
            rel.tags.get("route"),
        ),
        _ => false,
    }
}

/// Whether `obj` is a relation of `type=route_master` with a public transport mode.
pub fn is_line(obj: &OsmObj) -> (r: bool)
    ensures
        r == spec_is_line(*obj),
{
    match obj {
        OsmObj::Relation(rel) => rel.tags.contains("type", "route_master") && is_pt_route_type(
            rel.tags.get("route_master"),
        ),
        _ => false,
    }
}

/// Whether a member's role designates a stop.
pub fn is_stop(refe: &Ref) -> (r: bool)
    ensures
        r == stop_role(refe.role@),
{
    let r = refe.role.as_str();
    str_eq(r, "stop") || str_eq(r, "platform") || str_eq(r, "stop_exit_only") || str_eq(
        r,
        "stop_entry_only",
    ) || str_eq(r, "platform_exit_only") || str_eq(r, "platform_entry_only") || str_eq(r, "fixme")
}

} // verus!
