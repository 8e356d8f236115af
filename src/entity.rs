//! Construction of the transit entities from classified map objects.

use vstd::prelude::*;

use crate::classify::{is_stop, stop_role};
use crate::model::{
    points_view, shape_view, texts_view, Coord, Line, Route, RoutePoint, StopArea, StopPoint,
    StopPointType,
};
use crate::osm::{
    find, id_string, id_text, lemma_id_text_injective, tag_or_empty, OsmId, OsmObj, OsmStore, Ref,
    Relation,
};
use crate::resolve::{
    first_member_coord, first_node_coord, get_one_coord_from_rel, get_one_coord_from_way,
    line_shape, node_coord, osm_line_to_shape, osm_route_to_shape, route_shape,
};
use crate::text::str_eq;

verus! {

/// Whether member `m` of route `route_id` is one of its stops: its role
/// designates a stop, and it is not the route itself.
pub open spec fn stop_member(route_id: i64, m: Ref) -> bool {
    stop_role(m.role@) && m.member != OsmId::Relation(route_id)
}

/// The stops of route `route_id`: each of its stop members, as
/// (role, member id text), in member order.
pub open spec fn route_points(route_id: i64, refs: Seq<Ref>) -> Seq<(Seq<char>, Seq<char>)>
    decreases refs.len(),
{
    if refs.len() == 0 {
        Seq::empty()
    } else {
        let rest = route_points(route_id, refs.drop_last());
        if stop_member(route_id, refs.last()) {
            rest.push((refs.last().role@, id_text(refs.last().member)))
        } else {
            rest
        }
    }
}

/// The ids of the members with role exactly `platform`, in member order.
pub open spec fn platform_ids(refs: Seq<Ref>) -> Seq<Seq<char>>
    decreases refs.len(),
{
    if refs.len() == 0 {
        Seq::empty()
    } else {
        let rest = platform_ids(refs.drop_last());
        if refs.last().role@ == "platform"@ {
            rest.push(id_text(refs.last().member))
        } else {
            rest
        }
    }
}

/// The ids of the members of line `line_id` that are relations other than the
/// line itself, in member order.
pub open spec fn relation_ids(line_id: i64, refs: Seq<Ref>) -> Seq<Seq<char>>
    decreases refs.len(),
{
    if refs.len() == 0 {
        Seq::empty()
    } else {
        let rest = relation_ids(line_id, refs.drop_last());
        if refs.last().member is Relation && refs.last().member != OsmId::Relation(line_id) {
            rest.push(id_text(refs.last().member))
        } else {
            rest
        }
    }
}

/// The coordinate of a stop point's object: a node's own, a way's first node
/// found, a relation's first member coordinate.
pub open spec fn obj_coord(s: Seq<OsmObj>, obj: OsmObj) -> Coord {
    match obj {
        OsmObj::Node(n) => node_coord(n),
        OsmObj::Way(w) => first_node_coord(s, w.nodes@, 0),
        OsmObj::Relation(rel) => first_member_coord(s, rel.refs@, 0),
    }
}

/// `sp` holds what `obj` gives a stop point, whatever its type.
pub open spec fn stop_point_fields(sp: StopPoint, s: Seq<OsmObj>, obj: OsmObj) -> bool {
    &&& sp.id@ == id_text(obj.spec_id())
    &&& sp.coord == obj_coord(s, obj)
    &&& sp.name@ == tag_or_empty(obj.spec_tags(), "name"@)
    &&& sp.all_osm_tags@ == obj.spec_tags()
}

/// `sp` is the stop point that `obj` gives, its type not yet decided.
pub open spec fn stop_point_from(sp: StopPoint, s: Seq<OsmObj>, obj: OsmObj) -> bool {
    stop_point_fields(sp, s, obj) && sp.stop_point_type == StopPointType::Unknown
}

/// `sa` is the stop area that `rel` gives.
pub open spec fn stop_area_from(sa: StopArea, s: Seq<OsmObj>, rel: Relation) -> bool {
    &&& sa.id@ == id_text(OsmId::Relation(rel.id))
    &&& sa.coord == first_member_coord(s, rel.refs@, 0)
    &&& sa.name@ == tag_or_empty(rel.tags@, "name"@)
    &&& sa.all_osm_tags@ == rel.tags@
    &&& texts_view(sa.stop_point_ids@) == platform_ids(rel.refs@)
}

/// `r` is the route that `rel` gives.
pub open spec fn route_from(r: Route, s: Seq<OsmObj>, rel: Relation) -> bool {
    let t = rel.tags@;
    &&& r.id@ == id_text(OsmId::Relation(rel.id))
    &&& r.name@ == tag_or_empty(t, "name"@)
    &&& r.code@ == tag_or_empty(t, "ref"@)
    &&& r.destination@ == tag_or_empty(t, "to"@)
    &&& r.origin@ == tag_or_empty(t, "from"@)
    &&& r.mode@ == tag_or_empty(t, "route"@)
    &&& r.colour@ == tag_or_empty(t, "colour"@)
    &&& r.operator@ == tag_or_empty(t, "operator"@)
    &&& r.network@ == tag_or_empty(t, "network"@)
    &&& r.frequency@ == tag_or_empty(t, "interval"@)
    &&& r.opening_hours@ == tag_or_empty(t, "opening_hours"@)
    &&& r.frequency_exceptions@ == tag_or_empty(t, "interval:conditional"@)
    &&& r.travel_time@ == tag_or_empty(t, "duration"@)
    &&& r.all_osm_tags@ == t
    &&& points_view(r.ordered_route_points@) == route_points(rel.id, rel.refs@)
    &&& shape_view(r.shape@) == route_shape(s, rel.refs@)
}

/// `l` is the line that `rel` gives.
pub open spec fn line_from(l: Line, s: Seq<OsmObj>, rel: Relation) -> bool {
    let t = rel.tags@;
    &&& l.id@ == id_text(OsmId::Relation(rel.id))
    &&& l.name@ == tag_or_empty(t, "name"@)
    &&& l.code@ == tag_or_empty(t, "ref"@)
    &&& l.colour@ == tag_or_empty(t, "colour"@)
    &&& l.mode@ == tag_or_empty(t, "route_master"@)
    &&& l.operator@ == tag_or_empty(t, "operator"@)
    &&& l.network@ == tag_or_empty(t, "network"@)
    &&& l.frequency@ == tag_or_empty(t, "interval"@)
    &&& l.opening_hours@ == tag_or_empty(t, "opening_hours"@)
    &&& l.frequency_exceptions@ == tag_or_empty(t, "interval:conditional"@)
    &&& l.all_osm_tags@ == t
    &&& shape_view(l.shape@) == line_shape(s, rel.id, rel.refs@)
    &&& texts_view(l.routes_id@) == relation_ids(rel.id, rel.refs@)
}

/// The stops of a route relation, in member order, leaving out the route itself.
pub fn osm_route_to_route_points_list(osm_relation: &Relation) -> (r: Vec<RoutePoint>)
    ensures
        points_view(r@) == route_points(osm_relation.id, osm_relation.refs@),
{
    let refs = &osm_relation.refs;
    let mut r: Vec<RoutePoint> = Vec::new();
    let mut i: usize = 0;
    while i < refs.len()
        invariant
            i <= refs@.len(),
            points_view(r@) == route_points(osm_relation.id, refs@.take(i as int)),
        decreases refs@.len() - i,
    {
        assert(refs@.take(i + 1).drop_last() == refs@.take(i as int));
        let refe = &refs[i];
        if is_stop(refe) && refe.member != OsmId::Relation(osm_relation.id) {
            let p = RoutePoint { role: refe.role.clone(), stop_point_id: id_string(&refe.member) };
            let ghost before = r@;
            r.push(p);
            assert(points_view(r@) =~= points_view(before).push((p.role@, p.stop_point_id@)));
        }
        i = i + 1;
    }
    assert(refs@.take(i as int) == refs@);
    r
}

/// The ids of the relations that a line references, in member order, leaving
/// out the line itself.
pub fn osm_line_to_routes_list(route_master: &Relation) -> (r: Vec<String>)
    ensures
        texts_view(r@) == relation_ids(route_master.id, route_master.refs@),
{
    let refs = &route_master.refs;
    let mut r: Vec<String> = Vec::new();
    let mut i: usize = 0;
    while i < refs.len()
        invariant
            i <= refs@.len(),
            texts_view(r@) == relation_ids(route_master.id, refs@.take(i as int)),
        decreases refs@.len() - i,
    {
        assert(refs@.take(i + 1).drop_last() == refs@.take(i as int));
        match refs[i].member {
            OsmId::Relation(n) if n != route_master.id => {
                let s = id_string(&refs[i].member);
                let ghost before = r@;
                r.push(s);
                assert(texts_view(r@) =~= texts_view(before).push(s@));
            },
            _ => {},
        }
        i = i + 1;
    }
    assert(refs@.take(i as int) == refs@);
    r
}

/// The ids of the members of a stop area whose role is `platform`.
pub fn osm_stop_area_to_stop_point_list(osm_relation: &Relation) -> (r: Vec<String>)
    ensures
        texts_view(r@) == platform_ids(osm_relation.refs@),
{
    let refs = &osm_relation.refs;
    let mut r: Vec<String> = Vec::new();
    let mut i: usize = 0;
    while i < refs.len()
        invariant
            i <= refs@.len(),
            texts_view(r@) == platform_ids(refs@.take(i as int)),
        decreases refs@.len() - i,
    {
        assert(refs@.take(i + 1).drop_last() == refs@.take(i as int));
        if str_eq(refs[i].role.as_str(), "platform") {
            let s = id_string(&refs[i].member);
            let ghost before = r@;
            r.push(s);
            assert(texts_view(r@) =~= texts_view(before).push(s@));
        }
        i = i + 1;
    }
    assert(refs@.take(i as int) == refs@);
    r
}

/// The route that a relation gives; `None` for any other object.
pub fn osm_obj_to_route(store: &OsmStore, obj: &OsmObj) -> (r: Option<Route>)
    ensures
        match *obj {
            OsmObj::Relation(rel) => r is Some && route_from(r->0, store@, rel),
            _ => r is None,
        },
{
    match obj {
        OsmObj::Relation(rel) => {
            let t = &rel.tags;
            Some(
                Route {
                    id: id_string(&OsmId::Relation(rel.id)),
                    name: t.get_or_empty("name"),
                    code: t.get_or_empty("ref"),
                    destination: t.get_or_empty("to"),
                    origin: t.get_or_empty("from"),
                    mode: t.get_or_empty("route"),
                    colour: t.get_or_empty("colour"),
                    operator: t.get_or_empty("operator"),
                    network: t.get_or_empty("network"),
                    frequency: t.get_or_empty("interval"),
                    opening_hours: t.get_or_empty("opening_hours"),
                    frequency_exceptions: t.get_or_empty("interval:conditional"),
                    travel_time: t.get_or_empty("duration"),
                    all_osm_tags: t.duplicate(),
                    ordered_route_points: osm_route_to_route_points_list(rel),
                    shape: osm_route_to_shape(store, rel),
                },
            )
        },
        _ => None,
    }
}

/// The line that a relation gives; `None` for any other object.
pub fn osm_obj_to_line(store: &OsmStore, obj: &OsmObj) -> (r: Option<Line>)
    ensures
        match *obj {
            OsmObj::Relation(rel) => r is Some && line_from(r->0, store@, rel),
            _ => r is None,
        },
{
    match obj {
        OsmObj::Relation(rel) => {
            let t = &rel.tags;
            Some(
                Line {
                    id: id_string(&OsmId::Relation(rel.id)),
                    name: t.get_or_empty("name"),
                    code: t.get_or_empty("ref"),
                    colour: t.get_or_empty("colour"),
                    mode: t.get_or_empty("route_master"),
                    operator: t.get_or_empty("operator"),
                    network: t.get_or_empty("network"),
                    frequency: t.get_or_empty("interval"),
                    opening_hours: t.get_or_empty("opening_hours"),
                    frequency_exceptions: t.get_or_empty("interval:conditional"),
                    all_osm_tags: t.duplicate(),
                    shape: osm_line_to_shape(store, rel.id, &rel.refs),
                    routes_id: osm_line_to_routes_list(rel),
                },
            )
        },
        _ => None,
    }
}

/// The stop point that an object gives, its type not yet decided.
pub fn osm_obj_to_stop_point(store: &OsmStore, obj: &OsmObj) -> (r: StopPoint)
    ensures
        stop_point_from(r, store@, *obj),
{
    let coord = match obj {
        OsmObj::Relation(rel) => get_one_coord_from_rel(store, rel),
        OsmObj::Way(way) => get_one_coord_from_way(store, way),
        OsmObj::Node(node) => Coord::new(node.decimicro_lat, node.decimicro_lon),
    };
    let t = obj.tags();
    StopPoint {
        id: id_string(&obj.id()),
        stop_point_type: StopPointType::Unknown,
        coord,
        name: t.get_or_empty("name"),
        all_osm_tags: t.duplicate(),
    }
}

/// The stop area that a relation gives.
pub fn osm_obj_to_stop_area(store: &OsmStore, obj: &OsmObj) -> (r: StopArea)
    requires
        obj is Relation,
    ensures
        stop_area_from(r, store@, obj->Relation_0),
{
    let rel = obj.relation().unwrap();
    StopArea {
        id: id_string(&OsmId::Relation(rel.id)),
        coord: get_one_coord_from_rel(store, rel),
        name: rel.tags.get_or_empty("name"),
        all_osm_tags: rel.tags.duplicate(),
        stop_point_ids: osm_stop_area_to_stop_point_list(rel),
    }
}

/// The stop members of route `route_id`, in member order.
pub open spec fn stop_members(route_id: i64, refs: Seq<Ref>) -> Seq<Ref> {
    refs.filter(|m: Ref| stop_member(route_id, m))
}

/// The route point that a stop member gives: its role and its id text.
pub open spec fn member_point(m: Ref) -> (Seq<char>, Seq<char>) {
    (m.role@, id_text(m.member))
}

/// The route points of the stop members, in member order.
pub open spec fn stop_member_points(route_id: i64, refs: Seq<Ref>) -> Seq<(Seq<char>, Seq<char>)> {
    stop_members(route_id, refs).map_values(|m: Ref| member_point(m))
}

proof fn lemma_route_points_filter(route_id: i64, refs: Seq<Ref>)
    ensures
        route_points(route_id, refs) == stop_member_points(route_id, refs),
    decreases refs.len(),
{
    reveal(Seq::filter);
    if refs.len() > 0 {
        lemma_route_points_filter(route_id, refs.drop_last());
        let before = stop_members(route_id, refs.drop_last());
        if stop_member(route_id, refs.last()) {
            assert(stop_members(route_id, refs) == before.push(refs.last()));
            assert(stop_member_points(route_id, refs) =~= stop_member_points(route_id, refs.drop_last()).push(
                member_point(refs.last()),
            ));
        } else {
            assert(stop_members(route_id, refs) == before);
        }
    } else {
        assert(stop_member_points(route_id, refs) =~= Seq::<(Seq<char>, Seq<char>)>::empty());
    }
}

/// A route's points are exactly the members of its relation whose role is one
/// of the stop roles, the route itself excepted, in member order: none is left
/// out, none is added.
pub proof fn lemma_route_points_are_stop_members(route: Route, s: Seq<OsmObj>, rel: Relation)
    requires
        route_from(route, s, rel),
    ensures
        points_view(route.ordered_route_points@) == stop_member_points(rel.id, rel.refs@),
{
    lemma_route_points_filter(rel.id, rel.refs@);
}

/// Each stop point id of a route names back the member it was made from: the
/// id text of an object is the `k`-th point's id exactly when that object is
/// the `k`-th stop member.
pub proof fn lemma_route_point_ids_round_trip(
    route: Route,
    s: Seq<OsmObj>,
    rel: Relation,
    k: int,
    x: OsmId,
)
    requires
        route_from(route, s, rel),
        0 <= k < route.ordered_route_points@.len(),
    ensures
        k < stop_members(rel.id, rel.refs@).len(),
        route.ordered_route_points@[k].stop_point_id@ == id_text(x) <==> x == stop_members(
            rel.id,
            rel.refs@,
        )[k].member,
{
    lemma_route_points_filter(rel.id, rel.refs@);
    let pts = points_view(route.ordered_route_points@);
    assert(pts.len() == route.ordered_route_points@.len());
    assert(stop_member_points(rel.id, rel.refs@).len() == stop_members(rel.id, rel.refs@).len());
    assert(pts[k] == (route.ordered_route_points@[k].role@, route.ordered_route_points@[k].stop_point_id@));
    assert(pts[k] == member_point(stop_members(rel.id, rel.refs@)[k]));
    if route.ordered_route_points@[k].stop_point_id@ == id_text(x) {
        lemma_id_text_injective(x, stop_members(rel.id, rel.refs@)[k].member);
    }
}

/// The route shape that a member of line `line_id` contributes: that of the
/// relation it names, if the store holds it and it is not the line itself;
/// nothing otherwise.
pub open spec fn member_route_shape(s: Seq<OsmObj>, line_id: i64, m: Ref) -> Seq<Seq<Coord>> {
    if m.member == OsmId::Relation(line_id) {
        Seq::empty()
    } else {
        match find(s, m.member) {
            Some(OsmObj::Relation(rel)) => route_shape(s, rel.refs@),
            _ => Seq::empty(),
        }
    }
}

proof fn lemma_line_shape_flatten(s: Seq<OsmObj>, line_id: i64, refs: Seq<Ref>)
    ensures
        line_shape(s, line_id, refs) == refs.map_values(|m: Ref| member_route_shape(s, line_id, m)).flatten_alt(),
    decreases refs.len(),
{
    let f = |m: Ref| member_route_shape(s, line_id, m);
    if refs.len() > 0 {
        lemma_line_shape_flatten(s, line_id, refs.drop_last());
        assert(refs.map_values(f).drop_last() =~= refs.drop_last().map_values(f));
        assert(refs.map_values(f).last() == f(refs.last()));
        let rest = line_shape(s, line_id, refs.drop_last());
        assert(rest + Seq::<Seq<Coord>>::empty() =~= rest);
    } else {
        assert(refs.map_values(f) =~= Seq::<Seq<Seq<Coord>>>::empty());
    }
}

/// A line's shape is the concatenation, in member order, of the route shapes
/// of the relations it references (itself excepted), computed from the store's members rather
/// than from any route entity.
pub proof fn lemma_line_shape_concatenates_routes(line: Line, s: Seq<OsmObj>, rel: Relation)
    requires
        line_from(line, s, rel),
    ensures
        shape_view(line.shape@) == rel.refs@.map_values(|m: Ref| member_route_shape(s, rel.id, m)).flatten(),
{
    lemma_line_shape_flatten(s, rel.id, rel.refs@);
    rel.refs@.map_values(|m: Ref| member_route_shape(s, rel.id, m)).lemma_flatten_and_flatten_alt_are_equivalent();
}

proof fn lemma_relation_ids_exclude(line_id: i64, refs: Seq<Ref>)
    ensures
        forall|i: int|
            0 <= i < relation_ids(line_id, refs).len() ==> #[trigger] relation_ids(line_id, refs)[i]
                != id_text(OsmId::Relation(line_id)),
    decreases refs.len(),
{
    if refs.len() > 0 {
        lemma_relation_ids_exclude(line_id, refs.drop_last());
        let m = refs.last().member;
        let rest = relation_ids(line_id, refs.drop_last());
        if m is Relation && m != OsmId::Relation(line_id) {
            if id_text(m) == id_text(OsmId::Relation(line_id)) {
                lemma_id_text_injective(m, OsmId::Relation(line_id));
            }
            assert forall|i: int| 0 <= i < rest.len() + 1 implies #[trigger] rest.push(id_text(m))[i]
                != id_text(OsmId::Relation(line_id)) by {
                if i < rest.len() {
                    assert(rest.push(id_text(m))[i] == rest[i]);
                }
            }
        }
    }
}

proof fn lemma_route_points_exclude(route_id: i64, refs: Seq<Ref>)
    ensures
        forall|i: int|
            0 <= i < route_points(route_id, refs).len() ==> (#[trigger] route_points(route_id, refs)[i]).1
                != id_text(OsmId::Relation(route_id)),
    decreases refs.len(),
{
    if refs.len() > 0 {
        lemma_route_points_exclude(route_id, refs.drop_last());
        let m = refs.last().member;
        let rest = route_points(route_id, refs.drop_last());
        if stop_member(route_id, refs.last()) {
            if id_text(m) == id_text(OsmId::Relation(route_id)) {
                lemma_id_text_injective(m, OsmId::Relation(route_id));
            }
            let p = (refs.last().role@, id_text(m));
            assert forall|i: int| 0 <= i < rest.len() + 1 implies (#[trigger] rest.push(p)[i]).1
                != id_text(OsmId::Relation(route_id)) by {
                if i < rest.len() {
                    assert(rest.push(p)[i] == rest[i]);
                }
            }
        }
    }
}

/// Neither a line nor a route references itself: no route id of a line is the
/// line's own id, and no stop point id of a route is the route's own id.
pub proof fn lemma_no_self_reference(line: Line, route: Route, s: Seq<OsmObj>, line_rel: Relation, route_rel: Relation)
    requires
        line_from(line, s, line_rel),
        route_from(route, s, route_rel),
    ensures
        forall|i: int| 0 <= i < line.routes_id@.len() ==> (#[trigger] line.routes_id@[i])@ != line.id@,
        forall|i: int|
            0 <= i < route.ordered_route_points@.len() ==> (#[trigger] route.ordered_route_points@[i]).stop_point_id@
                != route.id@,
{
    lemma_relation_ids_exclude(line_rel.id, line_rel.refs@);
    lemma_route_points_exclude(route_rel.id, route_rel.refs@);
    assert forall|i: int| 0 <= i < line.routes_id@.len() implies (#[trigger] line.routes_id@[i])@ != line.id@ by {
        assert(texts_view(line.routes_id@)[i] == line.routes_id@[i]@);
    }
    assert forall|i: int| 0 <= i < route.ordered_route_points@.len() implies (#[trigger] route.ordered_route_points@[i]).stop_point_id@
        != route.id@ by {
        assert(points_view(route.ordered_route_points@)[i].1 == route.ordered_route_points@[i].stop_point_id@);
    }
}

} // verus!
