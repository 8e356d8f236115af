//! The four extraction operations over a store, and the combined run.

use vstd::prelude::*;

use crate::categorize::{categorized, serving, update_stop_points_type};
use crate::classify::{
    is_line, is_route, is_stop_area, is_stop_point, spec_is_line, spec_is_route, spec_is_stop_area,
    spec_is_stop_point,
};
use crate::entity::{
    line_from, osm_obj_to_line, osm_obj_to_route, osm_obj_to_stop_area, osm_obj_to_stop_point,
    route_from, stop_area_from, stop_point_fields, stop_point_from,
};
use crate::model::{Line, Route, StopArea, StopPoint, StopPointType};
use crate::osm::{OsmObj, OsmStore};

verus! {

/// The objects of `s` that satisfy `p`, in order.
pub open spec fn select(s: Seq<OsmObj>, p: spec_fn(OsmObj) -> bool) -> Seq<OsmObj>
    decreases s.len(),
{
    if s.len() == 0 {
        Seq::empty()
    } else {
        let rest = select(s.drop_last(), p);
        if p(s.last()) {
            rest.push(s.last())
        } else {
            rest
        }
    }
}

/// The objects of `s` that are stop points, in order.
pub open spec fn stop_point_objs(s: Seq<OsmObj>) -> Seq<OsmObj> {
    select(s, |o: OsmObj| spec_is_stop_point(o))
}

/// The objects of `s` that are stop areas, in order.
pub open spec fn stop_area_objs(s: Seq<OsmObj>) -> Seq<OsmObj> {
    select(s, |o: OsmObj| spec_is_stop_area(o))
}

/// The objects of `s` that are routes, in order.
pub open spec fn route_objs(s: Seq<OsmObj>) -> Seq<OsmObj> {
    select(s, |o: OsmObj| spec_is_route(o))
}

/// The objects of `s` that are lines, in order.
pub open spec fn line_objs(s: Seq<OsmObj>) -> Seq<OsmObj> {
    select(s, |o: OsmObj| spec_is_line(o))
}

/// `sps` are the stop points of `s`: one per stop point object, in store order.
pub open spec fn stop_points_of(sps: Seq<StopPoint>, s: Seq<OsmObj>) -> bool {
    let sel = stop_point_objs(s);
    sps.len() == sel.len() && forall|k: int|
        0 <= k < sel.len() ==> stop_point_from(#[trigger] sps[k], s, sel[k])
}

/// `sas` are the stop areas of `s`: one per stop area relation, in store order.
pub open spec fn stop_areas_of(sas: Seq<StopArea>, s: Seq<OsmObj>) -> bool {
    let sel = stop_area_objs(s);
    sas.len() == sel.len() && forall|k: int|
        0 <= k < sel.len() ==> stop_area_from(#[trigger] sas[k], s, sel[k]->Relation_0)
}

/// `rs` are the routes of `s`: one per route relation, in store order.
pub open spec fn routes_of(rs: Seq<Route>, s: Seq<OsmObj>) -> bool {
    let sel = route_objs(s);
    rs.len() == sel.len() && forall|k: int|
        0 <= k < sel.len() ==> route_from(#[trigger] rs[k], s, sel[k]->Relation_0)
}

/// `ls` are the lines of `s`: one per line relation, in store order.
pub open spec fn lines_of(ls: Seq<Line>, s: Seq<OsmObj>) -> bool {
    let sel = line_objs(s);
    ls.len() == sel.len() && forall|k: int|
        0 <= k < sel.len() ==> line_from(#[trigger] ls[k], s, sel[k]->Relation_0)
}

/// The stop points of the store, in id order, their types not yet decided.
pub fn get_stop_points_from_osm(store: &OsmStore) -> (r: Vec<StopPoint>)
    ensures
        stop_points_of(r@, store@),
{
    let objs = store.objects();
    let ghost s = store@;
    let mut r: Vec<StopPoint> = Vec::new();
    let mut i: usize = 0;
    while i < objs.len()
        invariant
            i <= objs@.len(),
            objs@ == s,
            s == store@,
            r@.len() == stop_point_objs(s.take(i as int)).len(),
            forall|k: int|
                0 <= k < r@.len() ==> stop_point_from(#[trigger] r@[k], s, stop_point_objs(s.take(i as int))[k]),
        decreases objs@.len() - i,
    {
        assert(s.take(i + 1).drop_last() =~= s.take(i as int));
        assert(s.take(i + 1).last() == s[i as int]);
        let obj = &objs[i];
        if is_stop_point(obj) {
            let sp = osm_obj_to_stop_point(store, obj);
            r.push(sp);
        }
        i = i + 1;
    }
    assert(s.take(i as int) =~= s);
    r
}

/// The stop areas of the store, in id order.
pub fn get_stop_areas_from_osm(store: &OsmStore) -> (r: Vec<StopArea>)
    ensures
        stop_areas_of(r@, store@),
{
    let objs = store.objects();
    let ghost s = store@;
    let mut r: Vec<StopArea> = Vec::new();
    let mut i: usize = 0;
    while i < objs.len()
        invariant
            i <= objs@.len(),
            objs@ == s,
            s == store@,
            r@.len() == stop_area_objs(s.take(i as int)).len(),
            forall|k: int|
                0 <= k < r@.len() ==> stop_area_from(#[trigger] r@[k], s, stop_area_objs(s.take(i as int))[k]->Relation_0),
        decreases objs@.len() - i,
    {
        assert(s.take(i + 1).drop_last() =~= s.take(i as int));
        assert(s.take(i + 1).last() == s[i as int]);
        let obj = &objs[i];
        if is_stop_area(obj) {
            let sa = osm_obj_to_stop_area(store, obj);
            r.push(sa);
        }
        i = i + 1;
    }
    assert(s.take(i as int) =~= s);
    r
}

/// The routes of the store, in id order.
pub fn get_routes_from_osm(store: &OsmStore) -> (r: Vec<Route>)
    ensures
        routes_of(r@, store@),
{
    let objs = store.objects();
    let ghost s = store@;
    let mut r: Vec<Route> = Vec::new();
    let mut i: usize = 0;
    while i < objs.len()
        invariant
            i <= objs@.len(),
            objs@ == s,
            s == store@,
            r@.len() == route_objs(s.take(i as int)).len(),
            forall|k: int|
                0 <= k < r@.len() ==> route_from(#[trigger] r@[k], s, route_objs(s.take(i as int))[k]->Relation_0),
        decreases objs@.len() - i,
    {
        assert(s.take(i + 1).drop_last() =~= s.take(i as int));
        assert(s.take(i + 1).last() == s[i as int]);
        let obj = &objs[i];
        if is_route(obj) {
            match osm_obj_to_route(store, obj) {
                Some(route) => r.push(route),
                None => {},
            }
        }
        i = i + 1;
    }
    assert(s.take(i as int) =~= s);
    r
}

/// The lines of the store, in id order.
pub fn get_lines_from_osm(store: &OsmStore) -> (r: Vec<Line>)
    ensures
        lines_of(r@, store@),
{
    let objs = store.objects();
    let ghost s = store@;
    let mut r: Vec<Line> = Vec::new();
    let mut i: usize = 0;
    while i < objs.len()
        invariant
            i <= objs@.len(),
            objs@ == s,
            s == store@,
            r@.len() == line_objs(s.take(i as int)).len(),
            forall|k: int|
                0 <= k < r@.len() ==> line_from(#[trigger] r@[k], s, line_objs(s.take(i as int))[k]->Relation_0),
        decreases objs@.len() - i,
    {
        assert(s.take(i + 1).drop_last() =~= s.take(i as int));
        assert(s.take(i + 1).last() == s[i as int]);
        let obj = &objs[i];
        if is_line(obj) {
            match osm_obj_to_line(store, obj) {
                Some(line) => r.push(line),
                None => {},
            }
        }
        i = i + 1;
    }
    assert(s.take(i as int) =~= s);
    r
}

/// Everything extracted from one store.
pub struct OsmTcResponse {
    pub stop_points: Vec<StopPoint>,
    pub stop_areas: Vec<StopArea>,
    pub routes: Option<Vec<Route>>,
    pub lines: Option<Vec<Line>>,
}

/// Extracts stop points and stop areas; unless `stops_only`, also routes and
/// lines, and then decides each stop point's type from the routes.
pub fn get_osm_tcobjects(store: &OsmStore, stops_only: bool) -> (r: OsmTcResponse)
    ensures
        stop_areas_of(r.stop_areas@, store@),
        stops_only ==> r.routes is None && r.lines is None && stop_points_of(r.stop_points@, store@),
        !stops_only ==> r.routes is Some && r.lines is Some && routes_of(r.routes->0@, store@)
            && lines_of(r.lines->0@, store@) && r.stop_points@.len() == stop_point_objs(store@).len()
            && forall|k: int|
            0 <= k < r.stop_points@.len() ==> stop_point_fields(
                #[trigger] r.stop_points@[k],
                store@,
                stop_point_objs(store@)[k],
            ) && r.stop_points@[k].stop_point_type == categorized(
                StopPointType::Unknown,
                r.stop_points@[k].all_osm_tags@,
                r.stop_points@[k].id@,
                serving(r.routes->0@, r.stop_points@[k].id@),
            ),
{
    let mut stop_points = get_stop_points_from_osm(store);
    let stop_areas = get_stop_areas_from_osm(store);
    if stops_only {
        OsmTcResponse { stop_points, stop_areas, routes: None, lines: None }
    } else {
        let routes = get_routes_from_osm(store);
        let lines = get_lines_from_osm(store);
        let ghost before = stop_points@;
        update_stop_points_type(&mut stop_points, routes.as_slice());
        assert forall|k: int| 0 <= k < stop_points@.len() implies stop_point_fields(
            #[trigger] stop_points@[k],
            store@,
            stop_point_objs(store@)[k],
        ) && stop_points@[k].stop_point_type == categorized(
            StopPointType::Unknown,
            stop_points@[k].all_osm_tags@,
            stop_points@[k].id@,
            serving(routes@, stop_points@[k].id@),
        ) by {
            assert(stop_point_from(before[k], store@, stop_point_objs(store@)[k]));
        }
        OsmTcResponse { stop_points, stop_areas, routes: Some(routes), lines: Some(lines) }
    }
}

} // verus!
