use osm_transit_extractor::{
    categorize_stop_point, get_lines_from_osm, get_one_coord_from_rel, get_one_coord_from_way,
    get_osm_tcobjects, get_routes_from_osm, get_routes_from_stop, get_stop_areas_from_osm,
    get_stop_points_from_osm, lines_routes_rows, osm_line_to_shape, osm_obj_to_route,
    osm_obj_to_stop_area, osm_route_to_shape, osm_way_to_vec, route_points_rows,
    stop_areas_stop_point_rows, update_stop_points_type, Coord, Node, OsmId, OsmObj, OsmStore,
    Ref, Relation, Route, RoutePoint, Shape, StopPoint, StopPointType, Tags, Way,
};
use osm_transit_extractor::OsmId::{Node as N, Relation as R, Way as W};

fn tags(pairs: &[(&str, &str)]) -> Tags {
    let mut t = Tags::new();
    for (k, v) in pairs {
        t.insert(k.to_string(), v.to_string());
    }
    t
}

fn c(i: i32) -> Coord {
    Coord::new(488000000 + i * 100000, 23000000 + i * 100000)
}

fn node(id: i64, pairs: &[(&str, &str)]) -> OsmObj {
    let coord = c(id as i32);
    OsmObj::Node(Node {
        id,
        tags: tags(pairs),
        decimicro_lat: coord.decimicro_lat,
        decimicro_lon: coord.decimicro_lon,
    })
}

fn way(id: i64, nodes: &[i64], pairs: &[(&str, &str)]) -> OsmObj {
    OsmObj::Way(Way { id, tags: tags(pairs), nodes: nodes.to_vec() })
}

fn rel(id: i64, members: &[(OsmId, &str)], pairs: &[(&str, &str)]) -> OsmObj {
    let refs = members.iter().map(|(m, r)| Ref { member: *m, role: r.to_string() }).collect();
    OsmObj::Relation(Relation { id, tags: tags(pairs), refs })
}

fn relation_of(store: &OsmStore, id: i64) -> &Relation {
    match store.get(&OsmId::Relation(id)) {
        Some(OsmObj::Relation(r)) => r,
        _ => panic!("relation {} missing", id),
    }
}

fn way_of(store: &OsmStore, id: i64) -> &Way {
    match store.get(&OsmId::Way(id)) {
        Some(OsmObj::Way(w)) => w,
        _ => panic!("way {} missing", id),
    }
}

/// A small map: seven nodes, five ways, routes 100, 101, 104 (and two
/// relations that are not routes), line 200, stop areas 300 and 301.
fn sample_store() -> OsmStore {
    let objs = vec![
        rel(
            300,
            &[(N(1), "platform"), (N(3), "stop"), (W(11), "platform"), (W(12), "platform_entry_only")],
            &[("public_transport", "stop_area"), ("name", "Pole")],
        ),
        rel(301, &[(R(300), "platform"), (W(12), "")], &[("public_transport", "stop_area")]),
        node(1, &[("public_transport", "platform"), ("name", "Gare"), ("highway", "bus_stop")]),
        node(2, &[("highway", "bus_stop"), ("name", "Mairie")]),
        node(3, &[("public_transport", "stop_position")]),
        node(4, &[]),
        node(5, &[]),
        node(6, &[]),
        node(7, &[("railway", "tram_stop")]),
        way(11, &[99, 5], &[("public_transport", "platform")]),
        way(12, &[98], &[("highway", "bus_stop")]),
        way(20, &[4, 5, 6], &[]),
        way(21, &[6, 97], &[]),
        way(22, &[5, 4], &[]),
        rel(
            100,
            &[
                (N(1), "platform"),
                (N(2), "stop"),
                (W(20), ""),
                (W(21), ""),
                (N(3), "stop_entry_only"),
                (W(11), "platform_exit_only"),
                (N(4), "forward"),
                (W(22), ""),
                (N(7), "fixme"),
            ],
            &[
                ("type", "route"),
                ("route", "bus"),
                ("public_transport:version", "2"),
                ("ref", "57"),
                ("from", "Arcueil - Laplace"),
                ("to", "Gare"),
                ("operator", "RATP"),
                ("network", "RATP"),
                ("name", "Bus 57"),
            ],
        ),
        rel(
            101,
            &[(N(2), "platform"), (N(7), "stop"), (W(22), "")],
            &[("type", "route"), ("route", "bus"), ("public_transport:version", "2")],
        ),
        rel(102, &[(N(1), "platform")], &[("type", "route"), ("route", "hiking")]),
        rel(103, &[(N(1), "platform")], &[("type", "route")]),
        rel(104, &[(N(3), "platform"), (R(100), "")], &[("type", "route"), ("route", "zeppelin")]),
        rel(
            200,
            &[(R(100), ""), (N(1), ""), (R(101), ""), (R(999), "")],
            &[
                ("type", "route_master"),
                ("route_master", "bus"),
                ("colour", "#9C983A"),
                ("operator", "RATP"),
                ("network", "RATP"),
                ("ref", "57"),
            ],
        ),
    ];
    let mut store = OsmStore::new();
    for o in objs {
        store.insert(o);
    }
    store
}

fn ids_of(sps: &[StopPoint]) -> Vec<String> {
    sps.iter().map(|s| s.id.clone()).collect()
}

fn point_pairs(points: &[RoutePoint]) -> Vec<(String, String)> {
    points.iter().map(|p| (p.role.clone(), p.stop_point_id.clone())).collect()
}

fn sp(id: &str, pairs: &[(&str, &str)], t: StopPointType) -> StopPoint {
    StopPoint {
        id: id.to_string(),
        stop_point_type: t,
        coord: Coord::new(0, 0),
        name: String::new(),
        all_osm_tags: tags(pairs),
    }
}

fn route(id: &str, ptv2: bool, points: &[(&str, &str)]) -> Route {
    let t = if ptv2 {
        tags(&[("public_transport:version", "2")])
    } else {
        tags(&[("public_transport:version", "1")])
    };
    Route {
        id: id.to_string(),
        name: String::new(),
        code: String::new(),
        destination: String::new(),
        origin: String::new(),
        colour: String::new(),
        operator: String::new(),
        network: String::new(),
        mode: String::new(),
        frequency: String::new(),
        opening_hours: String::new(),
        frequency_exceptions: String::new(),
        travel_time: String::new(),
        all_osm_tags: t,
        ordered_route_points: points
            .iter()
            .map(|(role, id)| RoutePoint { role: role.to_string(), stop_point_id: id.to_string() })
            .collect(),
        shape: vec![],
    }
}

#[test]
fn way_coordinate_is_first_resolved_node() {
    let store = sample_store();
    assert_eq!(get_one_coord_from_way(&store, way_of(&store, 11)), c(5));
    assert_eq!(get_one_coord_from_way(&store, way_of(&store, 20)), c(4));
    assert_eq!(get_one_coord_from_way(&store, way_of(&store, 12)), Coord::new(0, 0));
}

#[test]
fn relation_coordinate_skips_relations_and_stops_at_first_way() {
    let store = sample_store();
    assert_eq!(get_one_coord_from_rel(&store, relation_of(&store, 300)), c(1));
    // relation 301: its relation member gives nothing; its way has no node found.
    assert_eq!(get_one_coord_from_rel(&store, relation_of(&store, 301)), Coord::new(0, 0));
    let empty = Relation { id: 1, tags: Tags::new(), refs: vec![] };
    assert_eq!(get_one_coord_from_rel(&store, &empty), Coord::new(0, 0));
}

#[test]
fn polyline_skips_missing_nodes() {
    let store = sample_store();
    assert_eq!(osm_way_to_vec(&store, way_of(&store, 20)), vec![c(4), c(5), c(6)]);
    assert_eq!(osm_way_to_vec(&store, way_of(&store, 21)), vec![c(6)]);
    assert_eq!(osm_way_to_vec(&store, way_of(&store, 12)), Vec::<Coord>::new());
}

#[test]
fn route_shape_drops_stops_and_short_ways() {
    let store = sample_store();
    let shape = osm_route_to_shape(&store, relation_of(&store, 100));
    assert_eq!(shape, vec![vec![c(4), c(5), c(6)], vec![c(5), c(4)]]);
    assert!(osm_route_to_shape(&store, relation_of(&store, 104)).is_empty());
}

#[test]
fn line_shape_concatenates_route_shapes() {
    let store = sample_store();
    let line = relation_of(&store, 200);
    let shape = osm_line_to_shape(&store, 200, &line.refs);
    let mut expected = osm_route_to_shape(&store, relation_of(&store, 100));
    expected.extend(osm_route_to_shape(&store, relation_of(&store, 101)));
    assert_eq!(shape, expected);
    assert_eq!(shape.len(), 3);
}

#[test]
fn route_entity_fields() {
    let store = sample_store();
    let obj = store.get(&OsmId::Relation(100)).unwrap();
    let r = osm_obj_to_route(&store, obj).unwrap();
    assert_eq!(r.id, "relation:100");
    assert_eq!(r.name, "Bus 57");
    assert_eq!(r.code, "57");
    assert_eq!(r.origin, "Arcueil - Laplace");
    assert_eq!(r.destination, "Gare");
    assert_eq!(r.mode, "bus");
    assert_eq!(r.operator, "RATP");
    assert_eq!(r.network, "RATP");
    assert_eq!(r.colour, "");
    assert_eq!(r.frequency, "");
    assert_eq!(r.travel_time, "");
    assert!(r.all_osm_tags.contains("public_transport:version", "2"));
    assert_eq!(r.get_shape().len(), 2);
    assert!(osm_obj_to_route(&store, store.get(&OsmId::Node(1)).unwrap()).is_none());
}

#[test]
fn route_points_keep_member_order() {
    let store = sample_store();
    let r = osm_obj_to_route(&store, store.get(&OsmId::Relation(100)).unwrap()).unwrap();
    let expected: Vec<(String, String)> = [
        ("platform", "node:1"),
        ("stop", "node:2"),
        ("stop_entry_only", "node:3"),
        ("platform_exit_only", "way:11"),
        ("fixme", "node:7"),
    ]
    .iter()
    .map(|(a, b)| (a.to_string(), b.to_string()))
    .collect();
    assert_eq!(point_pairs(&r.ordered_route_points), expected);
}

#[test]
fn stop_area_takes_only_platform_members() {
    let store = sample_store();
    let sa = osm_obj_to_stop_area(&store, store.get(&OsmId::Relation(300)).unwrap());
    assert_eq!(sa.id, "relation:300");
    assert_eq!(sa.name, "Pole");
    assert_eq!(sa.coord, c(1));
    assert_eq!(sa.stop_point_ids, vec!["node:1", "way:11"]);
}

#[test]
fn extracts_stop_points_in_id_order() {
    let store = sample_store();
    let sps = get_stop_points_from_osm(&store);
    assert_eq!(ids_of(&sps), vec!["node:1", "node:2", "node:3", "node:7", "way:11", "way:12"]);
    assert!(sps.iter().all(|s| s.stop_point_type == StopPointType::Unknown));
    assert_eq!(sps[0].name, "Gare");
    assert_eq!(sps[0].coord, c(1));
    assert_eq!(sps[4].coord, c(5));
    assert_eq!(sps[5].coord, Coord::new(0, 0));
    assert_eq!(sps[3].name, "");
}

#[test]
fn extracts_stop_areas_routes_and_lines() {
    let store = sample_store();
    let sas = get_stop_areas_from_osm(&store);
    assert_eq!(sas.len(), 2);
    assert_eq!(sas[1].stop_point_ids, vec!["relation:300"]);
    let routes = get_routes_from_osm(&store);
    let ids: Vec<&str> = routes.iter().map(|r| r.id.as_str()).collect();
    assert_eq!(ids, vec!["relation:100", "relation:101", "relation:104"]);
    assert_eq!(routes[0].ordered_route_points.len(), 5);
    assert_eq!(routes[0].ordered_route_points[0].stop_point_id, "node:1");
    let lines = get_lines_from_osm(&store);
    assert_eq!(lines.len(), 1);
    assert_eq!(lines[0].id, "relation:200");
    assert_eq!(lines[0].colour, "#9C983A");
    assert_eq!(lines[0].mode, "bus");
    assert_eq!(lines[0].code, "57");
    assert_eq!(lines[0].routes_id, vec!["relation:100", "relation:101", "relation:999"]);
    assert_eq!(lines[0].shape.len(), 3);
}

#[test]
fn empty_store_extracts_nothing() {
    let store = OsmStore::new();
    assert!(get_stop_points_from_osm(&store).is_empty());
    assert!(get_stop_areas_from_osm(&store).is_empty());
    assert!(get_routes_from_osm(&store).is_empty());
    assert!(get_lines_from_osm(&store).is_empty());
}

#[test]
fn full_run_categorizes_stop_points() {
    let store = sample_store();
    let res = get_osm_tcobjects(&store, false);
    let types: Vec<StopPointType> = res.stop_points.iter().map(|s| s.stop_point_type).collect();
    assert_eq!(
        types,
        vec![
            StopPointType::Platform,
            StopPointType::Platform,
            StopPointType::StopPosition,
            StopPointType::StopPosition,
            StopPointType::Platform,
            StopPointType::Unknown,
        ]
    );
    assert_eq!(res.routes.as_ref().map(|r| r.len()), Some(3));
    assert_eq!(res.lines.as_ref().map(|l| l.len()), Some(1));
    assert_eq!(res.stop_areas.len(), 2);
}

#[test]
fn stops_only_run_leaves_types_unknown() {
    let store = sample_store();
    let res = get_osm_tcobjects(&store, true);
    assert!(res.routes.is_none());
    assert!(res.lines.is_none());
    assert_eq!(res.stop_points.len(), 6);
    assert!(res.stop_points.iter().all(|s| s.stop_point_type == StopPointType::Unknown));
}

#[test]
fn platform_tag_wins_over_routes() {
    let r = route("relation:5", true, &[("stop", "node:1")]);
    let mut s = sp("node:1", &[("public_transport", "platform")], StopPointType::Unknown);
    categorize_stop_point(&mut s, vec![&r]);
    assert_eq!(s.stop_point_type, StopPointType::Platform);
    let mut s = sp("node:1", &[("public_transport", "stop_position")], StopPointType::Platform);
    categorize_stop_point(&mut s, vec![&r]);
    assert_eq!(s.stop_point_type, StopPointType::StopPosition);
}

#[test]
fn greatest_route_id_decides_lexically() {
    // "relation:9" sorts after "relation:10".
    let r10 = route("relation:10", true, &[("platform", "node:1")]);
    let r9 = route("relation:9", true, &[("stop", "node:1")]);
    let mut s = sp("node:1", &[], StopPointType::Unknown);
    categorize_stop_point(&mut s, vec![&r10, &r9]);
    assert_eq!(s.stop_point_type, StopPointType::StopPosition);
    let mut s = sp("node:1", &[], StopPointType::Unknown);
    categorize_stop_point(&mut s, vec![&r9, &r10]);
    assert_eq!(s.stop_point_type, StopPointType::StopPosition);
}

#[test]
fn undeciding_routes_are_skipped_from_unknown() {
    let r3 = route("relation:3", true, &[("fixme", "node:1")]);
    let r2 = route("relation:2", true, &[("platform_entry_only", "node:1")]);
    let mut s = sp("node:1", &[], StopPointType::Unknown);
    categorize_stop_point(&mut s, vec![&r3, &r2]);
    assert_eq!(s.stop_point_type, StopPointType::Platform);
}

#[test]
fn routes_without_ptv2_are_ignored() {
    let r = route("relation:3", false, &[("platform", "node:1")]);
    let mut s = sp("node:1", &[], StopPointType::Unknown);
    categorize_stop_point(&mut s, vec![&r]);
    assert_eq!(s.stop_point_type, StopPointType::Unknown);
    let mut s = sp("node:1", &[], StopPointType::Unknown);
    categorize_stop_point(&mut s, vec![]);
    assert_eq!(s.stop_point_type, StopPointType::Unknown);
}

#[test]
fn decided_type_kept_when_first_route_is_silent() {
    let r3 = route("relation:3", true, &[("fixme", "node:1")]);
    let r2 = route("relation:2", true, &[("platform", "node:1")]);
    let mut s = sp("node:1", &[], StopPointType::StopPosition);
    categorize_stop_point(&mut s, vec![&r2, &r3]);
    assert_eq!(s.stop_point_type, StopPointType::StopPosition);
    let mut s = sp("node:1", &[], StopPointType::StopPosition);
    categorize_stop_point(&mut s, vec![&r2]);
    assert_eq!(s.stop_point_type, StopPointType::Platform);
}

#[test]
fn categorizing_twice_gives_the_same_types() {
    let store = sample_store();
    let mut sps = get_stop_points_from_osm(&store);
    let routes = get_routes_from_osm(&store);
    update_stop_points_type(&mut sps, &routes);
    let once: Vec<StopPointType> = sps.iter().map(|s| s.stop_point_type).collect();
    update_stop_points_type(&mut sps, &routes);
    let twice: Vec<StopPointType> = sps.iter().map(|s| s.stop_point_type).collect();
    assert_eq!(once, twice);
    assert_eq!(ids_of(&sps), vec!["node:1", "node:2", "node:3", "node:7", "way:11", "way:12"]);
}

#[test]
fn routes_serving_a_stop() {
    let store = sample_store();
    let routes = get_routes_from_osm(&store);
    let s = sp("node:7", &[], StopPointType::Unknown);
    let serving: Vec<&str> = get_routes_from_stop(&routes, &s).iter().map(|r| r.id.as_str()).collect();
    assert_eq!(serving, vec!["relation:100", "relation:101"]);
    let s = sp("way:12", &[], StopPointType::Unknown);
    assert!(get_routes_from_stop(&routes, &s).is_empty());
}

#[test]
fn route_point_ids_name_their_members() {
    let store = sample_store();
    let rel = relation_of(&store, 100);
    let r = osm_obj_to_route(&store, store.get(&OsmId::Relation(100)).unwrap()).unwrap();
    let stop_members: Vec<OsmId> = rel
        .refs
        .iter()
        .filter(|m| osm_transit_extractor::is_stop(m))
        .map(|m| m.member)
        .collect();
    assert_eq!(stop_members.len(), r.ordered_route_points.len());
    for (m, p) in stop_members.iter().zip(r.ordered_route_points.iter()) {
        assert_eq!(osm_transit_extractor::id_string(m), p.stop_point_id);
        assert!(store.get(m).is_some());
    }
}

#[test]
fn link_table_rows() {
    let store = sample_store();
    let sas = get_stop_areas_from_osm(&store);
    let rows = stop_areas_stop_point_rows(&sas);
    assert_eq!(
        rows,
        vec![
            vec!["StopArea:relation:300", "StopPoint:node:1"],
            vec!["StopArea:relation:300", "StopPoint:way:11"],
            vec!["StopArea:relation:301", "StopPoint:relation:300"],
        ]
    );
    let lines = get_lines_from_osm(&store);
    let rows = lines_routes_rows(&lines);
    assert_eq!(rows.len(), 3);
    assert_eq!(rows[2], vec!["Line:relation:200", "Route:relation:999"]);
    let routes = get_routes_from_osm(&store);
    let rows = route_points_rows(&routes);
    assert_eq!(rows.len(), 8);
    assert_eq!(rows[0], vec!["Route:relation:100", "platform", "StopPoint:node:1"]);
    assert_eq!(rows[7], vec!["Route:relation:104", "platform", "StopPoint:node:3"]);
}

#[test]
fn relations_never_reference_themselves() {
    let mut store = sample_store();
    store.insert(rel(
        400,
        &[(R(400), "platform"), (N(1), "stop"), (R(100), "")],
        &[("type", "route"), ("route", "bus")],
    ));
    store.insert(rel(
        500,
        &[(R(500), ""), (R(100), ""), (R(500), "")],
        &[("type", "route_master"), ("route_master", "bus")],
    ));
    let r = osm_obj_to_route(&store, store.get(&OsmId::Relation(400)).unwrap()).unwrap();
    assert_eq!(point_pairs(&r.ordered_route_points), vec![("stop".to_string(), "node:1".to_string())]);
    let line = relation_of(&store, 500);
    assert_eq!(osm_transit_extractor::osm_line_to_routes_list(line), vec!["relation:100"]);
    let shape = osm_line_to_shape(&store, 500, &line.refs);
    assert_eq!(shape, osm_route_to_shape(&store, relation_of(&store, 100)));
    let lines = get_lines_from_osm(&store);
    let l = lines.iter().find(|l| l.id == "relation:500").unwrap();
    assert_eq!(l.routes_id, vec!["relation:100"]);
    assert_eq!(l.shape.len(), 2);
}

#[test]
fn ptv2_counts_for_the_route_step() {
    let store = sample_store();
    let sps = get_stop_points_from_osm(&store);
    let routes = get_routes_from_osm(&store);
    let counts = osm_transit_extractor::ptv2_route_counts(&sps, &routes);
    // node:1 and node:3 and way:11 are decided by their own tags.
    assert_eq!(counts, vec![None, Some(2), None, Some(2), None, Some(0)]);
    let r = route("relation:1", false, &[("stop", "node:9")]);
    let s = sp("node:9", &[], StopPointType::Unknown);
    assert_eq!(osm_transit_extractor::ptv2_route_counts(&[s], &[r]), vec![Some(0)]);
}

#[test]
fn routes_without_ptv2_do_not_change_the_result() {
    let r9 = route("relation:9", true, &[("stop", "node:1")]);
    let r99 = route("relation:99", false, &[("platform", "node:1")]);
    let mut with = sp("node:1", &[], StopPointType::Platform);
    categorize_stop_point(&mut with, vec![&r99, &r9]);
    let mut without = sp("node:1", &[], StopPointType::Platform);
    categorize_stop_point(&mut without, vec![&r9]);
    assert_eq!(with.stop_point_type, StopPointType::StopPosition);
    assert_eq!(without.stop_point_type, StopPointType::StopPosition);
}
