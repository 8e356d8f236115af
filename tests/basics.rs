use osm_transit_extractor::{
    classify_route_type, entity_ref, id_string, is_line, is_pt_route_type, is_route, is_stop,
    is_stop_area, is_stop_point, osm_header, osm_tag_list, stop_point_type_name, tag_columns,
    Node, OsmId, OsmObj, OsmStore, Ref, Relation, RouteTypeClass, StopPointType, Tags, Way,
};

fn tags(pairs: &[(&str, &str)]) -> Tags {
    let mut t = Tags::new();
    for (k, v) in pairs {
        t.insert(k.to_string(), v.to_string());
    }
    t
}

fn node(id: i64, pairs: &[(&str, &str)]) -> OsmObj {
    OsmObj::Node(Node { id, tags: tags(pairs), decimicro_lat: 10, decimicro_lon: 20 })
}

fn way(id: i64, pairs: &[(&str, &str)]) -> OsmObj {
    OsmObj::Way(Way { id, tags: tags(pairs), nodes: vec![] })
}

fn rel(id: i64, pairs: &[(&str, &str)]) -> OsmObj {
    OsmObj::Relation(Relation { id, tags: tags(pairs), refs: vec![] })
}

#[test]
fn id_text_of_each_kind() {
    assert_eq!(id_string(&OsmId::Node(260743996)), "node:260743996");
    assert_eq!(id_string(&OsmId::Way(0)), "way:0");
    assert_eq!(id_string(&OsmId::Relation(1257168)), "relation:1257168");
    assert_eq!(id_string(&OsmId::Way(-42)), "way:-42");
    assert_eq!(id_string(&OsmId::Node(i64::MIN)), "node:-9223372036854775808");
    assert_eq!(id_string(&OsmId::Node(i64::MAX)), "node:9223372036854775807");
}

#[test]
fn tags_insert_replaces_and_looks_up() {
    let mut t = Tags::new();
    assert_eq!(t.get("name"), None);
    t.insert("name".to_string(), "Gare".to_string());
    t.insert("ref".to_string(), "57".to_string());
    t.insert("name".to_string(), "Mairie".to_string());
    assert_eq!(t.get("name").map(|s| s.as_str()), Some("Mairie"));
    assert!(t.contains("ref", "57"));
    assert!(!t.contains("ref", "58"));
    assert!(!t.contains("colour", ""));
    assert_eq!(t.get_or_empty("colour"), "");
    assert_eq!(t.get_or_empty("ref"), "57");
    assert_eq!(t.keys().len(), 2);
    let copy = t.duplicate();
    assert_eq!(copy.get_or_empty("name"), "Mairie");
    assert_eq!(copy.get_or_empty("ref"), "57");
}

#[test]
fn store_keeps_id_order_and_replaces() {
    let mut store = OsmStore::new();
    store.insert(rel(5, &[]));
    store.insert(node(9, &[]));
    store.insert(way(1, &[]));
    store.insert(node(-3, &[]));
    store.insert(node(9, &[("name", "again")]));
    assert_eq!(store.len(), 4);
    let ids: Vec<OsmId> = store.objects().iter().map(|o| o.id()).collect();
    assert_eq!(ids, vec![OsmId::Node(-3), OsmId::Node(9), OsmId::Way(1), OsmId::Relation(5)]);
    match store.get(&OsmId::Node(9)) {
        Some(o) => assert!(o.tags().contains("name", "again")),
        None => panic!("node 9 missing"),
    }
    assert!(store.get(&OsmId::Way(9)).is_none());
    assert!(store.get(&OsmId::Relation(1)).is_none());
}

#[test]
fn stop_point_predicate() {
    assert!(is_stop_point(&node(1, &[("public_transport", "platform")])));
    assert!(is_stop_point(&node(1, &[("public_transport", "stop_position")])));
    assert!(is_stop_point(&way(1, &[("highway", "bus_stop")])));
    assert!(is_stop_point(&node(1, &[("railway", "tram_stop")])));
    assert!(!is_stop_point(&node(1, &[("railway", "station")])));
    assert!(!is_stop_point(&node(1, &[])));
    assert!(!is_stop_point(&rel(1, &[("public_transport", "platform")])));
}

#[test]
fn stop_area_predicate() {
    assert!(is_stop_area(&rel(1, &[("public_transport", "stop_area")])));
    assert!(!is_stop_area(&node(1, &[("public_transport", "stop_area")])));
    assert!(!is_stop_area(&rel(1, &[("public_transport", "platform")])));
}

#[test]
fn route_type_lists() {
    let s = |v: &str| v.to_string();
    assert!(!is_pt_route_type(None));
    assert!(is_pt_route_type(Some(&s("bus"))));
    assert!(is_pt_route_type(Some(&s("share_taxi"))));
    assert!(!is_pt_route_type(Some(&s("hiking"))));
    assert!(!is_pt_route_type(Some(&s("tracks"))));
    assert!(is_pt_route_type(Some(&s("zeppelin"))));
    assert_eq!(classify_route_type(None), RouteTypeClass::Missing);
    assert_eq!(classify_route_type(Some(&s("tram"))), RouteTypeClass::Listed);
    assert_eq!(classify_route_type(Some(&s("foot"))), RouteTypeClass::Denied);
    assert_eq!(classify_route_type(Some(&s("zeppelin"))), RouteTypeClass::Unlisted);
    assert_eq!(classify_route_type(Some(&s(""))), RouteTypeClass::Unlisted);
}

#[test]
fn route_and_line_predicates() {
    assert!(is_route(&rel(1, &[("type", "route"), ("route", "bus")])));
    assert!(is_route(&rel(1, &[("type", "route"), ("route", "zeppelin")])));
    assert!(!is_route(&rel(1, &[("type", "route"), ("route", "hiking")])));
    assert!(!is_route(&rel(1, &[("type", "route")])));
    assert!(!is_route(&rel(1, &[("type", "route_master"), ("route", "bus")])));
    assert!(!is_route(&way(1, &[("type", "route"), ("route", "bus")])));
    assert!(is_line(&rel(1, &[("type", "route_master"), ("route_master", "bus")])));
    assert!(!is_line(&rel(1, &[("type", "route_master"), ("route", "bus")])));
    assert!(!is_line(&rel(1, &[("type", "route_master"), ("route_master", "bicycle")])));
}

#[test]
fn stop_roles() {
    let r = |role: &str| Ref { member: OsmId::Node(1), role: role.to_string() };
    for role in [
        "stop",
        "platform",
        "stop_exit_only",
        "stop_entry_only",
        "platform_exit_only",
        "platform_entry_only",
        "fixme",
    ] {
        assert!(is_stop(&r(role)), "{}", role);
    }
    assert!(!is_stop(&r("")));
    assert!(!is_stop(&r("forward")));
    assert!(!is_stop(&r("Stop")));
}

#[test]
fn tag_key_list_is_sorted_and_unique() {
    let a = tags(&[("name", "A"), ("highway", "bus_stop")]);
    let b = tags(&[("public_transport", "platform"), ("name", "B")]);
    let c = tags(&[]);
    let d = tags(&[("bench", "yes"), ("Zone", "1")]);
    let keys = osm_tag_list(&[&a, &b, &c, &d]);
    assert_eq!(keys, vec!["Zone", "bench", "highway", "name", "public_transport"]);
    assert!(osm_tag_list(&[]).is_empty());
    assert_eq!(
        osm_header(&keys),
        vec!["osm:Zone", "osm:bench", "osm:highway", "osm:name", "osm:public_transport"]
    );
    assert_eq!(tag_columns(&a, &keys), vec!["", "", "bus_stop", "A", ""]);
}

#[test]
fn output_texts() {
    assert_eq!(entity_ref("StopPoint", "node:1"), "StopPoint:node:1");
    assert_eq!(entity_ref("Route", ""), "Route:");
    assert_eq!(stop_point_type_name(StopPointType::Platform), "Platform");
    assert_eq!(stop_point_type_name(StopPointType::StopPosition), "StopPosition");
    assert_eq!(stop_point_type_name(StopPointType::Unknown), "Unknown");
}
