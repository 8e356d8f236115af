//! Resolution of member references into coordinates and shapes.

use vstd::prelude::*;

use crate::classify::{is_stop, stop_role};
use crate::model::{sentinel, shape_view, Coord};
use crate::osm::{find, Node, OsmId, OsmObj, OsmStore, Ref, Relation, Way};

verus! {

/// The coordinate of a node.
pub open spec fn node_coord(n: Node) -> Coord {
    Coord { decimicro_lat: n.decimicro_lat, decimicro_lon: n.decimicro_lon }
}

/// The node with number `id` in `s`, if any.
pub open spec fn node_in(s: Seq<OsmObj>, id: i64) -> Option<Node> {
    match find(s, OsmId::Node(id)) {
        Some(OsmObj::Node(n)) => Some(n),
        _ => None,
    }
}

/// The coordinate of the first of `nodes`, from index `i` on, found in `s`;
/// the sentinel where none is.
pub open spec fn first_node_coord(s: Seq<OsmObj>, nodes: Seq<i64>, i: int) -> Coord
    decreases nodes.len() - i,
{
    if i < 0 || i >= nodes.len() {
        sentinel()
    } else {
        match node_in(s, nodes[i]) {
            Some(n) => node_coord(n),
            None => first_node_coord(s, nodes, i + 1),
        }
    }
}

/// The coordinate that a member gives, if it is a node or a way found in `s`.
pub open spec fn member_coord(s: Seq<OsmObj>, r: Ref) -> Option<Coord> {
    match find(s, r.member) {
        Some(OsmObj::Node(n)) => Some(node_coord(n)),
        Some(OsmObj::Way(w)) => Some(first_node_coord(s, w.nodes@, 0)),
        _ => None,
    }
}

/// The coordinate of the first member, from index `i` on, that gives one;
/// the sentinel where none does.
pub open spec fn first_member_coord(s: Seq<OsmObj>, refs: Seq<Ref>, i: int) -> Coord
    decreases refs.len() - i,
{
    if i < 0 || i >= refs.len() {
        sentinel()
    } else {
        match member_coord(s, refs[i]) {
            Some(c) => c,
            None => first_member_coord(s, refs, i + 1),
        }
    }
}

/// The coordinates of the nodes of `nodes` found in `s`, in order.
pub open spec fn polyline(s: Seq<OsmObj>, nodes: Seq<i64>) -> Seq<Coord>
    decreases nodes.len(),
{
    if nodes.len() == 0 {
        Seq::empty()
    } else {
        let rest = polyline(s, nodes.drop_last());
        match node_in(s, nodes.last()) {
            Some(n) => rest.push(node_coord(n)),
            None => rest,
        }
    }
}

/// The polyline that a member adds to a route's shape: a way that is not a
/// stop, with at least two coordinates found.
pub open spec fn member_polyline(s: Seq<OsmObj>, r: Ref) -> Option<Seq<Coord>> {
    if stop_role(r.role@) {
        None
    } else {
        match find(s, r.member) {
            Some(OsmObj::Way(w)) => if polyline(s, w.nodes@).len() >= 2 {
                Some(polyline(s, w.nodes@))
            } else {
                None
            },
            _ => None,
        }
    }
}

/// The shape of a route with members `refs`.
pub open spec fn route_shape(s: Seq<OsmObj>, refs: Seq<Ref>) -> Seq<Seq<Coord>>
    decreases refs.len(),
{
    if refs.len() == 0 {
        Seq::empty()
    } else {
        let rest = route_shape(s, refs.drop_last());
        match member_polyline(s, refs.last()) {
            Some(p) => rest.push(p),
            None => rest,
        }
    }
}

/// The shape of line `line_id` with members `refs`: the shapes of its
/// relation members, one after the other. A member naming the line itself is
/// no route of it and adds nothing.
pub open spec fn line_shape(s: Seq<OsmObj>, line_id: i64, refs: Seq<Ref>) -> Seq<Seq<Coord>>
    decreases refs.len(),
{
    if refs.len() == 0 {
        Seq::empty()
    } else {
        let rest = line_shape(s, line_id, refs.drop_last());
        if refs.last().member == OsmId::Relation(line_id) {
            rest
        } else {
            match find(s, refs.last().member) {
                Some(OsmObj::Relation(rel)) => rest + route_shape(s, rel.refs@),
                _ => rest,
            }
        }
    }
}

/// The node with number `id`, if the store holds one.
fn get_node<'a>(store: &'a OsmStore, id: i64) -> (r: Option<&'a Node>)
    ensures
        match r {
            Some(n) => node_in(store@, id) == Some(*n),
            None => node_in(store@, id) is None,
        },
{
    match store.get(&OsmId::Node(id)) {
        Some(OsmObj::Node(n)) => Some(n),
        _ => None,
    }
}

/// The coordinate of the first node of `way` that the store holds, or the sentinel.
pub fn get_one_coord_from_way(store: &OsmStore, way: &Way) -> (r: Coord)
    ensures
        r == first_node_coord(store@, way.nodes@, 0),
{
    let mut i: usize = 0;
    while i < way.nodes.len()
        invariant
            i <= way.nodes@.len(),
            first_node_coord(store@, way.nodes@, 0) == first_node_coord(store@, way.nodes@, i as int),
        decreases way.nodes@.len() - i,
    {
        match get_node(store, way.nodes[i]) {
            Some(n) => {
                return Coord::new(n.decimicro_lat, n.decimicro_lon);
            },
            None => {},
        }
        i = i + 1;
    }
    Coord::new(0, 0)
}

/// The coordinate of the first member of `rel` that is a node, or a way, found
/// in the store (for a way, its first node found); the sentinel where none is.
pub fn get_one_coord_from_rel(store: &OsmStore, rel: &Relation) -> (r: Coord)
    ensures
        r == first_member_coord(store@, rel.refs@, 0),
{
    let mut i: usize = 0;
    while i < rel.refs.len()
        invariant
            i <= rel.refs@.len(),
            first_member_coord(store@, rel.refs@, 0) == first_member_coord(store@, rel.refs@, i as int),
        decreases rel.refs@.len() - i,
    {
        match store.get(&rel.refs[i].member) {
            Some(OsmObj::Node(n)) => {
                return Coord::new(n.decimicro_lat, n.decimicro_lon);
            },
            Some(OsmObj::Way(w)) => {
                return get_one_coord_from_way(store, w);
            },
            _ => {},
        }
        i = i + 1;
    }
    Coord::new(0, 0)
}

/// The coordinates of the nodes of `osm_way` that the store holds, in order.
pub fn osm_way_to_vec(store: &OsmStore, osm_way: &Way) -> (r: Vec<Coord>)
    ensures
        r@ == polyline(store@, osm_way.nodes@),
{
    let mut r: Vec<Coord> = Vec::new();
    let mut i: usize = 0;
    while i < osm_way.nodes.len()
        invariant
            i <= osm_way.nodes@.len(),
            r@ == polyline(store@, osm_way.nodes@.take(i as int)),
        decreases osm_way.nodes@.len() - i,
    {
        assert(osm_way.nodes@.take(i + 1).drop_last() == osm_way.nodes@.take(i as int));
        match get_node(store, osm_way.nodes[i]) {
            Some(n) => r.push(Coord::new(n.decimicro_lat, n.decimicro_lon)),
            None => {},
        }
        i = i + 1;
    }
    assert(osm_way.nodes@.take(i as int) == osm_way.nodes@);
    r
}

/// The shape of a route relation: one polyline per member way that is not a
/// stop, leaving out those with fewer than two coordinates found.
pub fn osm_route_to_shape(store: &OsmStore, osm_relation: &Relation) -> (r: Vec<Vec<Coord>>)
    ensures
        shape_view(r@) == route_shape(store@, osm_relation.refs@),
{
    let refs = &osm_relation.refs;
    let mut r: Vec<Vec<Coord>> = Vec::new();
    let mut i: usize = 0;
    while i < refs.len()
        invariant
            i <= refs@.len(),
            shape_view(r@) == route_shape(store@, refs@.take(i as int)),
        decreases refs@.len() - i,
    {
        assert(refs@.take(i + 1).drop_last() == refs@.take(i as int));
        let refe = &refs[i];
        if !is_stop(refe) {
            match store.get(&refe.member) {
                Some(OsmObj::Way(w)) => {
                    let p = osm_way_to_vec(store, w);
                    if p.len() >= 2 {
                        let ghost pv = p@;
                        r.push(p);
                        assert(shape_view(r@) =~= route_shape(store@, refs@.take(i as int)).push(pv));
                    }
                },
                _ => {},
            }
        }
        i = i + 1;
    }
    assert(refs@.take(i as int) == refs@);
    r
}

/// The shape of line `line_id`: the shapes of the relations among
/// `osm_relations_ref`, in member order, leaving out the line itself.
pub fn osm_line_to_shape(store: &OsmStore, line_id: i64, osm_relations_ref: &Vec<Ref>) -> (r: Vec<
    Vec<Coord>,
>)
    ensures
        shape_view(r@) == line_shape(store@, line_id, osm_relations_ref@),
{
    let refs = osm_relations_ref;
    let mut r: Vec<Vec<Coord>> = Vec::new();
    let mut i: usize = 0;
    while i < refs.len()
        invariant
            i <= refs@.len(),
            shape_view(r@) == line_shape(store@, line_id, refs@.take(i as int)),
        decreases refs@.len() - i,
    {
        assert(refs@.take(i + 1).drop_last() == refs@.take(i as int));
        if refs[i].member != OsmId::Relation(line_id) {
            match store.get(&refs[i].member) {
                Some(OsmObj::Relation(rel)) => {
                    let mut part = osm_route_to_shape(store, rel);
                    let ghost before = r@;
                    let ghost pv = part@;
                    r.append(&mut part);
                    assert(shape_view(r@) =~= shape_view(before) + shape_view(pv));
                },
                _ => {},
            }
        }
        i = i + 1;
    }
    assert(refs@.take(i as int) == refs@);
    r
}

} // verus!
