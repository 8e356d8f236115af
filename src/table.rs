//! The text of the tabular output: entity references, tag columns and the
//! rows of the link tables.

use vstd::prelude::*;

use crate::model::{texts_view, Line, Route, StopArea, StopPointType};
use crate::osm::{tag_or_empty, Tags};
use crate::text::{lemma_lt_total, lemma_lt_transitive, seq_lt, str_eq, str_lt};

verus! {

/// Texts strictly increase along `s`.
pub open spec fn strictly_sorted(s: Seq<Seq<char>>) -> bool {
    forall|i: int, j: int| 0 <= i < j < s.len() ==> seq_lt(#[trigger] s[i], #[trigger] s[j])
}

/// Whether `s` holds the text `x`.
pub open spec fn has_text(s: Seq<String>, x: Seq<char>) -> bool {
    exists|j: int| 0 <= j < s.len() && (#[trigger] s[j])@ == x
}

/// Whether one of `ts` has the key `k`.
pub open spec fn key_in_some(ts: Seq<&Tags>, k: Seq<char>) -> bool {
    exists|i: int| 0 <= i < ts.len() && (#[trigger] ts[i])@.contains_key(k)
}

/// A reference to an entity in the output: `"<kind>:<id>"`.
pub open spec fn entity_text(kind: Seq<char>, id: Seq<char>) -> Seq<char> {
    kind + seq![':'] + id
}

/// Writes `"<kind>:<id>"`.
pub fn entity_ref(kind: &str, id: &str) -> (r: String)
    ensures
        r@ == entity_text(kind@, id@),
{
    let mut s = String::new();
    s.append(kind);
    proof {
        reveal_strlit(":");
    }
    s.append(":");
    s.append(id);
    assert(s@ =~= entity_text(kind@, id@));
    s
}

/// Adds `k` to the strictly sorted `keys`, unless it is there already.
fn insert_sorted(keys: &mut Vec<String>, k: &String)
    requires
        strictly_sorted(texts_view(old(keys)@)),
    ensures
        strictly_sorted(texts_view(final(keys)@)),
        forall|x: Seq<char>| has_text(final(keys)@, x) <==> (has_text(old(keys)@, x) || x == k@),
{
    let ghost old_s = keys@;
    let mut i: usize = 0;
    while i < keys.len() && str_lt(keys[i].as_str(), k.as_str())
        invariant
            i <= keys@.len(),
            keys@ == old_s,
            forall|j: int| 0 <= j < i ==> seq_lt((#[trigger] keys@[j])@, k@),
        decreases keys@.len() - i,
    {
        i = i + 1;
    }
    assert(texts_view(old_s).len() == old_s.len());
    if i < keys.len() && str_eq(keys[i].as_str(), k.as_str()) {
        return;
    }
    proof {
        if i < keys@.len() {
            lemma_lt_total(keys@[i as int]@, k@);
        }
    }
    keys.insert(i, k.clone());
    let ghost new_s = keys@;
    assert(new_s == old_s.insert(i as int, new_s[i as int]));
    assert(new_s[i as int]@ == k@);
    assert forall|a: int, b: int| 0 <= a < b < new_s.len() implies seq_lt(
        #[trigger] texts_view(new_s)[a],
        #[trigger] texts_view(new_s)[b],
    ) by {
        assert(texts_view(old_s).len() == old_s.len());
        if b < i {
            assert(seq_lt(texts_view(old_s)[a], texts_view(old_s)[b]));
        } else if b == i {
            assert(new_s[a] == old_s[a]);
        } else if a < i {
            assert(new_s[b] == old_s[b - 1]);
            assert(seq_lt(old_s[a]@, k@));
            if b - 1 > i {
                assert(seq_lt(texts_view(old_s)[i as int], texts_view(old_s)[b - 1]));
                lemma_lt_transitive(k@, old_s[i as int]@, old_s[b - 1]@);
            }
            lemma_lt_transitive(old_s[a]@, k@, old_s[b - 1]@);
        } else if a == i {
            assert(new_s[b] == old_s[b - 1]);
            if b - 1 > i {
                assert(seq_lt(texts_view(old_s)[i as int], texts_view(old_s)[b - 1]));
                lemma_lt_transitive(k@, old_s[i as int]@, old_s[b - 1]@);
            }
        } else {
            assert(seq_lt(texts_view(old_s)[a - 1], texts_view(old_s)[b - 1]));
        }
    }
    assert forall|x: Seq<char>| has_text(new_s, x) <==> (has_text(old_s, x) || x == k@) by {
        if has_text(new_s, x) {
            let j = choose|j: int| 0 <= j < new_s.len() && (#[trigger] new_s[j])@ == x;
            if j < i {
                assert(old_s[j] == new_s[j]);
            } else if j > i {
                assert(old_s[j - 1] == new_s[j]);
            }
        }
        if has_text(old_s, x) {
            let j = choose|j: int| 0 <= j < old_s.len() && (#[trigger] old_s[j])@ == x;
            if j < i {
                assert(new_s[j] == old_s[j]);
            } else {
                assert(new_s[j + 1] == old_s[j]);
            }
        }
    }
}

/// Every key of the given tag sets, once each, in lexicographic order.
pub fn osm_tag_list(tag_sets: &[&Tags]) -> (r: Vec<String>)
    ensures
        strictly_sorted(texts_view(r@)),
        forall|k: Seq<char>| has_text(r@, k) <==> key_in_some(tag_sets@, k),
{
    let mut r: Vec<String> = Vec::new();
    let mut i: usize = 0;
    while i < tag_sets.len()
        invariant
            i <= tag_sets@.len(),
            strictly_sorted(texts_view(r@)),
            forall|k: Seq<char>| has_text(r@, k) <==> key_in_some(tag_sets@.take(i as int), k),
        decreases tag_sets@.len() - i,
    {
        let keys = tag_sets[i].keys();
        let ghost ti = tag_sets@[i as int];
        let mut j: usize = 0;
        while j < keys.len()
            invariant
                i < tag_sets@.len(),
                ti == tag_sets@[i as int],
                j <= keys@.len(),
                strictly_sorted(texts_view(r@)),
                forall|k: Seq<char>| ti@.contains_key(k) <==> exists|m: int| 0 <= m < keys@.len() && keys@[m]@ == k,
                forall|k: Seq<char>|
                    has_text(r@, k) <==> (key_in_some(tag_sets@.take(i as int), k) || exists|m: int|
                        0 <= m < j && (#[trigger] keys@[m])@ == k),
            decreases keys@.len() - j,
        {
            insert_sorted(&mut r, &keys[j]);
            j = j + 1;
        }
        assert forall|k: Seq<char>| has_text(r@, k) <==> key_in_some(tag_sets@.take(i + 1), k) by {
            let t1 = tag_sets@.take(i + 1);
            if key_in_some(tag_sets@.take(i as int), k) {
                let m = choose|m: int| 0 <= m < i && (#[trigger] tag_sets@.take(i as int)[m])@.contains_key(k);
                assert(t1[m] == tag_sets@.take(i as int)[m]);
            }
            if ti@.contains_key(k) {
                assert(t1[i as int] == ti);
            }
            if key_in_some(t1, k) {
                let m = choose|m: int| 0 <= m < t1.len() && (#[trigger] t1[m])@.contains_key(k);
                if m < i {
                    assert(t1[m] == tag_sets@.take(i as int)[m]);
                }
            }
        }
        i = i + 1;
    }
    assert(tag_sets@.take(i as int) =~= tag_sets@);
    r
}

/// The header of the tag columns: each key prefixed with `osm:`.
pub fn osm_header(keys: &Vec<String>) -> (r: Vec<String>)
    ensures
        r@.len() == keys@.len(),
        forall|i: int| 0 <= i < keys@.len() ==> (#[trigger] r@[i])@ == "osm:"@ + keys@[i]@,
{
    let mut r: Vec<String> = Vec::new();
    let mut i: usize = 0;
    while i < keys.len()
        invariant
            i <= keys@.len(),
            r@.len() == i,
            forall|m: int| 0 <= m < i ==> (#[trigger] r@[m])@ == "osm:"@ + keys@[m]@,
        decreases keys@.len() - i,
    {
        let mut s = String::new();
        s.append("osm:");
        s.append(keys[i].as_str());
        assert(s@ =~= "osm:"@ + keys@[i as int]@);
        r.push(s);
        i = i + 1;
    }
    r
}

/// The value of each key in `tags`, or an empty string where it is absent.
pub fn tag_columns(tags: &Tags, keys: &Vec<String>) -> (r: Vec<String>)
    ensures
        r@.len() == keys@.len(),
        forall|i: int| 0 <= i < keys@.len() ==> (#[trigger] r@[i])@ == tag_or_empty(tags@, keys@[i]@),
{
    let mut r: Vec<String> = Vec::new();
    let mut i: usize = 0;
    while i < keys.len()
        invariant
            i <= keys@.len(),
            r@.len() == i,
            forall|m: int| 0 <= m < i ==> (#[trigger] r@[m])@ == tag_or_empty(tags@, keys@[m]@),
        decreases keys@.len() - i,
    {
        r.push(tags.get_or_empty(keys[i].as_str()));
        i = i + 1;
    }
    r
}

/// The name of a stop point type in the output.
pub fn stop_point_type_name(t: StopPointType) -> (r: String)
    ensures
        r@ == match t {
            StopPointType::StopPosition => "StopPosition"@,
            StopPointType::Platform => "Platform"@,
            StopPointType::Unknown => "Unknown"@,
        },
{
    let mut s = String::new();
    match t {
        StopPointType::StopPosition => s.append("StopPosition"),
        StopPointType::Platform => s.append("Platform"),
        StopPointType::Unknown => s.append("Unknown"),
    }
    assert(s@ =~= match t {
        StopPointType::StopPosition => "StopPosition"@,
        StopPointType::Platform => "Platform"@,
        StopPointType::Unknown => "Unknown"@,
    });
    s
}

/// Rows, as texts.
pub open spec fn rows_view(rows: Seq<Vec<String>>) -> Seq<Seq<Seq<char>>> {
    rows.map_values(|row: Vec<String>| texts_view(row@))
}

/// Rows linking one entity to each of a list of others.
pub open spec fn link_rows(
    kind: Seq<char>,
    id: Seq<char>,
    other_kind: Seq<char>,
    others: Seq<Seq<char>>,
) -> Seq<Seq<Seq<char>>> {
    others.map_values(|o: Seq<char>| seq![entity_text(kind, id), entity_text(other_kind, o)])
}

/// The rows of the stop area / stop point table, one per referenced stop point.
pub open spec fn stop_area_rows(sas: Seq<StopArea>) -> Seq<Seq<Seq<char>>>
    decreases sas.len(),
{
    if sas.len() == 0 {
        Seq::empty()
    } else {
        stop_area_rows(sas.drop_last()) + link_rows(
            "StopArea"@,
            sas.last().id@,
            "StopPoint"@,
            texts_view(sas.last().stop_point_ids@),
        )
    }
}

/// The rows of the line / route table, one per referenced route.
pub open spec fn line_route_rows(ls: Seq<Line>) -> Seq<Seq<Seq<char>>>
    decreases ls.len(),
{
    if ls.len() == 0 {
        Seq::empty()
    } else {
        line_route_rows(ls.drop_last()) + link_rows(
            "Line"@,
            ls.last().id@,
            "Route"@,
            texts_view(ls.last().routes_id@),
        )
    }
}

/// The rows of the route points of one route: route, role, stop point.
pub open spec fn points_rows(r: Route) -> Seq<Seq<Seq<char>>> {
    r.ordered_route_points@.map_values(
        |p: crate::model::RoutePoint|
            seq![entity_text("Route"@, r.id@), p.role@, entity_text("StopPoint"@, p.stop_point_id@)],
    )
}

/// The rows of the route point table, route after route.
pub open spec fn route_point_rows(rs: Seq<Route>) -> Seq<Seq<Seq<char>>>
    decreases rs.len(),
{
    if rs.len() == 0 {
        Seq::empty()
    } else {
        route_point_rows(rs.drop_last()) + points_rows(rs.last())
    }
}

/// Rows `[<kind>:<id>, <other_kind>:<other>]` for each of `others`.
fn push_link_rows(rows: &mut Vec<Vec<String>>, kind: &str, id: &str, other_kind: &str, others: &Vec<String>)
    ensures
        rows_view(final(rows)@) == rows_view(old(rows)@) + link_rows(kind@, id@, other_kind@, texts_view(others@)),
{
    let ghost start = rows_view(rows@);
    let mut j: usize = 0;
    while j < others.len()
        invariant
            j <= others@.len(),
            rows_view(rows@) == start + link_rows(kind@, id@, other_kind@, texts_view(others@.take(j as int))),
        decreases others@.len() - j,
    {
        let mut row: Vec<String> = Vec::new();
        row.push(entity_ref(kind, id));
        row.push(entity_ref(other_kind, others[j].as_str()));
        let ghost before = rows@;
        rows.push(row);
        assert(texts_view(others@.take(j + 1)) =~= texts_view(others@.take(j as int)).push(others@[j as int]@));
        assert(texts_view(row@) =~= seq![entity_text(kind@, id@), entity_text(other_kind@, others@[j as int]@)]);
        assert(rows_view(rows@) =~= rows_view(before).push(texts_view(row@)));
        assert(link_rows(kind@, id@, other_kind@, texts_view(others@.take(j + 1))) =~= link_rows(
            kind@,
            id@,
            other_kind@,
            texts_view(others@.take(j as int)),
        ).push(texts_view(row@)));
        j = j + 1;
    }
    assert(others@.take(j as int) =~= others@);
}

/// The rows linking each stop area to the stop points it references.
pub fn stop_areas_stop_point_rows(stop_areas: &[StopArea]) -> (r: Vec<Vec<String>>)
    ensures
        rows_view(r@) == stop_area_rows(stop_areas@),
{
    let mut r: Vec<Vec<String>> = Vec::new();
    let mut i: usize = 0;
    assert(rows_view(r@) =~= Seq::<Seq<Seq<char>>>::empty());
    while i < stop_areas.len()
        invariant
            i <= stop_areas@.len(),
            rows_view(r@) == stop_area_rows(stop_areas@.take(i as int)),
        decreases stop_areas@.len() - i,
    {
        assert(stop_areas@.take(i + 1).drop_last() =~= stop_areas@.take(i as int));
        let sa = &stop_areas[i];
        push_link_rows(&mut r, "StopArea", sa.id.as_str(), "StopPoint", &sa.stop_point_ids);
        i = i + 1;
    }
    assert(stop_areas@.take(i as int) =~= stop_areas@);
    r
}

/// The rows linking each line to the routes it references.
pub fn lines_routes_rows(lines: &[Line]) -> (r: Vec<Vec<String>>)
    ensures
        rows_view(r@) == line_route_rows(lines@),
{
    let mut r: Vec<Vec<String>> = Vec::new();
    let mut i: usize = 0;
    assert(rows_view(r@) =~= Seq::<Seq<Seq<char>>>::empty());
    while i < lines.len()
        invariant
            i <= lines@.len(),
            rows_view(r@) == line_route_rows(lines@.take(i as int)),
        decreases lines@.len() - i,
    {
        assert(lines@.take(i + 1).drop_last() =~= lines@.take(i as int));
        let l = &lines[i];
        push_link_rows(&mut r, "Line", l.id.as_str(), "Route", &l.routes_id);
        i = i + 1;
    }
    assert(lines@.take(i as int) =~= lines@);
    r
}

/// The rows of the route points of every route: route, role, stop point.
pub fn route_points_rows(routes: &[Route]) -> (r: Vec<Vec<String>>)
    ensures
        rows_view(r@) == route_point_rows(routes@),
{
    let mut r: Vec<Vec<String>> = Vec::new();
    let mut i: usize = 0;
    assert(rows_view(r@) =~= Seq::<Seq<Seq<char>>>::empty());
    while i < routes.len()
        invariant
            i <= routes@.len(),
            rows_view(r@) == route_point_rows(routes@.take(i as int)),
        decreases routes@.len() - i,
    {
        assert(routes@.take(i + 1).drop_last() =~= routes@.take(i as int));
        let route = &routes[i];
        let pts = &route.ordered_route_points;
        let ghost start = rows_view(r@);
        let mut j: usize = 0;
        while j < pts.len()
            invariant
                j <= pts@.len(),
                pts@ == route.ordered_route_points@,
                rows_view(r@) == start + points_rows(*route).take(j as int),
            decreases pts@.len() - j,
        {
            let mut row: Vec<String> = Vec::new();
            row.push(entity_ref("Route", route.id.as_str()));
            row.push(pts[j].role.clone());
            row.push(entity_ref("StopPoint", pts[j].stop_point_id.as_str()));
            let ghost before = r@;
            r.push(row);
            assert(rows_view(r@) =~= rows_view(before).push(texts_view(row@)));
            assert(texts_view(row@) =~= points_rows(*route)[j as int]);
            assert(points_rows(*route).take(j + 1) =~= points_rows(*route).take(j as int).push(points_rows(*route)[j as int]));
            j = j + 1;
        }
        assert(points_rows(*route).take(j as int) =~= points_rows(*route));
        assert(routes@[i as int] == *route);
        i = i + 1;
    }
    assert(routes@.take(i as int) =~= routes@);
    r
}

} // verus!
