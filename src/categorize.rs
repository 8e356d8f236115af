//! Inference of each stop point's role (platform or stop position) from its
//! own tags and from the routes that serve it.

use vstd::prelude::*;

use crate::model::{points_view, Route, StopPoint, StopPointType};
use crate::osm::has_tag;
use crate::text::{lemma_lt_irreflexive, lemma_lt_total, lemma_lt_transitive, seq_lt, str_eq, str_lt};

verus! {

/// Roles that make a stop point a platform.
pub open spec fn platform_role(r: Seq<char>) -> bool {
    r == "platform"@ || r == "platform_exit_only"@ || r == "platform_entry_only"@
}

/// Roles that make a stop point a stop position.
pub open spec fn stop_position_role(r: Seq<char>) -> bool {
    r == "stop"@ || r == "stop_exit_only"@ || r == "stop_entry_only"@
}

/// The roles under which `id` appears among `points`, in order.
pub open spec fn roles_of(points: Seq<(Seq<char>, Seq<char>)>, id: Seq<char>) -> Seq<Seq<char>>
    decreases points.len(),
{
    if points.len() == 0 {
        Seq::empty()
    } else {
        let rest = roles_of(points.drop_last(), id);
        if points.last().1 == id {
            rest.push(points.last().0)
        } else {
            rest
        }
    }
}

/// Whether `r` lists the stop point `id` among its route points.
pub open spec fn route_has_stop(r: Route, id: Seq<char>) -> bool {
    exists|i: int|
        0 <= i < r.ordered_route_points@.len() && (#[trigger] r.ordered_route_points@[i]).stop_point_id@
            == id
}

/// What one route says of the stop point `id`.
pub open spec fn route_verdict(r: Route, id: Seq<char>) -> StopPointType {
    let roles = roles_of(points_view(r.ordered_route_points@), id);
    if exists|k: int| 0 <= k < roles.len() && platform_role(#[trigger] roles[k]) {
        StopPointType::Platform
    } else if exists|k: int| 0 <= k < roles.len() && stop_position_role(#[trigger] roles[k]) {
        StopPointType::StopPosition
    } else {
        StopPointType::Unknown
    }
}

/// Whether a route follows the public transport version 2 tagging scheme.
pub open spec fn is_ptv2(r: Route) -> bool {
    has_tag(r.all_osm_tags@, "public_transport:version"@, "2"@)
}

/// The routes whose verdict is consulted for a stop point of type `t0`: ptv2
/// routes, and, while the type is unknown, only those that decide.
pub open spec fn candidate(r: Route, id: Seq<char>, t0: StopPointType) -> bool {
    is_ptv2(r) && (t0 != StopPointType::Unknown || route_verdict(r, id) != StopPointType::Unknown)
}

/// Route `i` comes first among the candidates of `rs[0..n]` when these are
/// ordered by id from the greatest down, equal ids keeping their order.
pub open spec fn leads(rs: Seq<Route>, i: int, id: Seq<char>, t0: StopPointType, n: int) -> bool {
    &&& 0 <= i < n <= rs.len()
    &&& candidate(rs[i], id, t0)
    &&& forall|j: int|
        0 <= j < n && candidate(#[trigger] rs[j], id, t0) ==> !seq_lt(rs[i].id@, rs[j].id@)
    &&& forall|j: int| 0 <= j < i && candidate(#[trigger] rs[j], id, t0) ==> rs[j].id@ != rs[i].id@
}

/// The type that categorization gives a stop point of type `t0` with tags
/// `tags` and id `id`, served by `rs`. Its own tags decide first; otherwise
/// the candidate route that comes first decides, if its verdict is known.
pub open spec fn categorized(
    t0: StopPointType,
    tags: Map<Seq<char>, Seq<char>>,
    id: Seq<char>,
    rs: Seq<Route>,
) -> StopPointType {
    if has_tag(tags, "public_transport"@, "platform"@) {
        StopPointType::Platform
    } else if has_tag(tags, "public_transport"@, "stop_position"@) {
        StopPointType::StopPosition
    } else if exists|i: int| leads(rs, i, id, t0, rs.len() as int) {
        let i = choose|i: int| leads(rs, i, id, t0, rs.len() as int);
        if route_verdict(rs[i], id) != StopPointType::Unknown {
            route_verdict(rs[i], id)
        } else {
            t0
        }
    } else {
        t0
    }
}

/// The routes of `rs` that serve `id`, in order.
pub open spec fn serving(rs: Seq<Route>, id: Seq<char>) -> Seq<Route>
    decreases rs.len(),
{
    if rs.len() == 0 {
        Seq::empty()
    } else {
        let rest = serving(rs.drop_last(), id);
        if route_has_stop(rs.last(), id) {
            rest.push(rs.last())
        } else {
            rest
        }
    }
}

/// The routes behind a sequence of references.
pub open spec fn deref_all(s: Seq<&Route>) -> Seq<Route> {
    s.map_values(|r: &Route| *r)
}

/// `b` is `a` with at most its type changed.
pub open spec fn same_but_type(a: StopPoint, b: StopPoint) -> bool {
    a.id == b.id && a.coord == b.coord && a.name == b.name && a.all_osm_tags == b.all_osm_tags
}

/// At most one route comes first.
pub proof fn lemma_leads_unique(rs: Seq<Route>, i: int, j: int, id: Seq<char>, t0: StopPointType, n: int)
    requires
        leads(rs, i, id, t0, n),
        leads(rs, j, id, t0, n),
    ensures
        i == j,
{
    assert(!seq_lt(rs[i].id@, rs[j].id@));
    assert(!seq_lt(rs[j].id@, rs[i].id@));
    if rs[i].id@ != rs[j].id@ {
        lemma_lt_total(rs[i].id@, rs[j].id@);
    }
}

impl Route {
    /// Whether the route lists `stop_point_id` among its route points.
    pub fn contains_stop_point_id(&self, stop_point_id: &str) -> (r: bool)
        ensures
            r == route_has_stop(*self, stop_point_id@),
    {
        let pts = &self.ordered_route_points;
        let mut i: usize = 0;
        while i < pts.len()
            invariant
                i <= pts@.len(),
                pts@ == self.ordered_route_points@,
                forall|j: int| 0 <= j < i ==> (#[trigger] pts@[j]).stop_point_id@ != stop_point_id@,
            decreases pts@.len() - i,
        {
            if str_eq(pts[i].stop_point_id.as_str(), stop_point_id) {
                assert(self.ordered_route_points@[i as int].stop_point_id@ == stop_point_id@);
                return true;
            }
            i = i + 1;
        }
        false
    }

    /// The roles under which `stop_point_id` appears in the route, in order.
    pub fn get_stop_point_roles<'a>(&'a self, stop_point_id: &str) -> (r: Vec<&'a String>)
        ensures
            r@.map_values(|s: &String| s@) == roles_of(points_view(self.ordered_route_points@), stop_point_id@),
    {
        let pts = &self.ordered_route_points;
        let mut r: Vec<&'a String> = Vec::new();
        let mut i: usize = 0;
        while i < pts.len()
            invariant
                i <= pts@.len(),
                r@.map_values(|s: &String| s@) == roles_of(points_view(pts@.take(i as int)), stop_point_id@),
            decreases pts@.len() - i,
        {
            assert(points_view(pts@.take(i + 1)).drop_last() =~= points_view(pts@.take(i as int)));
            if str_eq(pts[i].stop_point_id.as_str(), stop_point_id) {
                let ghost before = r@;
                r.push(&pts[i].role);
                assert(r@.map_values(|s: &String| s@) =~= before.map_values(|s: &String| s@).push(pts@[i as int].role@));
            }
            i = i + 1;
        }
        assert(pts@.take(i as int) == pts@);
        r
    }
}

fn is_platform_role(r: &str) -> (b: bool)
    ensures
        b == platform_role(r@),
{
    str_eq(r, "platform") || str_eq(r, "platform_exit_only") || str_eq(r, "platform_entry_only")
}

fn is_stop_position_role(r: &str) -> (b: bool)
    ensures
        b == stop_position_role(r@),
{
    str_eq(r, "stop") || str_eq(r, "stop_exit_only") || str_eq(r, "stop_entry_only")
}

/// What `route` says of the stop point `stop_point_id`.
fn verdict_of(route: &Route, stop_point_id: &str) -> (r: StopPointType)
    ensures
        r == route_verdict(*route, stop_point_id@),
{
    let roles = route.get_stop_point_roles(stop_point_id);
    let ghost rv = roles_of(points_view(route.ordered_route_points@), stop_point_id@);
    let mut platform = false;
    let mut stop_position = false;
    let mut k: usize = 0;
    while k < roles.len()
        invariant
            k <= roles@.len(),
            roles@.map_values(|s: &String| s@) == rv,
            platform == exists|m: int| 0 <= m < k && platform_role(#[trigger] rv[m]),
            stop_position == exists|m: int| 0 <= m < k && stop_position_role(#[trigger] rv[m]),
        decreases roles@.len() - k,
    {
        assert(rv[k as int] == roles@[k as int]@);
        if is_platform_role(roles[k].as_str()) {
            platform = true;
        }
        if is_stop_position_role(roles[k].as_str()) {
            stop_position = true;
        }
        k = k + 1;
    }
    if platform {
        StopPointType::Platform
    } else if stop_position {
        StopPointType::StopPosition
    } else {
        StopPointType::Unknown
    }
}

/// The routes of `routes` that serve `stop_point`, in order.
pub fn get_routes_from_stop<'a>(routes: &'a [Route], stop_point: &StopPoint) -> (r: Vec<&'a Route>)
    ensures
        deref_all(r@) == serving(routes@, stop_point.id@),
{
    let mut r: Vec<&'a Route> = Vec::new();
    let mut i: usize = 0;
    while i < routes.len()
        invariant
            i <= routes@.len(),
            deref_all(r@) == serving(routes@.take(i as int), stop_point.id@),
        decreases routes@.len() - i,
    {
        assert(routes@.take(i + 1).drop_last() =~= routes@.take(i as int));
        if routes[i].contains_stop_point_id(stop_point.id.as_str()) {
            let ghost before = r@;
            r.push(&routes[i]);
            assert(deref_all(r@) =~= deref_all(before).push(routes@[i as int]));
        }
        i = i + 1;
    }
    assert(routes@.take(i as int) == routes@);
    r
}

/// The type that categorization gives `stop_point`, served by `routes`.
fn categorized_type(stop_point: &StopPoint, routes: &Vec<&Route>) -> (r: StopPointType)
    ensures
        r == categorized(
            stop_point.stop_point_type,
            stop_point.all_osm_tags@,
            stop_point.id@,
            deref_all(routes@),
        ),
{
    let ghost rs = deref_all(routes@);
    let t0 = stop_point.stop_point_type;
    let id = stop_point.id.as_str();
    if stop_point.all_osm_tags.contains("public_transport", "platform") {
        return StopPointType::Platform;
    }
    if stop_point.all_osm_tags.contains("public_transport", "stop_position") {
        return StopPointType::StopPosition;
    }
    let mut best: Option<usize> = None;
    let mut i: usize = 0;
    while i < routes.len()
        invariant
            i <= routes@.len(),
            rs == deref_all(routes@),
            rs.len() == routes@.len(),
            match best {
                Some(b) => leads(rs, b as int, id@, t0, i as int),
                None => forall|j: int| 0 <= j < i ==> !candidate(#[trigger] rs[j], id@, t0),
            },
        decreases routes@.len() - i,
    {
        let route = routes[i];
        assert(rs[i as int] == *route);
        let ptv2 = route.all_osm_tags.contains("public_transport:version", "2");
        let is_candidate = ptv2 && (t0 != StopPointType::Unknown || verdict_of(route, id)
            != StopPointType::Unknown);
        if is_candidate {
            match best {
                None => {
                    proof {
                        lemma_lt_irreflexive(rs[i as int].id@);
                    }
                    best = Some(i);
                },
                Some(b) => {
                    if str_lt(routes[b].id.as_str(), route.id.as_str()) {
                        proof {
                            lemma_lt_irreflexive(rs[i as int].id@);
                            assert forall|j: int| 0 <= j <= i && candidate(#[trigger] rs[j], id@, t0) implies !seq_lt(rs[i as int].id@, rs[j].id@) by {
                                if j < i && seq_lt(rs[i as int].id@, rs[j].id@) {
                                    lemma_lt_transitive(rs[b as int].id@, rs[i as int].id@, rs[j].id@);
                                }
                            }
                            assert forall|j: int| 0 <= j < i && candidate(#[trigger] rs[j], id@, t0) implies rs[j].id@ != rs[i as int].id@ by {
                                if rs[j].id@ == rs[i as int].id@ {
                                    assert(!seq_lt(rs[b as int].id@, rs[j].id@));
                                }
                            }
                        }
                        best = Some(i);
                    }
                },
            }
        }
        i = i + 1;
    }
    match best {
        Some(b) => {
            proof {
                assert(leads(rs, b as int, id@, t0, rs.len() as int));
                let c = choose|c: int| leads(rs, c, id@, t0, rs.len() as int);
                lemma_leads_unique(rs, b as int, c, id@, t0, rs.len() as int);
            }
            let v = verdict_of(routes[b], id);
            if v != StopPointType::Unknown {
                v
            } else {
                t0
            }
        },
        None => {
            assert forall|c: int| !leads(rs, c, id@, t0, rs.len() as int) by {}
            t0
        },
    }
}

/// Decides the type of `stop_point`: its own `public_transport` tag first;
/// otherwise the roles it has in the ptv2 `routes`, the route with the
/// greatest id first. Where nothing decides, the type stays as it was.
pub fn categorize_stop_point(stop_point: &mut StopPoint, routes: Vec<&Route>)
    ensures
        same_but_type(*old(stop_point), *final(stop_point)),
        final(stop_point).stop_point_type == categorized(
            old(stop_point).stop_point_type,
            old(stop_point).all_osm_tags@,
            old(stop_point).id@,
            deref_all(routes@),
        ),
        has_tag(old(stop_point).all_osm_tags@, "public_transport"@, "platform"@)
            ==> final(stop_point).stop_point_type == StopPointType::Platform,
{
    let t = categorized_type(stop_point, &routes);
    stop_point.stop_point_type = t;
}

/// `after` is `before` with each stop point categorized against the routes of
/// `rs` that serve it.
pub open spec fn categorized_pass(before: Seq<StopPoint>, after: Seq<StopPoint>, rs: Seq<Route>) -> bool {
    &&& after.len() == before.len()
    &&& forall|i: int|
        0 <= i < before.len() ==> same_but_type(#[trigger] before[i], after[i])
            && after[i].stop_point_type == categorized(
            before[i].stop_point_type,
            before[i].all_osm_tags@,
            before[i].id@,
            serving(rs, before[i].id@),
        )
}

/// Categorizes every stop point against the routes that serve it.
pub fn update_stop_points_type(stop_points: &mut Vec<StopPoint>, routes: &[Route])
    ensures
        categorized_pass(old(stop_points)@, final(stop_points)@, routes@),
{
    let ghost start = stop_points@;
    let mut i: usize = 0;
    while i < stop_points.len()
        invariant
            i <= stop_points@.len(),
            stop_points@.len() == start.len(),
            forall|j: int|
                i <= j < start.len() ==> #[trigger] stop_points@[j] == start[j],
            forall|j: int|
                0 <= j < i ==> same_but_type(#[trigger] start[j], stop_points@[j])
                    && stop_points@[j].stop_point_type == categorized(
                    start[j].stop_point_type,
                    start[j].all_osm_tags@,
                    start[j].id@,
                    serving(routes@, start[j].id@),
                ),
        decreases start.len() - i,
    {
        let serving_routes = get_routes_from_stop(routes, &stop_points[i]);
        categorize_stop_point(&mut stop_points[i], serving_routes);
        i = i + 1;
    }
}

/// Categorizing a second time changes nothing: the type that one pass gives
/// is the type that a second pass over the same routes gives.
pub proof fn lemma_categorize_idempotent(
    t0: StopPointType,
    tags: Map<Seq<char>, Seq<char>>,
    id: Seq<char>,
    rs: Seq<Route>,
)
    ensures
        categorized(categorized(t0, tags, id, rs), tags, id, rs) == categorized(t0, tags, id, rs),
{
    let t1 = categorized(t0, tags, id, rs);
    let n = rs.len() as int;
    if !has_tag(tags, "public_transport"@, "platform"@) && !has_tag(
        tags,
        "public_transport"@,
        "stop_position"@,
    ) && t1 != StopPointType::Unknown && t0 != t1 {
        // t1 came from the verdict of a deciding route; in the second pass
        // the candidates are all ptv2 routes.
        let i = choose|i: int| leads(rs, i, id, t0, n);
        if exists|k: int| leads(rs, k, id, t1, n) {
            let k = choose|k: int| leads(rs, k, id, t1, n);
            if route_verdict(rs[k], id) != StopPointType::Unknown {
                if t0 == StopPointType::Unknown {
                    assert(leads(rs, k, id, t0, n));
                    lemma_leads_unique(rs, i, k, id, t0, n);
                } else {
                    assert(leads(rs, k, id, t0, n));
                    lemma_leads_unique(rs, i, k, id, t0, n);
                }
            }
        }
    }
}

/// A second categorization pass over the same routes leaves every type as the
/// first pass set it.
pub proof fn lemma_update_idempotent(
    start: Seq<StopPoint>,
    once: Seq<StopPoint>,
    twice: Seq<StopPoint>,
    rs: Seq<Route>,
)
    requires
        categorized_pass(start, once, rs),
        categorized_pass(once, twice, rs),
    ensures
        twice.len() == once.len(),
        forall|i: int|
            0 <= i < once.len() ==> (#[trigger] twice[i]).stop_point_type == once[i].stop_point_type,
{
    assert forall|i: int| 0 <= i < once.len() implies (#[trigger] twice[i]).stop_point_type
        == once[i].stop_point_type by {
        assert(same_but_type(start[i], once[i]));
        assert(same_but_type(once[i], twice[i]));
        lemma_categorize_idempotent(
            start[i].stop_point_type,
            start[i].all_osm_tags@,
            start[i].id@,
            serving(rs, start[i].id@),
        );
    }
}

/// Whether a stop point's own tags decide its type.
pub open spec fn tags_decide(tags: Map<Seq<char>, Seq<char>>) -> bool {
    has_tag(tags, "public_transport"@, "platform"@) || has_tag(tags, "public_transport"@, "stop_position"@)
}

/// The number of ptv2 routes in `rs`.
pub open spec fn ptv2_count(rs: Seq<Route>) -> nat
    decreases rs.len(),
{
    if rs.len() == 0 {
        0
    } else {
        ptv2_count(rs.drop_last()) + if is_ptv2(rs.last()) {
            1nat
        } else {
            0nat
        }
    }
}

fn count_ptv2(routes: &Vec<&Route>) -> (r: usize)
    ensures
        r == ptv2_count(deref_all(routes@)),
{
    let ghost rs = deref_all(routes@);
    let mut n: usize = 0;
    let mut i: usize = 0;
    while i < routes.len()
        invariant
            i <= routes@.len(),
            rs == deref_all(routes@),
            n == ptv2_count(rs.take(i as int)),
            n <= i,
        decreases routes@.len() - i,
    {
        assert(rs.take(i + 1).drop_last() =~= rs.take(i as int));
        assert(rs.take(i + 1).last() == *routes@[i as int]);
        if routes[i].all_osm_tags.contains("public_transport:version", "2") {
            n = n + 1;
        }
        i = i + 1;
    }
    assert(rs.take(i as int) =~= rs);
    n
}

/// What the categorization of each stop point has to report: `None` where its
/// own tags decide its type; otherwise the number of ptv2 routes among those
/// that serve it, which the route step consults.
pub fn ptv2_route_counts(stop_points: &[StopPoint], routes: &[Route]) -> (r: Vec<Option<usize>>)
    ensures
        r@.len() == stop_points@.len(),
        forall|i: int|
            0 <= i < stop_points@.len() ==> #[trigger] r@[i] == if tags_decide(
                stop_points@[i].all_osm_tags@,
            ) {
                None
            } else {
                Some(ptv2_count(serving(routes@, stop_points@[i].id@)) as usize)
            },
{
    let mut r: Vec<Option<usize>> = Vec::new();
    let mut i: usize = 0;
    while i < stop_points.len()
        invariant
            i <= stop_points@.len(),
            r@.len() == i,
            forall|j: int|
                0 <= j < i ==> #[trigger] r@[j] == if tags_decide(stop_points@[j].all_osm_tags@) {
                    None
                } else {
                    Some(ptv2_count(serving(routes@, stop_points@[j].id@)) as usize)
                },
        decreases stop_points@.len() - i,
    {
        let sp = &stop_points[i];
        if sp.all_osm_tags.contains("public_transport", "platform") || sp.all_osm_tags.contains(
            "public_transport",
            "stop_position",
        ) {
            r.push(None);
        } else {
            let serving_routes = get_routes_from_stop(routes, sp);
            r.push(Some(count_ptv2(&serving_routes)));
        }
        i = i + 1;
    }
    r
}

proof fn lemma_leads_insert(
    rs: Seq<Route>,
    k: int,
    r: Route,
    i: int,
    id: Seq<char>,
    t0: StopPointType,
)
    requires
        0 <= k <= rs.len(),
        !is_ptv2(r),
    ensures
        leads(rs, i, id, t0, rs.len() as int) ==> leads(
            rs.insert(k, r),
            if i < k { i } else { i + 1 },
            id,
            t0,
            rs.len() as int + 1,
        ),
        (0 <= i < rs.len() + 1 && i != k && leads(rs.insert(k, r), i, id, t0, rs.len() as int + 1)) ==> leads(
            rs,
            if i < k { i } else { i - 1 },
            id,
            t0,
            rs.len() as int,
        ),
        !leads(rs.insert(k, r), k, id, t0, rs.len() as int + 1),
{
    let ins = rs.insert(k, r);
    let n = rs.len() as int;
    assert(ins[k] == r);
    if leads(rs, i, id, t0, n) {
        let i2 = if i < k { i } else { i + 1 };
        assert(ins[i2] == rs[i]);
        assert forall|j: int| 0 <= j < n + 1 && candidate(#[trigger] ins[j], id, t0) implies !seq_lt(
            ins[i2].id@,
            ins[j].id@,
        ) by {
            if j < k {
                assert(ins[j] == rs[j]);
            } else if j > k {
                assert(ins[j] == rs[j - 1]);
            }
        }
        assert forall|j: int| 0 <= j < i2 && candidate(#[trigger] ins[j], id, t0) implies ins[j].id@
            != ins[i2].id@ by {
            if j < k {
                assert(ins[j] == rs[j]);
            } else if j > k {
                assert(ins[j] == rs[j - 1]);
            }
        }
    }
    if 0 <= i < n + 1 && i != k && leads(ins, i, id, t0, n + 1) {
        let i1 = if i < k { i } else { i - 1 };
        assert(ins[i] == rs[i1]);
        assert forall|j: int| 0 <= j < n && candidate(#[trigger] rs[j], id, t0) implies !seq_lt(
            rs[i1].id@,
            rs[j].id@,
        ) by {
            if j < k {
                assert(ins[j] == rs[j]);
            } else {
                assert(ins[j + 1] == rs[j]);
            }
        }
        assert forall|j: int| 0 <= j < i1 && candidate(#[trigger] rs[j], id, t0) implies rs[j].id@
            != rs[i1].id@ by {
            if j < k {
                assert(ins[j] == rs[j]);
            } else {
                assert(ins[j + 1] == rs[j]);
            }
        }
    }
}

/// A route without ptv2 tagging has no say: adding one, anywhere among the
/// routes, leaves the categorization as it was (and so does removing one).
pub proof fn lemma_non_ptv2_route_irrelevant(
    t0: StopPointType,
    tags: Map<Seq<char>, Seq<char>>,
    id: Seq<char>,
    rs: Seq<Route>,
    k: int,
    r: Route,
)
    requires
        0 <= k <= rs.len(),
        !is_ptv2(r),
    ensures
        categorized(t0, tags, id, rs.insert(k, r)) == categorized(t0, tags, id, rs),
{
    let ins = rs.insert(k, r);
    let n = rs.len() as int;
    assert(ins.len() == n + 1);
    if exists|i: int| leads(rs, i, id, t0, n) {
        let i = choose|i: int| leads(rs, i, id, t0, n);
        let i2 = if i < k { i } else { i + 1 };
        lemma_leads_insert(rs, k, r, i, id, t0);
        assert(leads(ins, i2, id, t0, ins.len() as int));
        let c = choose|c: int| leads(ins, c, id, t0, ins.len() as int);
        lemma_leads_unique(ins, i2, c, id, t0, ins.len() as int);
        assert(ins[i2] == rs[i]);
    } else {
        assert forall|c: int| !leads(ins, c, id, t0, ins.len() as int) by {
            lemma_leads_insert(rs, k, r, c, id, t0);
            if leads(ins, c, id, t0, ins.len() as int) && c != k {
                assert(leads(rs, if c < k { c } else { c - 1 }, id, t0, n));
            }
        }
    }
}

} // verus!
