//! The decoded map: typed ids, tags, nodes, ways, relations, and a store of
//! objects keyed by id.

use vstd::prelude::*;

use crate::text::{int_text, lemma_int_text_injective, push_int, str_eq};

verus! {

/// The typed id of a map object.
#[derive(Clone, Copy, Debug, PartialEq, Eq, Structural)]
pub enum OsmId {
    Node(i64),
    Way(i64),
    Relation(i64),
}

impl OsmId {
    /// Position of the object kind in the store's order: nodes, ways, relations.
    pub open spec fn rank(self) -> int {
        match self {
            OsmId::Node(_) => 0,
            OsmId::Way(_) => 1,
            OsmId::Relation(_) => 2,
        }
    }

    /// The numeric part of the id.
    pub open spec fn num(self) -> int {
        match self {
            OsmId::Node(n) => n as int,
            OsmId::Way(n) => n as int,
            OsmId::Relation(n) => n as int,
        }
    }

    /// The numeric part of the id.
    pub fn inner_id(&self) -> (r: i64)
        ensures
            r as int == self.num(),
    {
        match self {
            OsmId::Node(n) => *n,
            OsmId::Way(n) => *n,
            OsmId::Relation(n) => *n,
        }
    }

    /// Whether `self` comes strictly before `other` in the store's order.
    pub fn precedes(&self, other: &OsmId) -> (r: bool)
        ensures
            r == id_before(*self, *other),
    {
        let a: u8 = match self {
            OsmId::Node(_) => 0,
            OsmId::Way(_) => 1,
            OsmId::Relation(_) => 2,
        };
        let b: u8 = match other {
            OsmId::Node(_) => 0,
            OsmId::Way(_) => 1,
            OsmId::Relation(_) => 2,
        };
        a < b || (a == b && self.inner_id() < other.inner_id())
    }
}

/// The order of the store: by kind (nodes, ways, relations), then by number.
pub open spec fn id_before(a: OsmId, b: OsmId) -> bool {
    a.rank() < b.rank() || (a.rank() == b.rank() && a.num() < b.num())
}

/// Name of an object kind as it appears in entity ids.
pub open spec fn kind_text(id: OsmId) -> Seq<char> {
    match id {
        OsmId::Node(_) => seq!['n', 'o', 'd', 'e'],
        OsmId::Way(_) => seq!['w', 'a', 'y'],
        OsmId::Relation(_) => seq!['r', 'e', 'l', 'a', 't', 'i', 'o', 'n'],
    }
}

/// Entity id of an object: `"<kind>:<number>"`.
pub open spec fn id_text(id: OsmId) -> Seq<char> {
    kind_text(id) + seq![':'] + int_text(id.num())
}

/// Distinct ids have distinct texts: an id text names exactly one object.
pub proof fn lemma_id_text_injective(a: OsmId, b: OsmId)
    requires
        id_text(a) == id_text(b),
    ensures
        a == b,
{
    assert(id_text(a)[0] == kind_text(a)[0]);
    assert(id_text(b)[0] == kind_text(b)[0]);
    assert(a.rank() == b.rank());
    let n = kind_text(a).len() as int + 1;
    assert(id_text(a).subrange(n, id_text(a).len() as int) =~= int_text(a.num()));
    assert(id_text(b).subrange(n, id_text(b).len() as int) =~= int_text(b.num()));
    lemma_int_text_injective(a.num(), b.num());
}

/// Renders an id as `"<kind>:<number>"`.
pub fn id_string(id: &OsmId) -> (r: String)
    ensures
        r@ == id_text(*id),
{
    let mut s = String::new();
    proof {
        reveal_strlit("node:");
        reveal_strlit("way:");
        reveal_strlit("relation:");
    }
    match id {
        OsmId::Node(_) => s.append("node:"),
        OsmId::Way(_) => s.append("way:"),
        OsmId::Relation(_) => s.append("relation:"),
    }
    push_int(&mut s, id.inner_id());
    assert(s@ =~= id_text(*id));
    s
}

/// One key/value pair of a tag list.
pub struct Tag {
    pub key: String,
    pub value: String,
}

/// The tags of an object: a map from key to value.
pub struct Tags {
    entries: Vec<Tag>,
}

/// Value of the first entry of `s`, from index `i` on, whose key is `k`.
pub closed spec fn lookup_from(s: Seq<Tag>, k: Seq<char>, i: int) -> Option<Seq<char>>
    decreases s.len() - i,
{
    if i < 0 || i >= s.len() {
        None
    } else if s[i].key@ == k {
        Some(s[i].value@)
    } else {
        lookup_from(s, k, i + 1)
    }
}

proof fn lemma_lookup_push(s: Seq<Tag>, t: Tag, k: Seq<char>, i: int)
    requires
        0 <= i <= s.len(),
    ensures
        lookup_from(s.push(t), k, i) == (match lookup_from(s, k, i) {
            Some(v) => Some(v),
            None => if t.key@ == k { Some(t.value@) } else { None },
        }),
    decreases s.len() - i,
{
    if i < s.len() {
        lemma_lookup_push(s, t, k, i + 1);
        assert(s.push(t)[i] == s[i]);
    } else {
        assert(s.push(t)[i] == t);
        assert(lookup_from(s.push(t), k, i + 1) is None);
    }
}

proof fn lemma_lookup_update(s: Seq<Tag>, j: int, t: Tag, k: Seq<char>, i: int)
    requires
        0 <= i <= j < s.len(),
        s[j].key@ == t.key@,
        forall|m: int| i <= m < j ==> s[m].key@ != t.key@,
    ensures
        lookup_from(s.update(j, t), k, i) == if k == t.key@ {
            Some(t.value@)
        } else {
            lookup_from(s, k, i)
        },
    decreases s.len() - i,
{
    if i < j {
        lemma_lookup_update(s, j, t, k, i + 1);
    } else if k != t.key@ {
        assert(lookup_from(s.update(j, t), k, i + 1) == lookup_from(s, k, i + 1)) by {
            lemma_lookup_same_after(s, j, t, k, i + 1);
        }
    }
}

proof fn lemma_lookup_same_after(s: Seq<Tag>, j: int, t: Tag, k: Seq<char>, i: int)
    requires
        0 <= j < i,
        j < s.len(),
    ensures
        lookup_from(s.update(j, t), k, i) == lookup_from(s, k, i),
    decreases s.len() - i,
{
    if 0 <= i < s.len() {
        lemma_lookup_same_after(s, j, t, k, i + 1);
    }
}

impl View for Tags {
    type V = Map<Seq<char>, Seq<char>>;

    closed spec fn view(&self) -> Map<Seq<char>, Seq<char>> {
        Map::new(
            |k: Seq<char>| lookup_from(self.entries@, k, 0) is Some,
            |k: Seq<char>| lookup_from(self.entries@, k, 0)->0,
        )
    }
}

/// Whether `t` maps `k` to `v`.
pub open spec fn has_tag(t: Map<Seq<char>, Seq<char>>, k: Seq<char>, v: Seq<char>) -> bool {
    t.contains_key(k) && t[k] == v
}

/// The value of `k` in `t`, or the empty text where `t` has no such key.
pub open spec fn tag_or_empty(t: Map<Seq<char>, Seq<char>>, k: Seq<char>) -> Seq<char> {
    if t.contains_key(k) {
        t[k]
    } else {
        Seq::empty()
    }
}

impl Tags {
    pub fn new() -> (r: Tags)
        ensures
            r@ == Map::<Seq<char>, Seq<char>>::empty(),
    {
        let r = Tags { entries: Vec::new() };
        assert(r@ =~= Map::<Seq<char>, Seq<char>>::empty());
        r
    }

    /// Index of the first entry with key `key`, if any.
    fn position(&self, key: &str) -> (r: Option<usize>)
        ensures
            match r {
                Some(j) => j < self.entries@.len() && self.entries@[j as int].key@ == key@
                    && forall|m: int| 0 <= m < j ==> self.entries@[m].key@ != key@,
                None => forall|m: int|
                    0 <= m < self.entries@.len() ==> self.entries@[m].key@ != key@,
            },
            lookup_from(self.entries@, key@, 0) == match r {
                Some(j) => Some(self.entries@[j as int].value@),
                None => None::<Seq<char>>,
            },
    {
        let mut i: usize = 0;
        while i < self.entries.len()
            invariant
                i <= self.entries@.len(),
                forall|m: int| 0 <= m < i ==> self.entries@[m].key@ != key@,
                lookup_from(self.entries@, key@, 0) == lookup_from(self.entries@, key@, i as int),
            decreases self.entries@.len() - i,
        {
            if str_eq(self.entries[i].key.as_str(), key) {
                return Some(i);
            }
            i = i + 1;
        }
        None
    }

    /// The value of `key`, if present.
    pub fn get(&self, key: &str) -> (r: Option<&String>)
        ensures
            match r {
                Some(v) => self@.contains_key(key@) && self@[key@] == v@,
                None => !self@.contains_key(key@),
            },
    {
        match self.position(key) {
            Some(j) => Some(&self.entries[j].value),
            None => None,
        }
    }

    /// Whether `key` is present with value `value`.
    pub fn contains(&self, key: &str, value: &str) -> (r: bool)
        ensures
            r == has_tag(self@, key@, value@),
    {
        match self.get(key) {
            Some(v) => str_eq(v.as_str(), value),
            None => false,
        }
    }

    /// The value of `key`, or an empty string where it is absent.
    pub fn get_or_empty(&self, key: &str) -> (r: String)
        ensures
            r@ == tag_or_empty(self@, key@),
    {
        match self.get(key) {
            Some(v) => v.clone(),
            None => String::new(),
        }
    }

    /// Sets `key` to `value`, replacing any earlier value.
    pub fn insert(&mut self, key: String, value: String)
        ensures
            final(self)@ == old(self)@.insert(key@, value@),
    {
        let ghost k = key@;
        let ghost v = value@;
        let ghost s = self.entries@;
        match self.position(key.as_str()) {
            Some(j) => {
                let t = Tag { key, value };
                proof {
                    assert forall|q: Seq<char>| lookup_from(s.update(j as int, t), q, 0) == if q == k {
                        Some(v)
                    } else {
                        lookup_from(s, q, 0)
                    } by {
                        lemma_lookup_update(s, j as int, t, q, 0);
                    }
                }
                self.entries.set(j, t);
            },
            None => {
                let t = Tag { key, value };
                proof {
                    assert forall|q: Seq<char>| lookup_from(s.push(t), q, 0) == if q == k {
                        Some(v)
                    } else {
                        lookup_from(s, q, 0)
                    } by {
                        lemma_lookup_push(s, t, q, 0);
                        if q == k {
                            lemma_lookup_absent(s, q, 0);
                        }
                    }
                }
                self.entries.push(t);
            },
        }
        assert(self@ =~= old(self)@.insert(k, v));
    }

    /// Copies the tags.
    pub fn duplicate(&self) -> (r: Tags)
        ensures
            r@ == self@,
    {
        let mut entries: Vec<Tag> = Vec::new();
        let mut i: usize = 0;
        while i < self.entries.len()
            invariant
                i <= self.entries@.len(),
                entries@.len() == i,
                forall|m: int| 0 <= m < i ==> entries@[m].key@ == self.entries@[m].key@
                    && entries@[m].value@ == self.entries@[m].value@,
            decreases self.entries@.len() - i,
        {
            let e = &self.entries[i];
            entries.push(Tag { key: e.key.clone(), value: e.value.clone() });
            i = i + 1;
        }
        let r = Tags { entries };
        proof {
            assert forall|q: Seq<char>| lookup_from(r.entries@, q, 0) == lookup_from(self.entries@, q, 0) by {
                lemma_lookup_same_keys(r.entries@, self.entries@, q, 0);
            }
        }
        assert(r@ =~= self@);
        r
    }

    /// The keys, each once per entry.
    pub fn keys(&self) -> (r: Vec<String>)
        ensures
            forall|k: Seq<char>| self@.contains_key(k) <==> exists|i: int| 0 <= i < r@.len() && r@[i]@ == k,
    {
        let mut r: Vec<String> = Vec::new();
        let mut i: usize = 0;
        while i < self.entries.len()
            invariant
                i <= self.entries@.len(),
                r@.len() == i,
                forall|m: int| 0 <= m < i ==> r@[m]@ == self.entries@[m].key@,
            decreases self.entries@.len() - i,
        {
            r.push(self.entries[i].key.clone());
            i = i + 1;
        }
        proof {
            assert forall|k: Seq<char>| self@.contains_key(k) <==> exists|i: int| 0 <= i < r@.len() && r@[i]@ == k by {
                lemma_lookup_some_iff(self.entries@, k, 0);
                if self@.contains_key(k) {
                    let m = choose|m: int| 0 <= m < self.entries@.len() && self.entries@[m].key@ == k;
                    assert(r@[m]@ == k);
                }
            }
        }
        r
    }
}

proof fn lemma_lookup_absent(s: Seq<Tag>, k: Seq<char>, i: int)
    requires
        0 <= i,
        forall|m: int| 0 <= m < s.len() ==> s[m].key@ != k,
    ensures
        lookup_from(s, k, i) is None,
    decreases s.len() - i,
{
    if i < s.len() {
        lemma_lookup_absent(s, k, i + 1);
    }
}

proof fn lemma_lookup_some_iff(s: Seq<Tag>, k: Seq<char>, i: int)
    requires
        0 <= i,
    ensures
        lookup_from(s, k, i) is Some <==> exists|m: int| i <= m < s.len() && s[m].key@ == k,
    decreases s.len() - i,
{
    if i < s.len() {
        lemma_lookup_some_iff(s, k, i + 1);
    }
}

proof fn lemma_lookup_same_keys(a: Seq<Tag>, b: Seq<Tag>, k: Seq<char>, i: int)
    requires
        a.len() == b.len(),
        forall|m: int| 0 <= m < a.len() ==> a[m].key@ == b[m].key@ && a[m].value@ == b[m].value@,
    ensures
        lookup_from(a, k, i) == lookup_from(b, k, i),
    decreases a.len() - i,
{
    if 0 <= i < a.len() {
        lemma_lookup_same_keys(a, b, k, i + 1);
    }
}

/// A node: a point with tags.
pub struct Node {
    pub id: i64,
    pub tags: Tags,
    /// Latitude in units of 1e-7 degree.
    pub decimicro_lat: i32,
    /// Longitude in units of 1e-7 degree.
    pub decimicro_lon: i32,
}

/// A way: an ordered list of node ids, with tags.
pub struct Way {
    pub id: i64,
    pub tags: Tags,
    pub nodes: Vec<i64>,
}

/// A member of a relation: the member's id and its role in the relation.
pub struct Ref {
    pub member: OsmId,
    pub role: String,
}

/// A relation: an ordered list of members, with tags.
pub struct Relation {
    pub id: i64,
    pub tags: Tags,
    pub refs: Vec<Ref>,
}

/// Any map object.
pub enum OsmObj {
    Node(Node),
    Way(Way),
    Relation(Relation),
}

impl OsmObj {
    pub open spec fn spec_id(&self) -> OsmId {
        match self {
            OsmObj::Node(n) => OsmId::Node(n.id),
            OsmObj::Way(w) => OsmId::Way(w.id),
            OsmObj::Relation(r) => OsmId::Relation(r.id),
        }
    }

    pub open spec fn spec_tags(&self) -> Map<Seq<char>, Seq<char>> {
        match self {
            OsmObj::Node(n) => n.tags@,
            OsmObj::Way(w) => w.tags@,
            OsmObj::Relation(r) => r.tags@,
        }
    }

    /// The typed id of the object.
    #[verifier::when_used_as_spec(spec_id)]
    pub fn id(&self) -> (r: OsmId)
        ensures
            r == self.spec_id(),
    {
        match self {
            OsmObj::Node(n) => OsmId::Node(n.id),
            OsmObj::Way(w) => OsmId::Way(w.id),
            OsmObj::Relation(r) => OsmId::Relation(r.id),
        }
    }

    /// The relation, where the object is one.
    pub fn relation(&self) -> (r: Option<&Relation>)
        ensures
            match *self {
                OsmObj::Relation(rel) => r == Some(&rel),
                _ => r is None,
            },
    {
        match self {
            OsmObj::Relation(rel) => Some(rel),
            _ => None,
        }
    }

    /// The tags of the object.
    pub fn tags(&self) -> (r: &Tags)
        ensures
            r@ == self.spec_tags(),
    {
        match self {
            OsmObj::Node(n) => &n.tags,
            OsmObj::Way(w) => &w.tags,
            OsmObj::Relation(r) => &r.tags,
        }
    }
}

/// Ids strictly increase along `s`.
pub open spec fn sorted_by_id(s: Seq<OsmObj>) -> bool {
    forall|i: int, j: int| 0 <= i < j < s.len() ==> id_before(#[trigger] s[i].spec_id(), #[trigger] s[j].spec_id())
}

/// The object of `s` with id `id`, if any.
pub open spec fn find(s: Seq<OsmObj>, id: OsmId) -> Option<OsmObj> {
    if exists|i: int| 0 <= i < s.len() && #[trigger] s[i].spec_id() == id {
        Some(s[choose|i: int| 0 <= i < s.len() && #[trigger] s[i].spec_id() == id])
    } else {
        None
    }
}

proof fn lemma_id_order(a: OsmId, b: OsmId)
    ensures
        !id_before(a, b) && !id_before(b, a) ==> a == b,
        !(id_before(a, b) && id_before(b, a)),
        id_before(a, b) ==> a != b,
{
}

/// In a store sorted by id, the object at `i` is the one found by its id.
pub proof fn lemma_find_at(s: Seq<OsmObj>, i: int)
    requires
        sorted_by_id(s),
        0 <= i < s.len(),
    ensures
        find(s, s[i].spec_id()) == Some(s[i]),
{
    let j = choose|j: int| 0 <= j < s.len() && #[trigger] s[j].spec_id() == s[i].spec_id();
    if j != i {
        if j < i {
            assert(id_before(s[j].spec_id(), s[i].spec_id()));
        } else {
            assert(id_before(s[i].spec_id(), s[j].spec_id()));
        }
    }
}

/// The decoded map: its objects in id order, each id once.
pub struct OsmStore {
    objs: Vec<OsmObj>,
}

impl View for OsmStore {
    type V = Seq<OsmObj>;

    closed spec fn view(&self) -> Seq<OsmObj> {
        self.objs@
    }
}

impl OsmStore {
    #[verifier::type_invariant]
    spec fn ordered(&self) -> bool {
        sorted_by_id(self.objs@)
    }

    /// An empty store.
    pub fn new() -> (r: OsmStore)
        ensures
            r@.len() == 0,
    {
        OsmStore { objs: Vec::new() }
    }

    /// The objects, in id order.
    pub fn objects(&self) -> (r: &Vec<OsmObj>)
        ensures
            r@ == self@,
            sorted_by_id(self@),
    {
        proof {
            use_type_invariant(self);
        }
        &self.objs
    }

    /// The number of objects.
    pub fn len(&self) -> (r: usize)
        ensures
            r == self@.len(),
    {
        self.objs.len()
    }

    /// Where `id` stands, or where it would be inserted.
    fn search(&self, id: &OsmId) -> (r: Result<usize, usize>)
        ensures
            match r {
                Ok(i) => i < self@.len() && self@[i as int].spec_id() == *id,
                Err(i) => i <= self@.len()
                    && (forall|j: int| 0 <= j < i ==> id_before(#[trigger] self@[j].spec_id(), *id))
                    && (forall|j: int| i <= j < self@.len() ==> id_before(*id, #[trigger] self@[j].spec_id())),
            },
    {
        proof {
            use_type_invariant(self);
        }
        let mut lo: usize = 0;
        let mut hi: usize = self.objs.len();
        while lo < hi
            invariant
                lo <= hi <= self.objs@.len(),
                sorted_by_id(self.objs@),
                forall|j: int| 0 <= j < lo ==> id_before(#[trigger] self.objs@[j].spec_id(), *id),
                forall|j: int| hi <= j < self.objs@.len() ==> id_before(*id, #[trigger] self.objs@[j].spec_id()),
            decreases hi - lo,
        {
            let mid: usize = lo + (hi - lo) / 2;
            let mid_id = self.objs[mid].id();
            if mid_id.precedes(id) {
                assert forall|j: int| 0 <= j <= mid implies id_before(#[trigger] self.objs@[j].spec_id(), *id) by {
                    if j < mid {
                        assert(id_before(self.objs@[j].spec_id(), self.objs@[mid as int].spec_id()));
                    }
                }
                lo = mid + 1;
            } else if id.precedes(&mid_id) {
                assert forall|j: int| mid <= j < self.objs@.len() implies id_before(*id, #[trigger] self.objs@[j].spec_id()) by {
                    if j > mid {
                        assert(id_before(self.objs@[mid as int].spec_id(), self.objs@[j].spec_id()));
                    }
                }
                hi = mid;
            } else {
                proof {
                    lemma_id_order(mid_id, *id);
                }
                return Ok(mid);
            }
        }
        Err(lo)
    }

    /// The object with id `id`, if the store holds one.
    pub fn get(&self, id: &OsmId) -> (r: Option<&OsmObj>)
        ensures
            match r {
                Some(o) => find(self@, *id) == Some(*o),
                None => find(self@, *id) is None,
            },
    {
        proof {
            use_type_invariant(self);
        }
        match self.search(id) {
            Ok(i) => {
                proof {
                    lemma_find_at(self@, i as int);
                }
                Some(&self.objs[i])
            },
            Err(i) => {
                assert forall|j: int| 0 <= j < self@.len() implies #[trigger] self@[j].spec_id() != *id by {
                    if j < i {
                        lemma_id_order(self@[j].spec_id(), *id);
                    } else {
                        lemma_id_order(*id, self@[j].spec_id());
                    }
                }
                None
            },
        }
    }

    /// Adds `obj`, replacing an object of the same id.
    pub fn insert(&mut self, obj: OsmObj)
        ensures
            sorted_by_id(final(self)@),
            forall|q: OsmId| #[trigger] find(final(self)@, q) == if q == obj.spec_id() {
                Some(obj)
            } else {
                find(old(self)@, q)
            },
    {
        proof {
            use_type_invariant(&*self);
        }
        let ghost old_s = self@;
        let ghost oid = obj.spec_id();
        let ghost o = obj;
        let pos = self.search(&obj.id());
        let mut objs: Vec<OsmObj> = Vec::new();
        std::mem::swap(&mut objs, &mut self.objs);
        match pos {
            Ok(i) => {
                objs.set(i, obj);
                let ghost new_s = objs@;
                assert(new_s == old_s.update(i as int, o));
                assert(sorted_by_id(new_s)) by {
                    assert forall|a: int, b: int| 0 <= a < b < new_s.len() implies id_before(#[trigger] new_s[a].spec_id(), #[trigger] new_s[b].spec_id()) by {
                        assert(id_before(old_s[a].spec_id(), old_s[b].spec_id()));
                    }
                }
                assert forall|q: OsmId| #[trigger] find(new_s, q) == if q == oid { Some(o) } else { find(old_s, q) } by {
                    if q == oid {
                        lemma_find_at(new_s, i as int);
                    } else if exists|j: int| 0 <= j < old_s.len() && #[trigger] old_s[j].spec_id() == q {
                        let j = choose|j: int| 0 <= j < old_s.len() && #[trigger] old_s[j].spec_id() == q;
                        lemma_find_at(old_s, j);
                        lemma_find_at(new_s, j);
                    } else {
                        assert forall|j: int| 0 <= j < new_s.len() implies #[trigger] new_s[j].spec_id() != q by {
                            if j != i {
                                assert(new_s[j] == old_s[j]);
                            }
                        }
                    }
                }
            },
            Err(i) => {
                objs.insert(i, obj);
                let ghost new_s = objs@;
                assert(new_s == old_s.insert(i as int, o));
                assert(sorted_by_id(new_s)) by {
                    assert forall|a: int, b: int| 0 <= a < b < new_s.len() implies id_before(#[trigger] new_s[a].spec_id(), #[trigger] new_s[b].spec_id()) by {
                        if b < i {
                            assert(id_before(old_s[a].spec_id(), old_s[b].spec_id()));
                        } else if b == i {
                            assert(new_s[a] == old_s[a]);
                        } else if a < i {
                            assert(new_s[a] == old_s[a]);
                            assert(new_s[b] == old_s[b - 1]);
                            assert(id_before(old_s[a].spec_id(), oid));
                        } else if a == i {
                            assert(new_s[b] == old_s[b - 1]);
                        } else {
                            assert(id_before(old_s[a - 1].spec_id(), old_s[b - 1].spec_id()));
                        }
                    }
                }
                assert forall|q: OsmId| #[trigger] find(new_s, q) == if q == oid { Some(o) } else { find(old_s, q) } by {
                    if q == oid {
                        lemma_find_at(new_s, i as int);
                    } else if exists|j: int| 0 <= j < old_s.len() && #[trigger] old_s[j].spec_id() == q {
                        let j = choose|j: int| 0 <= j < old_s.len() && #[trigger] old_s[j].spec_id() == q;
                        lemma_find_at(old_s, j);
                        if j < i {
                            lemma_find_at(new_s, j);
                        } else {
                            assert(new_s[j + 1] == old_s[j]);
                            lemma_find_at(new_s, j + 1);
                        }
                    } else {
                        assert forall|j: int| 0 <= j < new_s.len() implies #[trigger] new_s[j].spec_id() != q by {
                            if j < i {
                                assert(new_s[j] == old_s[j]);
                            } else if j > i {
                                assert(new_s[j] == old_s[j - 1]);
                            }
                        }
                    }
                }
            },
        }
        self.objs = objs;
    }
}

} // verus!
