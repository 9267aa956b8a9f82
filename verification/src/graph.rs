//! The entity graph: entities keyed by id and the references between them.
use vstd::prelude::*;
use crate::entity::{looks_like_test, SemanticEntity};
use crate::order::texts;

verus! {

/// The kind of a reference from one entity to another.
#[derive(Clone, Copy, Debug, PartialEq, Eq, Structural)]
pub enum RefType {
    Calls,
    Imports,
    TypeRef,
}

/// An entity of the graph.
#[derive(Debug)]
pub struct EntityInfo {
    pub id: String,
    pub name: String,
    pub entity_type: String,
    pub file_path: String,
    pub parent_id: Option<String>,
    pub start_line: usize,
    pub end_line: usize,
}

/// A reference from the entity `from_entity` to the entity `to_entity`.
#[derive(Debug)]
pub struct EntityRef {
    pub from_entity: String,
    pub to_entity: String,
    pub ref_type: RefType,
}

/// The entities of a code base (at most one per id) and the references between them.
pub struct EntityGraph {
    pub entities: Vec<EntityInfo>,
    pub edges: Vec<EntityRef>,
}

/// The references that leave one entity, by their positions among the graph's references.
pub struct OutgoingEdges {
    pub from_entity: String,
    pub positions: Vec<usize>,
}

/// `group` lists, in increasing order, exactly the positions of the references
/// that leave its entity.
pub open spec fn lists_outgoing(edges: Seq<EntityRef>, group: OutgoingEdges) -> bool {
    &&& forall|j: int| #![trigger group.positions@[j]] 0 <= j < group.positions@.len() ==> group.positions@[j] < edges.len()
        && edges[group.positions@[j] as int].from_entity@ == group.from_entity@
    &&& forall|j: int, l: int| 0 <= j < l < group.positions@.len() ==> #[trigger] group.positions@[j] < #[trigger] group.positions@[l]
    &&& forall|k: int| 0 <= k < edges.len() && #[trigger] edges[k].from_entity@ == group.from_entity@ ==> exists|j: int| 0 <= j < group.positions@.len() && group.positions@[j] == k
}

/// One group per entity that references leave, each listing exactly its
/// references; every group lists at least one reference.
pub open spec fn is_outgoing_index(edges: Seq<EntityRef>, index: Seq<OutgoingEdges>) -> bool {
    &&& forall|a: int, b: int| 0 <= a < b < index.len() ==> (#[trigger] index[a]).from_entity@ != (#[trigger] index[b]).from_entity@
    &&& forall|a: int| 0 <= a < index.len() ==> lists_outgoing(edges, #[trigger] index[a])
    &&& forall|a: int| 0 <= a < index.len() ==> (#[trigger] index[a]).positions@.len() > 0
    &&& forall|k: int| 0 <= k < edges.len() ==> #[trigger] has_group(index, edges[k].from_entity@)
}

/// Some group of the index is for the entity `id`.
pub open spec fn has_group(index: Seq<OutgoingEdges>, id: Seq<char>) -> bool {
    exists|a: int| 0 <= a < index.len() && #[trigger] index[a].from_entity@ == id
}

/// The group of the references that leave `from`.
fn outgoing_group(edges: &Vec<EntityRef>, from: String) -> (group: OutgoingEdges)
    ensures
        group.from_entity == from,
        lists_outgoing(edges@, group),
{
    let mut positions: Vec<usize> = Vec::new();
    let n = edges.len();
    for k in 0..n
        invariant
            n == edges.len(),
            forall|j: int| #![trigger positions@[j]] 0 <= j < positions@.len() ==> positions@[j] < k && edges@[positions@[j] as int].from_entity@ == from@,
            forall|j: int, l: int| 0 <= j < l < positions@.len() ==> #[trigger] positions@[j] < #[trigger] positions@[l],
            forall|m: int| 0 <= m < k && #[trigger] edges@[m].from_entity@ == from@ ==> exists|j: int| 0 <= j < positions@.len() && positions@[j] == m,
    {
        if edges[k].from_entity == from {
            let ghost before = positions@;
            positions.push(k);
            assert forall|m: int| 0 <= m < k + 1 && #[trigger] edges@[m].from_entity@ == from@ implies exists|j: int| 0 <= j < positions@.len() && positions@[j] == m by {
                if m < k {
                    let j = choose|j: int| 0 <= j < before.len() && before[j] == m;
                    assert(positions@[j] == m);
                } else {
                    assert(positions@[positions@.len() - 1] == m);
                }
            }
        }
    }
    OutgoingEdges { from_entity: from, positions }
}

/// The position of the group of references that leave `id`.
pub fn find_group(index: &Vec<OutgoingEdges>, id: &String) -> (r: Option<usize>)
    ensures
        r matches Some(a) ==> a < index@.len() && index@[a as int].from_entity@ == id@,
        r is None ==> forall|a: int| 0 <= a < index@.len() ==> (#[trigger] index@[a]).from_entity@ != id@,
{
    let n = index.len();
    for a in 0..n
        invariant
            n == index.len(),
            forall|b: int| 0 <= b < a ==> (#[trigger] index@[b]).from_entity@ != id@,
    {
        if index[a].from_entity == *id {
            return Some(a);
        }
    }
    None
}

/// Groups the references by the entity they leave.
pub fn build_outgoing_edges(edges: &Vec<EntityRef>) -> (index: Vec<OutgoingEdges>)
    ensures
        is_outgoing_index(edges@, index@),
{
    let mut index: Vec<OutgoingEdges> = Vec::new();
    let n = edges.len();
    let mut k: usize = 0;
    while k < n
        invariant
            n == edges.len(),
            k <= n,
            forall|a: int, b: int| 0 <= a < b < index@.len() ==> (#[trigger] index@[a]).from_entity@ != (#[trigger] index@[b]).from_entity@,
            forall|a: int| 0 <= a < index@.len() ==> lists_outgoing(edges@, #[trigger] index@[a]),
            forall|a: int| 0 <= a < index@.len() ==> (#[trigger] index@[a]).positions@.len() > 0,
            forall|m: int| 0 <= m < k ==> #[trigger] has_group(index@, edges@[m].from_entity@),
        decreases n - k,
    {
        let from = &edges[k].from_entity;
        match find_group(&index, from) {
            Some(found) => {
                assert(index@[found as int].from_entity@ == edges@[k as int].from_entity@);
                assert forall|m: int| 0 <= m < k + 1 implies #[trigger] has_group(index@, edges@[m].from_entity@) by {
                    if m == k {
                        assert(index@[found as int].from_entity@ == edges@[m].from_entity@);
                    }
                }
            },
            None => {
                let ghost before = index@;
                let group = outgoing_group(edges, from.clone());
                assert(edges@[k as int].from_entity@ == group.from_entity@);
                assert(group.positions@.len() > 0);
                index.push(group);
                assert(index@[index@.len() - 1].from_entity@ == edges@[k as int].from_entity@);
                assert forall|m: int| 0 <= m < k + 1 implies #[trigger] has_group(index@, edges@[m].from_entity@) by {
                    if m < k {
                        assert(has_group(before, edges@[m].from_entity@));
                        let a = choose|a: int| 0 <= a < before.len() && #[trigger] before[a].from_entity@ == edges@[m].from_entity@;
                        assert(index@[a] == before[a]);
                    } else {
                        assert(index@[index@.len() - 1].from_entity@ == edges@[m].from_entity@);
                    }
                }
                assert forall|a: int| 0 <= a < index@.len() implies lists_outgoing(edges@, #[trigger] index@[a]) by {
                    if a < before.len() {
                        assert(index@[a] == before[a]);
                    }
                }
                assert forall|a: int| 0 <= a < index@.len() implies (#[trigger] index@[a]).positions@.len() > 0 by {
                    if a < before.len() {
                        assert(index@[a] == before[a]);
                    }
                }
                assert forall|a: int, b: int| 0 <= a < b < index@.len() implies (#[trigger] index@[a]).from_entity@ != (#[trigger] index@[b]).from_entity@ by {
                    assert(index@[a] == before[a]);
                    if b < before.len() {
                        assert(index@[b] == before[b]);
                    }
                }
            },
        }
        k = k + 1;
    }
    index
}

/// A later entity of `s` has the same id as the one at `i`.
pub open spec fn superseded(s: Seq<EntityInfo>, i: int) -> bool {
    exists|j: int| i < j < s.len() && #[trigger] s[j].id@ == s[i].id@
}

/// The entities among the first `n` of `s` that no later entity of `s` replaces,
/// in their order: what a map keyed by id keeps when the entities are inserted in order.
pub open spec fn latest_by_id(s: Seq<EntityInfo>, n: int) -> Seq<EntityInfo>
    decreases n,
{
    if n <= 0 {
        Seq::empty()
    } else if superseded(s, n - 1) {
        latest_by_id(s, n - 1)
    } else {
        latest_by_id(s, n - 1).push(s[n - 1])
    }
}

/// No two entities share an id.
pub open spec fn ids_unique(s: Seq<EntityInfo>) -> bool {
    forall|i: int, j: int| 0 <= i < j < s.len() ==> s[i].id@ != s[j].id@
}

/// The position of the first entity with the given id, or -1.
pub open spec fn entity_index(s: Seq<EntityInfo>, id: Seq<char>) -> int
    decreases s.len(),
{
    if s.len() == 0 {
        -1
    } else if s[0].id@ == id {
        0
    } else {
        let rest = entity_index(s.drop_first(), id);
        if rest < 0 {
            -1
        } else {
            rest + 1
        }
    }
}

/// The number of references that leave the entity `id`: the library's model
/// of an entity's dependency count (references are counted, not distinct targets).
pub open spec fn count_edges_from(edges: Seq<EntityRef>, id: Seq<char>) -> nat
    decreases edges.len(),
{
    if edges.len() == 0 {
        0
    } else {
        count_edges_from(edges.drop_last(), id) + if edges.last().from_entity@ == id {
            1nat
        } else {
            0nat
        }
    }
}

/// The number of references that reach the entity `id`: the library's model
/// of an entity's dependent count (references are counted, not distinct sources).
pub open spec fn count_edges_to(edges: Seq<EntityRef>, id: Seq<char>) -> nat
    decreases edges.len(),
{
    if edges.len() == 0 {
        0
    } else {
        count_edges_to(edges.drop_last(), id) + if edges.last().to_entity@ == id {
            1nat
        } else {
            0nat
        }
    }
}

/// Some parsed entity with this id looks like a test.
pub open spec fn is_test_id(all: Seq<SemanticEntity>, id: Seq<char>) -> bool {
    exists|k: int| 0 <= k < all.len() && #[trigger] all[k].id@ == id && looks_like_test(all[k].name@, all[k].content@)
}

/// A copy of an optional string.
pub fn clone_optional(o: &Option<String>) -> (r: Option<String>)
    ensures
        r == *o,
{
    match o {
        Some(s) => Some(s.clone()),
        None => None,
    }
}

/// The position of the first entity of `entities` with the given id.
pub fn find_entity(entities: &Vec<EntityInfo>, id: &String) -> (r: Option<usize>)
    ensures
        r matches Some(i) ==> i == entity_index(entities@, id@) && i < entities@.len(),
        r is None ==> entity_index(entities@, id@) == -1,
{
    let n = entities.len();
    let mut i: usize = 0;
    assert(entities@.skip(0) =~= entities@);
    while i < n
        invariant
            n == entities.len(),
            i <= n,
            entity_index(entities@, id@) == if entity_index(entities@.skip(i as int), id@) < 0 {
                -1
            } else {
                entity_index(entities@.skip(i as int), id@) + i
            },
        decreases n - i,
    {
        assert(entities@.skip(i as int)[0] == entities@[i as int]);
        assert(entities@.skip(i as int).drop_first() =~= entities@.skip(i + 1));
        if entities[i].id == *id {
            return Some(i);
        }
        i = i + 1;
    }
    assert(entities@.skip(n as int).len() == 0);
    None
}

/// Every entity kept by `latest_by_id` is one that no later entity replaces, and
/// the kept entities have distinct ids.
pub proof fn lemma_latest_by_id(s: Seq<EntityInfo>, n: int)
    requires
        0 <= n <= s.len(),
    ensures
        ids_unique(latest_by_id(s, n)),
        forall|a: int| #![trigger latest_by_id(s, n)[a]] 0 <= a < latest_by_id(s, n).len() ==> exists|b: int| 0 <= b < n && !superseded(s, b) && latest_by_id(s, n)[a] == #[trigger] s[b],
    decreases n,
{
    if n > 0 {
        lemma_latest_by_id(s, n - 1);
        let prev = latest_by_id(s, n - 1);
        if !superseded(s, n - 1) {
            let cur = latest_by_id(s, n);
            assert(cur == prev.push(s[n - 1]));
            assert forall|a: int| #![trigger cur[a]] 0 <= a < cur.len() implies exists|b: int| 0 <= b < n && !superseded(s, b) && cur[a] == #[trigger] s[b] by {
                if a < prev.len() {
                    assert(cur[a] == prev[a]);
                    let b = choose|b: int| 0 <= b < n - 1 && !superseded(s, b) && prev[a] == #[trigger] s[b];
                    assert(cur[a] == s[b]);
                } else {
                    assert(cur[a] == s[n - 1]);
                }
            }
            assert forall|a: int, c: int| 0 <= a < c < cur.len() implies cur[a].id@ != cur[c].id@ by {
                if c == cur.len() - 1 {
                    assert(prev[a] == cur[a]);
                    let b = choose|b: int| 0 <= b < n - 1 && !superseded(s, b) && prev[a] == #[trigger] s[b];
                    if cur[a].id@ == cur[c].id@ {
                        assert(s[n - 1].id@ == s[b].id@);
                        assert(superseded(s, b));
                    }
                } else {
                    assert(prev[a] == cur[a]);
                    assert(prev[c] == cur[c]);
                }
            }
        }
    }
}

impl EntityGraph {
    /// Builds a graph from its entities and references.  Where several entities
    /// share an id the last one is kept, as a map keyed by id keeps it.
    pub fn from_parts(entities: Vec<EntityInfo>, edges: Vec<EntityRef>) -> (g: Self)
        ensures
            g.entities@ == latest_by_id(entities@, entities@.len() as int),
            g.edges@ == edges@,
            ids_unique(g.entities@),
    {
        let ghost given = entities@;
        let mut rest = entities;
        let mut kept: Vec<EntityInfo> = Vec::new();
        let n = rest.len();
        let mut i: usize = 0;
        while i < n
            invariant
                n == given.len(),
                i <= n,
                rest@ == given.skip(i as int),
                kept@ == latest_by_id(given, i as int),
            decreases n - i,
        {
            let e = rest.remove(0);
            assert(e == given[i as int]);
            assert(rest@ =~= given.skip(i + 1));
            let mut later = false;
            let m = rest.len();
            let mut j: usize = 0;
            while j < m
                invariant
                    n == given.len(),
                    i < n,
                    m == rest.len(),
                    j <= m,
                    rest@ == given.skip(i + 1),
                    e == given[i as int],
                    !later ==> forall|k: int| 0 <= k < j ==> rest@[k].id@ != e.id@,
                    later ==> superseded(given, i as int),
                decreases m - j,
            {
                if rest[j].id == e.id {
                    assert(rest@[j as int] == given[i + 1 + j]);
                    assert(given[i + 1 + j].id@ == given[i as int].id@);
                    later = true;
                }
                j = j + 1;
            }
            if !later {
                assert(!superseded(given, i as int)) by {
                    if superseded(given, i as int) {
                        let j = choose|j: int| i < j < given.len() && #[trigger] given[j].id@ == given[i as int].id@;
                        assert(rest@[j - i - 1] == given[j]);
                    }
                }
                kept.push(e);
            }
            i = i + 1;
        }
        assert(rest@.len() == 0);
        proof {
            lemma_latest_by_id(given, n as int);
        }
        EntityGraph { entities: kept, edges }
    }

    /// The number of references that leave the entity `id`.
    pub fn dependency_count(&self, id: &String) -> (n: usize)
        ensures
            n == count_edges_from(self.edges@, id@),
    {
        let m = self.edges.len();
        let mut n: usize = 0;
        for i in 0..m
            invariant
                m == self.edges.len(),
                n == count_edges_from(self.edges@.take(i as int), id@),
                n <= i,
        {
            assert(self.edges@.take(i + 1).drop_last() =~= self.edges@.take(i as int));
            if self.edges[i].from_entity == *id {
                n = n + 1;
            }
        }
        assert(self.edges@.take(m as int) =~= self.edges@);
        n
    }

    /// The number of references that reach the entity `id`.
    pub fn dependent_count(&self, id: &String) -> (n: usize)
        ensures
            n == count_edges_to(self.edges@, id@),
    {
        let m = self.edges.len();
        let mut n: usize = 0;
        for i in 0..m
            invariant
                m == self.edges.len(),
                n == count_edges_to(self.edges@.take(i as int), id@),
                n <= i,
        {
            assert(self.edges@.take(i + 1).drop_last() =~= self.edges@.take(i as int));
            if self.edges[i].to_entity == *id {
                n = n + 1;
            }
        }
        assert(self.edges@.take(m as int) =~= self.edges@);
        n
    }

    /// The ids of the parsed entities that look like tests (an id may repeat).
    pub fn filter_test_entities(&self, all_entities: &Vec<SemanticEntity>) -> (ids: Vec<String>)
        ensures
            forall|id: Seq<char>| texts(ids@).contains(id) <==> is_test_id(all_entities@, id),
    {
        let mut ids: Vec<String> = Vec::new();
        let n = all_entities.len();
        let ghost all = all_entities@;
        let mut k: usize = 0;
        while k < n
            invariant
                n == all.len(),
                all == all_entities@,
                k <= n,
                forall|id: Seq<char>| #[trigger] listed(ids@, id) <==> test_among_first(all, id, k as int),
            decreases n - k,
        {
            let ghost before = ids@;
            let test_like = all_entities[k].is_test_like();
            if test_like {
                ids.push(all_entities[k].id.clone());
            }
            assert forall|id: Seq<char>| #[trigger] listed(ids@, id) <==> test_among_first(all, id, k + 1) by {
                if listed(ids@, id) {
                    let a = choose|a: int| 0 <= a < ids@.len() && #[trigger] ids@[a]@ == id;
                    if a < before.len() {
                        assert(before[a] == ids@[a]);
                        assert(listed(before, id));
                        let w = choose|w: int| 0 <= w < k && #[trigger] all[w].id@ == id && looks_like_test(all[w].name@, all[w].content@);
                    } else {
                        assert(all[k as int].id@ == id);
                    }
                }
                if test_among_first(all, id, k + 1) {
                    let w = choose|w: int| 0 <= w < k + 1 && #[trigger] all[w].id@ == id && looks_like_test(all[w].name@, all[w].content@);
                    if w < k {
                        assert(test_among_first(all, id, k as int));
                        assert(listed(before, id));
                        let a = choose|a: int| 0 <= a < before.len() && #[trigger] before[a]@ == id;
                        assert(ids@[a] == before[a]);
                    } else {
                        assert(ids@[ids@.len() - 1]@ == id);
                    }
                }
            }
            k = k + 1;
        }
        assert forall|id: Seq<char>| texts(ids@).contains(id) <==> is_test_id(all_entities@, id) by {
            if texts(ids@).contains(id) {
                let a = choose|a: int| 0 <= a < texts(ids@).len() && texts(ids@)[a] == id;
                assert(ids@[a]@ == id);
                assert(listed(ids@, id));
            }
            if is_test_id(all_entities@, id) {
                assert(test_among_first(all, id, n as int));
                assert(listed(ids@, id));
                let a = choose|a: int| 0 <= a < ids@.len() && #[trigger] ids@[a]@ == id;
                assert(texts(ids@)[a] == id);
            }
        }
        ids
    }
}

/// Some string of `ids` has the text `id`.
pub open spec fn listed(ids: Seq<String>, id: Seq<char>) -> bool {
    exists|a: int| 0 <= a < ids.len() && #[trigger] ids[a]@ == id
}

/// One of the first `k` parsed entities has the id `id` and looks like a test.
pub open spec fn test_among_first(all: Seq<SemanticEntity>, id: Seq<char>, k: int) -> bool {
    exists|w: int| 0 <= w < k && #[trigger] all[w].id@ == id && looks_like_test(all[w].name@, all[w].content@)
}

} // verus!
