//! Running a query over a graph: which entities match, what is reported of
//! each, and in which order.
use vstd::prelude::*;
use crate::entity::SemanticEntity;
use crate::graph::{
    build_outgoing_edges, find_group, has_group, is_outgoing_index, lists_outgoing, OutgoingEdges,
    clone_optional, count_edges_from, count_edges_to, entity_index, find_entity, is_test_id,
    EntityGraph, EntityInfo,
};
use crate::grep::{validation, GrepQuery, GrepRefKind, GrepValidationError, QueryView};
use crate::order::{
    contains_text, insert_sorted_text, opt_text, lemma_sorted_text_set, lemma_text_lt_asymmetric,
    lemma_text_lt_irreflexive, lemma_text_lt_total, lemma_text_lt_transitive, sorted_text_set,
    str_less, strictly_sorted, text_lt, texts,
};
use crate::text::{equal_ignoring_ascii_case, equals_ignore_ascii_case, matches_text, text_matches};

verus! {

broadcast use vstd::seq_lib::group_to_multiset_ensures;

/// One entity that matched a query.
#[derive(Debug, Clone, PartialEq, Eq)]
pub struct GrepMatch {
    pub name: String,
    pub entity_type: String,
    pub file_path: String,
    pub start_line: usize,
    pub end_line: usize,
    pub parent_id: Option<String>,
    pub dependency_count: usize,
    pub dependent_count: usize,
    pub is_test: bool,
    pub matched_dependencies: Vec<String>,
}

/// What a match reports, as plain values.
pub struct GrepMatchView {
    pub name: Seq<char>,
    pub entity_type: Seq<char>,
    pub file_path: Seq<char>,
    pub start_line: nat,
    pub end_line: nat,
    pub parent_id: Option<Seq<char>>,
    pub dependency_count: nat,
    pub dependent_count: nat,
    pub is_test: bool,
    pub matched_dependencies: Seq<Seq<char>>,
}

impl View for GrepMatch {
    type V = GrepMatchView;

    open spec fn view(&self) -> GrepMatchView {
        GrepMatchView {
            name: self.name@,
            entity_type: self.entity_type@,
            file_path: self.file_path@,
            start_line: self.start_line as nat,
            end_line: self.end_line as nat,
            parent_id: opt_text(self.parent_id),
            dependency_count: self.dependency_count as nat,
            dependent_count: self.dependent_count as nat,
            is_test: self.is_test,
            matched_dependencies: texts(self.matched_dependencies@),
        }
    }
}

/// The views of a sequence of matches.
pub open spec fn match_views(s: Seq<GrepMatch>) -> Seq<GrepMatchView> {
    s.map_values(|m: GrepMatch| m@)
}

// ---------------------------------------------------------------------
// Which entities match
// ---------------------------------------------------------------------

/// The position of the last parsed entity with the given id, or -1: the
/// source text of a graph entity is taken from there.
pub open spec fn source_index(all: Seq<SemanticEntity>, id: Seq<char>) -> int
    decreases all.len(),
{
    if all.len() == 0 {
        -1
    } else if all.last().id@ == id {
        all.len() - 1
    } else {
        source_index(all.drop_last(), id)
    }
}

/// Without a pattern everything passes; with one, the name must match it, or,
/// when content is searched, the source text must.
pub open spec fn pattern_accepts(
    name: Seq<char>,
    content: Seq<char>,
    pattern: Option<Seq<char>>,
    search_content: bool,
    case_sensitive: bool,
) -> bool {
    match pattern {
        None => true,
        Some(p) => text_matches(name, p, case_sensitive) || (search_content && text_matches(
            content,
            p,
            case_sensitive,
        )),
    }
}

/// An entity type equals a type filter: exactly, or ignoring ASCII case.
pub open spec fn type_equals(value: Seq<char>, filter: Seq<char>, case_sensitive: bool) -> bool {
    if case_sensitive {
        value == filter
    } else {
        equal_ignoring_ascii_case(value, filter)
    }
}

/// No type filter, or the entity type equals one of them.
pub open spec fn types_accept(value: Seq<char>, filters: Seq<Seq<char>>, case_sensitive: bool) -> bool {
    filters.len() == 0 || exists|i: int| 0 <= i < filters.len() && type_equals(value, #[trigger] filters[i], case_sensitive)
}

/// No path filter, or the file path matches it.
pub open spec fn path_accepts(path: Seq<char>, path_substring: Option<Seq<char>>, case_sensitive: bool) -> bool {
    match path_substring {
        None => true,
        Some(p) => text_matches(path, p, case_sensitive),
    }
}

/// No kind restriction, or the reference is of that kind.
pub open spec fn kind_accepts(kind: Option<GrepRefKind>, ref_type: crate::graph::RefType) -> bool {
    match kind {
        None => true,
        Some(k) => k.accepts(ref_type),
    }
}

/// The name matches one of the patterns.
pub open spec fn any_pattern_matches(name: Seq<char>, patterns: Seq<Seq<char>>, case_sensitive: bool) -> bool {
    exists|i: int| 0 <= i < patterns.len() && text_matches(name, #[trigger] patterns[i], case_sensitive)
}

/// The reference at `k` leaves `id` (of an accepted kind) for an entity of the
/// graph called `name`, and `name` matches one of the patterns.
pub open spec fn dependency_via(
    g: EntityGraph,
    id: Seq<char>,
    patterns: Seq<Seq<char>>,
    kind: Option<GrepRefKind>,
    case_sensitive: bool,
    k: int,
    name: Seq<char>,
) -> bool {
    let edge = g.edges@[k];
    let target = entity_index(g.entities@, edge.to_entity@);
    &&& 0 <= k < g.edges@.len()
    &&& edge.from_entity@ == id
    &&& kind_accepts(kind, edge.ref_type)
    &&& target >= 0
    &&& g.entities@[target].name@ == name
    &&& any_pattern_matches(name, patterns, case_sensitive)
}

/// The names of the entities that `id` refers to (by an accepted kind) and
/// that match one of the patterns.
pub open spec fn dependency_names(
    g: EntityGraph,
    id: Seq<char>,
    patterns: Seq<Seq<char>>,
    kind: Option<GrepRefKind>,
    case_sensitive: bool,
) -> Set<Seq<char>> {
    Set::new(|name: Seq<char>| exists|k: int| 0 <= k < g.edges@.len() && #[trigger] dependency_via(g, id, patterns, kind, case_sensitive, k, name))
}

/// The dependency names reported for `id`: none without `depends_on`, else
/// the dependency names in increasing order.
pub open spec fn matched_names(g: EntityGraph, id: Seq<char>, q: QueryView) -> Seq<Seq<char>> {
    if q.depends_on.len() == 0 {
        Seq::empty()
    } else {
        sorted_text_set(dependency_names(g, id, q.depends_on, q.ref_kind, q.case_sensitive))
    }
}

/// The graph entity `e` passes the query.
pub open spec fn qualifies(g: EntityGraph, all: Seq<SemanticEntity>, q: QueryView, e: EntityInfo) -> bool {
    let src = source_index(all, e.id@);
    &&& src >= 0
    &&& pattern_accepts(e.name@, all[src].content@, q.pattern, q.content, q.case_sensitive)
    &&& types_accept(e.entity_type@, q.entity_types, q.case_sensitive)
    &&& path_accepts(e.file_path@, q.path_substring, q.case_sensitive)
    &&& (q.tests ==> is_test_id(all, e.id@))
    &&& (q.min_dependencies matches Some(m) ==> count_edges_from(g.edges@, e.id@) >= m)
    &&& (q.min_dependents matches Some(m) ==> count_edges_to(g.edges@, e.id@) >= m)
    &&& (q.depends_on.len() > 0 ==> matched_names(g, e.id@, q).len() > 0)
}

/// What is reported of a matching entity.
pub open spec fn describe(g: EntityGraph, all: Seq<SemanticEntity>, q: QueryView, e: EntityInfo) -> GrepMatchView {
    GrepMatchView {
        name: e.name@,
        entity_type: e.entity_type@,
        file_path: e.file_path@,
        start_line: e.start_line as nat,
        end_line: e.end_line as nat,
        parent_id: opt_text(e.parent_id),
        dependency_count: count_edges_from(g.edges@, e.id@),
        dependent_count: count_edges_to(g.edges@, e.id@),
        is_test: q.tests && is_test_id(all, e.id@),
        matched_dependencies: matched_names(g, e.id@, q),
    }
}

/// The reports of the matching entities among the first `n` of the graph, in graph order.
pub open spec fn expected_prefix(g: EntityGraph, all: Seq<SemanticEntity>, q: QueryView, n: int) -> Seq<GrepMatchView>
    decreases n,
{
    if n <= 0 {
        Seq::empty()
    } else {
        let prev = expected_prefix(g, all, q, n - 1);
        let e = g.entities@[n - 1];
        if qualifies(g, all, q, e) {
            prev.push(describe(g, all, q, e))
        } else {
            prev
        }
    }
}

/// The reports of all matching entities, in graph order.
pub open spec fn expected_matches(g: EntityGraph, all: Seq<SemanticEntity>, q: QueryView) -> Seq<GrepMatchView> {
    expected_prefix(g, all, q, g.entities@.len() as int)
}

// ---------------------------------------------------------------------
// Order of the results
// ---------------------------------------------------------------------

/// `a` comes before `b` by file path, then start line, end line and name.
pub open spec fn location_lt(a: GrepMatchView, b: GrepMatchView) -> bool {
    ||| text_lt(a.file_path, b.file_path)
    ||| (a.file_path == b.file_path && a.start_line < b.start_line)
    ||| (a.file_path == b.file_path && a.start_line == b.start_line && a.end_line < b.end_line)
    ||| (a.file_path == b.file_path && a.start_line == b.start_line && a.end_line == b.end_line
        && text_lt(a.name, b.name))
}

/// Same file path, lines and name.
pub open spec fn same_location(a: GrepMatchView, b: GrepMatchView) -> bool {
    a.file_path == b.file_path && a.start_line == b.start_line && a.end_line == b.end_line && a.name
        == b.name
}

/// No match comes after a later one.
pub open spec fn sorted_by_location(s: Seq<GrepMatchView>) -> bool {
    forall|i: int, j: int| 0 <= i < j < s.len() ==> !location_lt(#[trigger] s[j], #[trigger] s[i])
}

/// The location order is transitive.
pub proof fn lemma_location_lt_transitive(a: GrepMatchView, b: GrepMatchView, c: GrepMatchView)
    requires
        location_lt(a, b),
        location_lt(b, c),
    ensures
        location_lt(a, c),
{
    if text_lt(a.file_path, b.file_path) && text_lt(b.file_path, c.file_path) {
        lemma_text_lt_transitive(a.file_path, b.file_path, c.file_path);
    }
    if a.file_path == b.file_path && b.file_path == c.file_path && a.start_line == b.start_line
        && b.start_line == c.start_line && a.end_line == b.end_line && b.end_line == c.end_line
        && text_lt(a.name, b.name) && text_lt(b.name, c.name) {
        lemma_text_lt_transitive(a.name, b.name, c.name);
    }
}

/// No match comes before itself, and of two matches at least one does not
/// come before the other.
pub proof fn lemma_location_lt_asymmetric(a: GrepMatchView, b: GrepMatchView)
    requires
        location_lt(a, b),
    ensures
        !location_lt(b, a),
{
    lemma_text_lt_irreflexive(a.file_path);
    lemma_text_lt_irreflexive(a.name);
    if text_lt(a.file_path, b.file_path) {
        lemma_text_lt_asymmetric(a.file_path, b.file_path);
    }
    if text_lt(a.name, b.name) {
        lemma_text_lt_asymmetric(a.name, b.name);
    }
}

/// Of two matches at different locations, one comes before the other.
pub proof fn lemma_location_lt_total(a: GrepMatchView, b: GrepMatchView)
    requires
        !same_location(a, b),
    ensures
        location_lt(a, b) || location_lt(b, a),
{
    if a.file_path != b.file_path {
        lemma_text_lt_total(a.file_path, b.file_path);
    } else if a.name != b.name {
        lemma_text_lt_total(a.name, b.name);
    }
}

/// `location_lt` of two matches.
fn location_less(a: &GrepMatch, b: &GrepMatch) -> (r: bool)
    ensures
        r == location_lt(a@, b@),
{
    if str_less(a.file_path.as_str(), b.file_path.as_str()) {
        return true;
    }
    if a.file_path != b.file_path {
        return false;
    }
    if a.start_line != b.start_line {
        return a.start_line < b.start_line;
    }
    if a.end_line != b.end_line {
        return a.end_line < b.end_line;
    }
    str_less(a.name.as_str(), b.name.as_str())
}

/// Adds `m` to a vector of matches sorted by location, after the matches at
/// its own location, keeping the vector sorted.
fn insert_by_location(v: &mut Vec<GrepMatch>, m: GrepMatch)
    requires
        sorted_by_location(match_views(old(v)@)),
    ensures
        sorted_by_location(match_views(final(v)@)),
        match_views(final(v)@).to_multiset() == match_views(old(v)@).to_multiset().insert(m@),
{
    let ghost old_views = match_views(v@);
    let mut pos = v.len();
    while pos > 0 && location_less(&m, &v[pos - 1])
        invariant
            v@ == old(v)@,
            old_views == match_views(old(v)@),
            pos <= v.len(),
            forall|k: int| pos <= k < v.len() ==> location_lt(m@, #[trigger] old_views[k]),
        decreases pos,
    {
        assert(old_views[pos - 1] == v@[pos - 1]@);
        pos = pos - 1;
    }
    assert forall|k: int| 0 <= k < pos implies !location_lt(m@, #[trigger] old_views[k]) by {
        let p = old_views[pos - 1];
        assert(!location_lt(m@, p));
        if location_lt(m@, old_views[k]) && k < pos - 1 {
            assert(!location_lt(p, old_views[k]));
            if same_location(old_views[k], p) {
            } else {
                lemma_location_lt_total(old_views[k], p);
                lemma_location_lt_transitive(m@, old_views[k], p);
            }
        }
    }
    let ghost mv = m@;
    v.insert(pos, m);
    let ghost new_views = match_views(v@);
    assert(new_views =~= old_views.insert(pos as int, mv));
    assert forall|i: int, j: int| 0 <= i < j < new_views.len() implies !location_lt(
        #[trigger] new_views[j],
        #[trigger] new_views[i],
    ) by {
        if j < pos {
        } else if j == pos {
        } else if i < pos {
            assert(new_views[j] == old_views[j - 1]);
        } else if i == pos {
            assert(new_views[j] == old_views[j - 1]);
            lemma_location_lt_asymmetric(mv, old_views[j - 1]);
        } else {
            assert(new_views[i] == old_views[i - 1]);
            assert(new_views[j] == old_views[j - 1]);
        }
    }
    proof {
        vstd::seq_lib::to_multiset_insert(old_views, pos as int, mv);
    }
}

// ---------------------------------------------------------------------
// Checks on one entity
// ---------------------------------------------------------------------

/// The position of the last parsed entity with the given id.
fn find_source(all: &Vec<SemanticEntity>, id: &String) -> (r: Option<usize>)
    ensures
        r matches Some(k) ==> k == source_index(all@, id@) && k < all@.len(),
        r is None ==> source_index(all@, id@) == -1,
{
    let mut k = all.len();
    assert(all@.take(k as int) =~= all@);
    while k > 0
        invariant
            k <= all.len(),
            source_index(all@, id@) == source_index(all@.take(k as int), id@),
        decreases k,
    {
        assert(all@.take(k as int).drop_last() =~= all@.take(k - 1));
        assert(all@.take(k as int).last() == all@[k - 1]);
        if all[k - 1].id == *id {
            return Some(k - 1);
        }
        k = k - 1;
    }
    None
}

/// Whether the pattern (if any) matches the name, or, when content is
/// searched, the source text.
pub fn matches_pattern(
    name: &String,
    content: &String,
    pattern: &Option<String>,
    search_content: bool,
    case_sensitive: bool,
) -> (r: bool)
    ensures
        r == pattern_accepts(name@, content@, opt_text(*pattern), search_content, case_sensitive),
{
    match pattern {
        None => true,
        Some(p) => matches_text(name.as_str(), p.as_str(), case_sensitive) || (search_content
            && matches_text(content.as_str(), p.as_str(), case_sensitive)),
    }
}

/// Whether there is no type filter or `value` equals one of them (ignoring
/// ASCII case unless `case_sensitive`).
pub fn matches_type(value: &String, filters: &Vec<String>, case_sensitive: bool) -> (r: bool)
    ensures
        r == types_accept(value@, texts(filters@), case_sensitive),
{
    let n = filters.len();
    if n == 0 {
        return true;
    }
    for i in 0..n
        invariant
            n == filters.len(),
            forall|k: int| 0 <= k < i ==> !type_equals(value@, #[trigger] texts(filters@)[k], case_sensitive),
    {
        let equal = if case_sensitive {
            *value == filters[i]
        } else {
            equals_ignore_ascii_case(value.as_str(), filters[i].as_str())
        };
        if equal {
            assert(type_equals(value@, texts(filters@)[i as int], case_sensitive));
            return true;
        }
    }
    false
}

/// Whether `name` matches one of the patterns.
fn matches_any(name: &String, patterns: &Vec<String>, case_sensitive: bool) -> (r: bool)
    ensures
        r == any_pattern_matches(name@, texts(patterns@), case_sensitive),
{
    let n = patterns.len();
    for i in 0..n
        invariant
            n == patterns.len(),
            forall|k: int| 0 <= k < i ==> !text_matches(name@, #[trigger] texts(patterns@)[k], case_sensitive),
    {
        if matches_text(name.as_str(), patterns[i].as_str(), case_sensitive) {
            assert(text_matches(name@, texts(patterns@)[i as int], case_sensitive));
            return true;
        }
    }
    false
}

/// Whether a reference of type `ref_type` passes the kind restriction.
fn kind_allows(kind: Option<GrepRefKind>, ref_type: &crate::graph::RefType) -> (r: bool)
    ensures
        r == kind_accepts(kind, *ref_type),
{
    match kind {
        None => true,
        Some(k) => k.matches(ref_type),
    }
}

/// The names reached from `id` through the references at the first `n`
/// positions of `positions`.
pub open spec fn dependency_names_at(
    g: EntityGraph,
    id: Seq<char>,
    patterns: Seq<Seq<char>>,
    kind: Option<GrepRefKind>,
    case_sensitive: bool,
    positions: Seq<usize>,
    n: int,
) -> Set<Seq<char>> {
    Set::new(|name: Seq<char>| exists|j: int| 0 <= j < n && #[trigger] dependency_via(g, id, patterns, kind, case_sensitive, positions[j] as int, name))
}

/// The names of the entities that `entity` refers to (by a reference of kind
/// `ref_kind`, if given) and that match one of `depends_on`, in increasing
/// order and without repetition.
pub fn find_matching_dependencies(
    graph: &EntityGraph,
    entity: &EntityInfo,
    outgoing_edges: &Vec<OutgoingEdges>,
    depends_on: &Vec<String>,
    ref_kind: Option<GrepRefKind>,
    case_sensitive: bool,
) -> (names: Vec<String>)
    requires
        is_outgoing_index(graph.edges@, outgoing_edges@),
    ensures
        strictly_sorted(texts(names@)),
        texts(names@).to_set() == dependency_names(*graph, entity.id@, texts(depends_on@), ref_kind, case_sensitive),
{
    let mut names: Vec<String> = Vec::new();
    let ghost g = *graph;
    let ghost id = entity.id@;
    let ghost patterns = texts(depends_on@);
    let group = match find_group(outgoing_edges, &entity.id) {
        Some(a) => a,
        None => {
            assert(texts(names@).to_set() =~= dependency_names(g, id, patterns, ref_kind, case_sensitive)) by {
                assert forall|name: Seq<char>| !dependency_names(g, id, patterns, ref_kind, case_sensitive).contains(name) by {
                    if dependency_names(g, id, patterns, ref_kind, case_sensitive).contains(name) {
                        let k = choose|k: int| 0 <= k < g.edges@.len() && #[trigger] dependency_via(g, id, patterns, ref_kind, case_sensitive, k, name);
                        assert(has_group(outgoing_edges@, graph.edges@[k].from_entity@));
                        let a = choose|a: int| 0 <= a < outgoing_edges@.len() && #[trigger] outgoing_edges@[a].from_entity@ == graph.edges@[k].from_entity@;
                        assert(outgoing_edges@[a].from_entity@ != id);
                    }
                }
            }
            return names;
        },
    };
    let positions = &outgoing_edges[group].positions;
    assert(lists_outgoing(graph.edges@, outgoing_edges@[group as int]));
    let n = positions.len();
    assert(texts(names@).to_set() =~= dependency_names_at(g, id, patterns, ref_kind, case_sensitive, positions@, 0));
    for j in 0..n
        invariant
            n == positions.len(),
            g == *graph,
            id == entity.id@,
            patterns == texts(depends_on@),
            forall|i: int| #![trigger positions@[i]] 0 <= i < positions@.len() ==> positions@[i] < graph.edges@.len() && graph.edges@[positions@[i] as int].from_entity@ == id,
            strictly_sorted(texts(names@)),
            texts(names@).to_set() == dependency_names_at(g, id, patterns, ref_kind, case_sensitive, positions@, j as int),
    {
        let ghost before = dependency_names_at(g, id, patterns, ref_kind, case_sensitive, positions@, j as int);
        let ghost after = dependency_names_at(g, id, patterns, ref_kind, case_sensitive, positions@, j + 1);
        let k = positions[j];
        let edge = &graph.edges[k];
        let mut found: Option<usize> = None;
        if kind_allows(ref_kind, &edge.ref_type) {
            found = find_entity(&graph.entities, &edge.to_entity);
        }
        let mut added = false;
        if let Some(t) = found {
            let target = &graph.entities[t];
            if matches_any(&target.name, depends_on, case_sensitive) {
                let ghost name = target.name@;
                assert(dependency_via(g, id, patterns, ref_kind, case_sensitive, k as int, name));
                insert_sorted_text(&mut names, target.name.clone());
                added = true;
                assert forall|x: Seq<char>| after.contains(x) <==> before.insert(name).contains(x) by {
                    if after.contains(x) {
                        let i = choose|i: int| 0 <= i < j + 1 && #[trigger] dependency_via(g, id, patterns, ref_kind, case_sensitive, positions@[i] as int, x);
                        if i < j {
                            assert(before.contains(x));
                        }
                    }
                    if before.contains(x) {
                        let i = choose|i: int| 0 <= i < j && #[trigger] dependency_via(g, id, patterns, ref_kind, case_sensitive, positions@[i] as int, x);
                        assert(dependency_via(g, id, patterns, ref_kind, case_sensitive, positions@[i] as int, x));
                    }
                    if x == name {
                        assert(dependency_via(g, id, patterns, ref_kind, case_sensitive, positions@[j as int] as int, x));
                    }
                }
                assert(after =~= before.insert(name));
            }
        }
        if !added {
            assert forall|x: Seq<char>| after.contains(x) <==> before.contains(x) by {
                if after.contains(x) {
                    let i = choose|i: int| 0 <= i < j + 1 && #[trigger] dependency_via(g, id, patterns, ref_kind, case_sensitive, positions@[i] as int, x);
                    if i == j {
                        assert(false);
                    }
                }
                if before.contains(x) {
                    let i = choose|i: int| 0 <= i < j && #[trigger] dependency_via(g, id, patterns, ref_kind, case_sensitive, positions@[i] as int, x);
                    assert(dependency_via(g, id, patterns, ref_kind, case_sensitive, positions@[i] as int, x));
                }
            }
            assert(after =~= before);
        }
    }
    assert(dependency_names_at(g, id, patterns, ref_kind, case_sensitive, positions@, n as int) =~= dependency_names(g, id, patterns, ref_kind, case_sensitive)) by {
        assert forall|name: Seq<char>| dependency_names(g, id, patterns, ref_kind, case_sensitive).contains(name) implies dependency_names_at(g, id, patterns, ref_kind, case_sensitive, positions@, n as int).contains(name) by {
            let k = choose|k: int| 0 <= k < g.edges@.len() && #[trigger] dependency_via(g, id, patterns, ref_kind, case_sensitive, k, name);
            assert(graph.edges@[k].from_entity@ == outgoing_edges@[group as int].from_entity@);
            let i = choose|i: int| 0 <= i < positions@.len() && positions@[i] == k;
            assert(dependency_via(g, id, patterns, ref_kind, case_sensitive, positions@[i] as int, name));
        }
        assert forall|name: Seq<char>| dependency_names_at(g, id, patterns, ref_kind, case_sensitive, positions@, n as int).contains(name) implies dependency_names(g, id, patterns, ref_kind, case_sensitive).contains(name) by {
            let i = choose|i: int| 0 <= i < n && #[trigger] dependency_via(g, id, patterns, ref_kind, case_sensitive, positions@[i] as int, name);
            assert(dependency_via(g, id, patterns, ref_kind, case_sensitive, positions@[i] as int, name));
        }
    }
    names
}

/// `ms` reports exactly the matching entities (each once, in some order) and is
/// sorted by location.
pub open spec fn is_search_result(ms: Seq<GrepMatchView>, g: EntityGraph, all: Seq<SemanticEntity>, q: QueryView) -> bool {
    &&& ms.to_multiset() == expected_matches(g, all, q).to_multiset()
    &&& sorted_by_location(ms)
}

/// The report on `entity`, when it passes the query.
fn match_entity(
    graph: &EntityGraph,
    all_entities: &Vec<SemanticEntity>,
    query: &GrepQuery,
    entity: &EntityInfo,
    test_ids: &Vec<String>,
    outgoing_edges: &Vec<OutgoingEdges>,
) -> (r: Option<GrepMatch>)
    requires
        is_outgoing_index(graph.edges@, outgoing_edges@),
        query.tests ==> forall|id: Seq<char>| texts(test_ids@).contains(id) <==> is_test_id(all_entities@, id),
    ensures
        r is Some <==> qualifies(*graph, all_entities@, query@, *entity),
        r matches Some(m) ==> m@ == describe(*graph, all_entities@, query@, *entity),
{
    let src = match find_source(all_entities, &entity.id) {
        Some(k) => k,
        None => {
            return None;
        },
    };
    let source = &all_entities[src];
    if !matches_pattern(&entity.name, &source.content, &query.pattern, query.content, query.case_sensitive) {
        return None;
    }
    if !matches_type(&entity.entity_type, &query.entity_types, query.case_sensitive) {
        return None;
    }
    match &query.path_substring {
        Some(path_substring) => {
            if !matches_text(entity.file_path.as_str(), path_substring.as_str(), query.case_sensitive) {
                return None;
            }
        },
        None => {},
    }
    let is_test = query.tests && contains_text(test_ids, &entity.id);
    if query.tests && !is_test {
        return None;
    }
    let dependency_count = graph.dependency_count(&entity.id);
    let dependent_count = graph.dependent_count(&entity.id);
    match query.min_dependencies {
        Some(min_dependencies) => {
            if dependency_count < min_dependencies {
                return None;
            }
        },
        None => {},
    }
    match query.min_dependents {
        Some(min_dependents) => {
            if dependent_count < min_dependents {
                return None;
            }
        },
        None => {},
    }
    let matched_dependencies = if query.depends_on.len() == 0 {
        let none: Vec<String> = Vec::new();
        assert(texts(none@) =~= Seq::<Seq<char>>::empty());
        none
    } else {
        let names = find_matching_dependencies(
            graph,
            entity,
            outgoing_edges,
            &query.depends_on,
            query.ref_kind,
            query.case_sensitive,
        );
        proof {
            lemma_sorted_text_set(texts(names@));
        }
        names
    };
    assert(texts(matched_dependencies@) == matched_names(*graph, entity.id@, query@));
    if query.depends_on.len() > 0 && matched_dependencies.len() == 0 {
        return None;
    }
    Some(
        GrepMatch {
            name: entity.name.clone(),
            entity_type: entity.entity_type.clone(),
            file_path: entity.file_path.clone(),
            start_line: entity.start_line,
            end_line: entity.end_line,
            parent_id: clone_optional(&entity.parent_id),
            dependency_count,
            dependent_count,
            is_test,
            matched_dependencies,
        },
    )
}

/// The matches of a query, without checking the query first: every graph
/// entity that passes it, reported once, sorted by file path, start line, end
/// line and name.
pub fn search_entities(graph: &EntityGraph, all_entities: &Vec<SemanticEntity>, query: &GrepQuery) -> (matches: Vec<GrepMatch>)
    ensures
        is_search_result(match_views(matches@), *graph, all_entities@, query@),
{
    let test_ids = if query.tests {
        graph.filter_test_entities(all_entities)
    } else {
        Vec::new()
    };
    let outgoing_edges = build_outgoing_edges(&graph.edges);
    let mut matches: Vec<GrepMatch> = Vec::new();
    let n = graph.entities.len();
    for i in 0..n
        invariant
            n == graph.entities.len(),
            is_outgoing_index(graph.edges@, outgoing_edges@),
            query.tests ==> forall|id: Seq<char>| texts(test_ids@).contains(id) <==> is_test_id(all_entities@, id),
            match_views(matches@).to_multiset() == expected_prefix(*graph, all_entities@, query@, i as int).to_multiset(),
            sorted_by_location(match_views(matches@)),
    {
        let entity = &graph.entities[i];
        match match_entity(graph, all_entities, query, entity, &test_ids, &outgoing_edges) {
            Some(m) => {
                insert_by_location(&mut matches, m);
            },
            None => {},
        }
    }
    matches
}

/// The matches of a query after checking it: the first rule the query breaks,
/// or every graph entity that passes it, reported once, sorted by file path,
/// start line, end line and name.
pub fn find_matches(graph: &EntityGraph, all_entities: &Vec<SemanticEntity>, query: &GrepQuery) -> (r: Result<Vec<GrepMatch>, GrepValidationError>)
    ensures
        r is Ok <==> validation(query@) is Ok,
        r matches Err(e) ==> validation(query@) == Err::<(), GrepValidationError>(e),
        r matches Ok(matches) ==> is_search_result(match_views(matches@), *graph, all_entities@, query@),
{
    match query.validate() {
        Err(e) => Err(e),
        Ok(()) => Ok(search_entities(graph, all_entities, query)),
    }
}

// ---------------------------------------------------------------------
// How the filters relate
// ---------------------------------------------------------------------

/// When every entity that passes `narrow` also passes `wide` and is reported
/// the same way, the reports under `narrow` are among those under `wide`.
pub proof fn lemma_narrower_query(g: EntityGraph, all: Seq<SemanticEntity>, narrow: QueryView, wide: QueryView)
    requires
        forall|e: EntityInfo| #[trigger] qualifies(g, all, narrow, e) ==> qualifies(g, all, wide, e) && describe(g, all, narrow, e) == describe(g, all, wide, e),
    ensures
        expected_matches(g, all, narrow).to_multiset().subset_of(expected_matches(g, all, wide).to_multiset()),
{
    lemma_narrower_prefix(g, all, narrow, wide, g.entities@.len() as int);
}

proof fn lemma_narrower_prefix(g: EntityGraph, all: Seq<SemanticEntity>, narrow: QueryView, wide: QueryView, n: int)
    requires
        forall|e: EntityInfo| #[trigger] qualifies(g, all, narrow, e) ==> qualifies(g, all, wide, e) && describe(g, all, narrow, e) == describe(g, all, wide, e),
    ensures
        expected_prefix(g, all, narrow, n).to_multiset().subset_of(expected_prefix(g, all, wide, n).to_multiset()),
    decreases n,
{
    broadcast use vstd::multiset::group_multiset_axioms;
    if n > 0 {
        lemma_narrower_prefix(g, all, narrow, wide, n - 1);
        let e = g.entities@[n - 1];
        let a = expected_prefix(g, all, narrow, n - 1).to_multiset();
        let b = expected_prefix(g, all, wide, n - 1).to_multiset();
        if qualifies(g, all, narrow, e) {
            let x = describe(g, all, narrow, e);
            assert(a.insert(x).subset_of(b.insert(x)));
        } else if qualifies(g, all, wide, e) {
            let x = describe(g, all, wide, e);
            assert(a.subset_of(b.insert(x)));
        }
    }
}

/// Searching the source text as well as the names never loses a match.
pub proof fn lemma_content_search_widens(g: EntityGraph, all: Seq<SemanticEntity>, q: QueryView)
    ensures
        expected_matches(g, all, QueryView { content: false, ..q }).to_multiset().subset_of(
            expected_matches(g, all, QueryView { content: true, ..q }).to_multiset(),
        ),
{
    lemma_narrower_query(g, all, QueryView { content: false, ..q }, QueryView { content: true, ..q });
}

/// A path filter never adds a match.
pub proof fn lemma_path_filter_narrows(g: EntityGraph, all: Seq<SemanticEntity>, q: QueryView, path: Seq<char>)
    ensures
        expected_matches(g, all, QueryView { path_substring: Some(path), ..q }).to_multiset().subset_of(
            expected_matches(g, all, QueryView { path_substring: None, ..q }).to_multiset(),
        ),
{
    lemma_narrower_query(g, all, QueryView { path_substring: Some(path), ..q }, QueryView { path_substring: None, ..q });
}

/// A name pattern never adds a match.
pub proof fn lemma_pattern_narrows(g: EntityGraph, all: Seq<SemanticEntity>, q: QueryView, pattern: Seq<char>)
    ensures
        expected_matches(g, all, QueryView { pattern: Some(pattern), ..q }).to_multiset().subset_of(
            expected_matches(g, all, QueryView { pattern: None, ..q }).to_multiset(),
        ),
{
    lemma_narrower_query(g, all, QueryView { pattern: Some(pattern), ..q }, QueryView { pattern: None, ..q });
}

/// Accepting one more entity type, when types are already filtered, never
/// loses a match.
pub proof fn lemma_more_types_widen(g: EntityGraph, all: Seq<SemanticEntity>, q: QueryView, extra: Seq<char>)
    requires
        q.entity_types.len() > 0,
    ensures
        expected_matches(g, all, q).to_multiset().subset_of(
            expected_matches(g, all, QueryView { entity_types: q.entity_types.push(extra), ..q }).to_multiset(),
        ),
{
    let wide = QueryView { entity_types: q.entity_types.push(extra), ..q };
    assert forall|e: EntityInfo| #[trigger] qualifies(g, all, q, e) implies qualifies(g, all, wide, e) && describe(g, all, q, e) == describe(g, all, wide, e) by {
        let i = choose|i: int| 0 <= i < q.entity_types.len() && type_equals(e.entity_type@, #[trigger] q.entity_types[i], q.case_sensitive);
        assert(wide.entity_types[i] == q.entity_types[i]);
    }
    lemma_narrower_query(g, all, q, wide);
}

/// A higher threshold on outgoing references never adds a match.
pub proof fn lemma_min_dependencies_narrows(g: EntityGraph, all: Seq<SemanticEntity>, q: QueryView, low: Option<usize>, high: usize)
    requires
        low matches Some(l) ==> l <= high,
    ensures
        expected_matches(g, all, QueryView { min_dependencies: Some(high), ..q }).to_multiset().subset_of(
            expected_matches(g, all, QueryView { min_dependencies: low, ..q }).to_multiset(),
        ),
{
    lemma_narrower_query(g, all, QueryView { min_dependencies: Some(high), ..q }, QueryView { min_dependencies: low, ..q });
}

/// A higher threshold on incoming references never adds a match.
pub proof fn lemma_min_dependents_narrows(g: EntityGraph, all: Seq<SemanticEntity>, q: QueryView, low: Option<usize>, high: usize)
    requires
        low matches Some(l) ==> l <= high,
    ensures
        expected_matches(g, all, QueryView { min_dependents: Some(high), ..q }).to_multiset().subset_of(
            expected_matches(g, all, QueryView { min_dependents: low, ..q }).to_multiset(),
        ),
{
    lemma_narrower_query(g, all, QueryView { min_dependents: Some(high), ..q }, QueryView { min_dependents: low, ..q });
}

/// Restricting dependencies to one reference kind only removes dependency names.
pub proof fn lemma_ref_kind_narrows_dependencies(
    g: EntityGraph,
    id: Seq<char>,
    patterns: Seq<Seq<char>>,
    kind: GrepRefKind,
    case_sensitive: bool,
)
    ensures
        dependency_names(g, id, patterns, Some(kind), case_sensitive).subset_of(
            dependency_names(g, id, patterns, None, case_sensitive),
        ),
{
    assert forall|name: Seq<char>| dependency_names(g, id, patterns, Some(kind), case_sensitive).contains(name) implies dependency_names(g, id, patterns, None, case_sensitive).contains(name) by {
        let k = choose|k: int| 0 <= k < g.edges@.len() && #[trigger] dependency_via(g, id, patterns, Some(kind), case_sensitive, k, name);
        assert(dependency_via(g, id, patterns, None, case_sensitive, k, name));
    }
}

} // verus!
