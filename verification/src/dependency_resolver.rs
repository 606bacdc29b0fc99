//! The dependency resolver: a directed acyclic graph whose nodes are the registered types and
//! whose edges lead from an interface to its implementations and from an implementation to
//! what it depends on. A registration that would close a cycle is refused.
use vstd::prelude::*;
use std::any::TypeId;
use daggy::{Dag, NodeIndex, WouldCycle};
use crate::graph::{acyclic, edges_within, has_edge, is_walk, lemma_add_edge_acyclic_if, lemma_cycle, lemma_reaches_prefix, reaches};
use crate::injectable::Injectable;
use crate::registration::Registration;
use crate::type_info::{type_id_of, same_type, type_id_text, type_id_debug};
use vstd::string::*;

verus! {

/// A `daggy::Dag` of type identities, held opaquely and read through the names below (the
/// verifier refuses a declaration of `Dag` itself, whose index parameter is bound by an
/// outside trait).
#[verifier::external_body]
pub struct TypeDag {
    dag: Dag<TypeId, ()>,
}

/// `daggy::WouldCycle`: the error of an edge that would close a cycle.
#[verifier::external_type_specification]
#[verifier::external_body]
#[verifier::reject_recursive_types(E)]
pub struct ExWouldCycle<E>(WouldCycle<E>);

/// The node weights of a `Dag`, in the order of their node indices.
pub uninterp spec fn dag_nodes(dag: TypeDag) -> Seq<TypeId>;

/// The edges of a `Dag` as pairs of node indices, in the order of their edge indices.
pub uninterp spec fn dag_edges(dag: TypeDag) -> Seq<(int, int)>;

/// Calls `Dag::new`: a graph with no nodes and no edges.
#[verifier::external_body]
fn dag_new() -> (dag: TypeDag)
    ensures
        dag_nodes(dag) == Seq::<TypeId>::empty(),
        dag_edges(dag) == Seq::<(int, int)>::empty(),
{
    TypeDag { dag: Dag::new() }
}

/// Calls `Dag::add_node`: the weight becomes the last node, whose index is returned; the edges
/// stay. The `u32` node index panics on its largest value, which `requires` leaves out.
#[verifier::external_body]
fn dag_add_node(dag: &mut TypeDag, weight: TypeId) -> (index: usize)
    requires
        dag_nodes(*old(dag)).len() < 0xFFFF_FFFF,
    ensures
        dag_nodes(*final(dag)) == dag_nodes(*old(dag)).push(weight),
        dag_edges(*final(dag)) == dag_edges(*old(dag)),
        index == dag_nodes(*old(dag)).len(),
{
    dag.dag.add_node(weight).index()
}

/// Calls `Dag::add_edge` from node `a` to node `b`. On an acyclic graph it refuses the edge,
/// leaving the graph as it was, exactly when `b` already reaches `a` (every node reaches
/// itself); otherwise the edge is appended and its index returned. It panics only on a node
/// that does not exist and on the largest `u32` edge index, which `requires` leaves out, so
/// it does not unwind.
#[verifier::external_body]
fn dag_add_edge(dag: &mut TypeDag, a: usize, b: usize) -> (r: Result<usize, WouldCycle<()>>)
    requires
        a < dag_nodes(*old(dag)).len(),
        b < dag_nodes(*old(dag)).len(),
        dag_edges(*old(dag)).len() < 0xFFFF_FFFF,
        acyclic(dag_edges(*old(dag))),
    ensures
        dag_nodes(*final(dag)) == dag_nodes(*old(dag)),
        r is Err <==> reaches(dag_edges(*old(dag)), b as int, a as int),
        r is Ok ==> dag_edges(*final(dag)) == dag_edges(*old(dag)).push((a as int, b as int)),
        r is Ok ==> r == Ok::<usize, WouldCycle<()>>(dag_edges(*old(dag)).len() as usize),
        r is Err ==> dag_edges(*final(dag)) == dag_edges(*old(dag)),
    no_unwind
{
    match dag.dag.add_edge(NodeIndex::new(a), NodeIndex::new(b), ()) {
        Ok(edge) => Ok(edge.index()),
        Err(refused) => Err(refused),
    }
}

/// Calls `Dag::edge_count`: the number of edges.
#[verifier::external_body]
fn dag_edge_count(dag: &TypeDag) -> (n: usize)
    ensures
        n == dag_edges(*dag).len(),
{
    dag.dag.edge_count()
}

/// Why the dependency graph could not be completed.
#[derive(Debug)]
pub enum ResolveError {
    /// A registration names a type that was never registered with the resolver; `name` is the
    /// name that the registration gives for it.
    MissingType { type_id: TypeId, name: String },
    /// The edge from `parent` to `child` would close a cycle; its text is that of
    /// `daggy::WouldCycle`.
    WouldCycle { parent: TypeId, child: TypeId },
}

/// The text of a `ResolveError`.
pub open spec fn resolve_error_message(e: ResolveError) -> Seq<char> {
    match e {
        ResolveError::MissingType { type_id, name } => "Expected to find "@ + name@ + " in DAG"@,
        ResolveError::WouldCycle { parent, child } => "WouldCycle\n\n"@,
    }
}

impl ResolveError {
    /// The text of the error.
    pub fn message(&self) -> (r: String)
        ensures
            r@ == resolve_error_message(*self),
    {
        match self {
            ResolveError::MissingType { type_id: _, name } => {
                let mut m = String::from_str("Expected to find ");
                m.append(name.as_str());
                m.append(" in DAG");
                m
            },
            ResolveError::WouldCycle { parent: _, child: _ } => String::from_str("WouldCycle\n\n"),
        }
    }
}

/// No type occurs twice.
pub open spec fn distinct_types(types: Seq<TypeId>) -> bool {
    forall|i: int, j: int| 0 <= i < j < types.len() ==> types[i] != types[j]
}

/// The graph of the given types and edges has one node for each type, each type once; its
/// edges join its nodes and close no cycle.
pub open spec fn graph_ok(types: Seq<TypeId>, edges: Seq<(int, int)>) -> bool {
    &&& distinct_types(types)
    &&& edges_within(edges, types.len() as int)
    &&& acyclic(edges)
}

/// The types that a registration depends on.
pub open spec fn dependency_ids(r: Registration) -> Seq<TypeId> {
    Seq::new(r.dependent_types@.len(), |j: int| r.dependent_types@[j].0)
}

/// The types that resolving a registration looks up, in order, each with the name that the
/// registration gives for it: its interface, its implementation, then each type it depends on.
pub open spec fn registration_lookups(r: Registration) -> Seq<(TypeId, Seq<char>)> {
    seq![(r.interface_id, r.interface_name@), (r.implementation_id, r.implementation_name@)] + Seq::new(
        r.dependent_types@.len(),
        |j: int| (r.dependent_types@[j].0, r.dependent_types@[j].1@),
    )
}

/// The types that resolving `regs` looks up, with their names, in the order it looks them up.
pub open spec fn lookup_order(regs: Seq<Registration>) -> Seq<(TypeId, Seq<char>)>
    decreases regs.len(),
{
    if regs.len() == 0 {
        Seq::empty()
    } else {
        lookup_order(regs.drop_last()) + registration_lookups(regs.last())
    }
}

/// `t`, named `name`, is the first of the types looked up that is missing from `types`.
pub open spec fn first_missing(types: Seq<TypeId>, regs: Seq<Registration>, t: TypeId, name: Seq<char>) -> bool {
    exists|p: int|
        0 <= p < lookup_order(regs).len() && #[trigger] lookup_order(regs)[p] == (t, name) && !types.contains(t)
            && forall|q: int| 0 <= q < p ==> types.contains((#[trigger] lookup_order(regs)[q]).0)
}

/// `edges` is `before` followed by the first of the `planned` edges.
pub open spec fn drawn_prefix(before: Seq<(int, int)>, planned: Seq<(int, int)>, edges: Seq<(int, int)>) -> bool {
    &&& before.len() <= edges.len() <= before.len() + planned.len()
    &&& edges == (before + planned).take(edges.len() as int)
}

/// The node index of `t` among `types`.
pub open spec fn index_in(types: Seq<TypeId>, t: TypeId) -> int {
    choose|i: int| 0 <= i < types.len() && types[i] == t
}

/// `types` with `t` appended unless it is there already.
pub open spec fn with_type(types: Seq<TypeId>, t: TypeId) -> Seq<TypeId> {
    if types.contains(t) { types } else { types.push(t) }
}

/// Adding a type keeps one node per type: the type is then present, every type keeps its node
/// index, and no type occurs twice.
pub proof fn law_with_type_keeps_one_node_per_type(types: Seq<TypeId>, t: TypeId)
    requires
        distinct_types(types),
    ensures
        distinct_types(with_type(types, t)),
        with_type(types, t).contains(t),
        types.len() <= with_type(types, t).len() <= types.len() + 1,
        forall|i: int| 0 <= i < types.len() ==> #[trigger] with_type(types, t)[i] == types[i],
{
    if !types.contains(t) {
        let after = types.push(t);
        assert(after[types.len() as int] == t);
        assert forall|i: int, j: int| 0 <= i < j < after.len() implies after[i] != after[j] by {
            if j == types.len() {
                assert(types[i] != t);
            }
        }
    }
}

/// Registering the same two types a second time adds nothing.
pub proof fn law_register_twice_adds_nothing(types: Seq<TypeId>, a: TypeId, b: TypeId)
    ensures
        with_type(with_type(with_type(with_type(types, a), b), a), b) == with_type(with_type(types, a), b),
{
    let once = with_type(with_type(types, a), b);
    assert(with_type(types, a).contains(a)) by {
        if !types.contains(a) {
            assert(types.push(a)[types.len() as int] == a);
        }
    }
    assert(once.contains(a)) by {
        let i = choose|i: int| 0 <= i < with_type(types, a).len() && with_type(types, a)[i] == a;
        if !with_type(types, a).contains(b) {
            assert(once[i] == a);
        }
    }
    assert(once.contains(b)) by {
        if !with_type(types, a).contains(b) {
            assert(with_type(types, a).push(b)[with_type(types, a).len() as int] == b);
        }
    }
}

/// The edge from the interface to the implementation, unless they are the same type.
pub open spec fn head_edges(types: Seq<TypeId>, r: Registration) -> Seq<(int, int)> {
    let i = index_in(types, r.interface_id);
    let m = index_in(types, r.implementation_id);
    if i != m { seq![(i, m)] } else { Seq::empty() }
}

/// The edges from the implementation to each type it depends on, in order.
pub open spec fn dependency_edges(types: Seq<TypeId>, r: Registration) -> Seq<(int, int)> {
    Seq::new(
        r.dependent_types@.len(),
        |j: int| (index_in(types, r.implementation_id), index_in(types, r.dependent_types@[j].0)),
    )
}

/// The edges that one registration calls for.
pub open spec fn registration_edges(types: Seq<TypeId>, r: Registration) -> Seq<(int, int)> {
    head_edges(types, r) + dependency_edges(types, r)
}

/// The edges that the registrations call for, in order.
pub open spec fn planned_edges(types: Seq<TypeId>, regs: Seq<Registration>) -> Seq<(int, int)>
    decreases regs.len(),
{
    if regs.len() == 0 {
        Seq::empty()
    } else {
        planned_edges(types, regs.drop_last()) + registration_edges(types, regs.last())
    }
}

/// The most edges that the registrations can call for: one for each registration and one for
/// each type it depends on.
pub open spec fn edge_budget(regs: Seq<Registration>) -> nat
    decreases regs.len(),
{
    if regs.len() == 0 {
        0
    } else {
        edge_budget(regs.drop_last()) + 1 + regs.last().dependent_types@.len()
    }
}

proof fn lemma_budget_prefix(regs: Seq<Registration>, k: int)
    requires
        0 <= k <= regs.len(),
    ensures
        edge_budget(regs.take(k)) <= edge_budget(regs),
    decreases regs.len(),
{
    if k < regs.len() {
        assert(regs.drop_last().take(k) =~= regs.take(k));
        lemma_budget_prefix(regs.drop_last(), k);
    } else {
        assert(regs.take(k) =~= regs);
    }
}

proof fn lemma_planned_within_budget(types: Seq<TypeId>, regs: Seq<Registration>)
    ensures
        planned_edges(types, regs).len() <= edge_budget(regs),
    decreases regs.len(),
{
    if regs.len() > 0 {
        lemma_planned_within_budget(types, regs.drop_last());
    }
}

/// Some edge leads from the node of `from` to the node of `to`, the nodes of `types` being
/// numbered by position.
pub open spec fn links(types: Seq<TypeId>, edges: Seq<(int, int)>, from: TypeId, to: TypeId) -> bool {
    exists|e: int|
        0 <= e < edges.len() && 0 <= (#[trigger] edges[e]).0 < types.len() && 0 <= edges[e].1 < types.len()
            && types[edges[e].0] == from && types[edges[e].1] == to
}

/// The graph links each interface to its implementation, where the two differ, and each
/// implementation to every type it depends on.
pub open spec fn links_all(types: Seq<TypeId>, edges: Seq<(int, int)>, regs: Seq<Registration>) -> bool {
    &&& forall|k: int|
        0 <= k < regs.len() && #[trigger] regs[k].interface_id != regs[k].implementation_id ==> links(
            types,
            edges,
            regs[k].interface_id,
            regs[k].implementation_id,
        )
    &&& forall|k: int, j: int|
        0 <= k < regs.len() && 0 <= j < regs[k].dependent_types@.len() ==> links(
            types,
            edges,
            regs[k].implementation_id,
            (#[trigger] regs[k].dependent_types@[j]).0,
        )
}

/// Every type that the registration names is among `types`.
pub open spec fn registration_found(types: Seq<TypeId>, r: Registration) -> bool {
    &&& types.contains(r.interface_id)
    &&& types.contains(r.implementation_id)
    &&& forall|j: int| 0 <= j < r.dependent_types@.len() ==> types.contains((#[trigger] r.dependent_types@[j]).0)
}

/// Every type that the registrations name is among `types`.
pub open spec fn all_found(types: Seq<TypeId>, regs: Seq<Registration>) -> bool {
    forall|k: int| 0 <= k < regs.len() ==> #[trigger] registration_found(types, regs[k])
}

proof fn lemma_index_in_found(types: Seq<TypeId>, t: TypeId)
    requires
        types.contains(t),
    ensures
        0 <= index_in(types, t) < types.len(),
        types[index_in(types, t)] == t,
{
}

proof fn lemma_links_extend(types: Seq<TypeId>, a: Seq<(int, int)>, b: Seq<(int, int)>, from: TypeId, to: TypeId)
    ensures
        links(types, a, from, to) ==> links(types, a + b, from, to),
        links(types, b, from, to) ==> links(types, a + b, from, to),
{
    if links(types, a, from, to) {
        let e = choose|e: int|
            0 <= e < a.len() && 0 <= (#[trigger] a[e]).0 < types.len() && 0 <= a[e].1 < types.len() && types[a[e].0]
                == from && types[a[e].1] == to;
        assert((a + b)[e] == a[e]);
    }
    if links(types, b, from, to) {
        let e = choose|e: int|
            0 <= e < b.len() && 0 <= (#[trigger] b[e]).0 < types.len() && 0 <= b[e].1 < types.len() && types[b[e].0]
                == from && types[b[e].1] == to;
        assert((a + b)[a.len() + e] == b[e]);
    }
}

proof fn lemma_links_all_after(types: Seq<TypeId>, a: Seq<(int, int)>, b: Seq<(int, int)>, regs: Seq<Registration>)
    requires
        links_all(types, b, regs),
    ensures
        links_all(types, a + b, regs),
{
    assert forall|k: int|
        0 <= k < regs.len() && #[trigger] regs[k].interface_id != regs[k].implementation_id implies links(
        types,
        a + b,
        regs[k].interface_id,
        regs[k].implementation_id,
    ) by {
        lemma_links_extend(types, a, b, regs[k].interface_id, regs[k].implementation_id);
    }
    assert forall|k: int, j: int| 0 <= k < regs.len() && 0 <= j < regs[k].dependent_types@.len() implies links(
        types,
        a + b,
        regs[k].implementation_id,
        (#[trigger] regs[k].dependent_types@[j]).0,
    ) by {
        lemma_links_extend(types, a, b, regs[k].implementation_id, regs[k].dependent_types@[j].0);
    }
}

/// The edges planned for registrations whose types are all known link each interface to its
/// implementation, where the two differ, and each implementation to every type it depends on.
pub proof fn law_planned_edges_link_every_registration(types: Seq<TypeId>, regs: Seq<Registration>)
    requires
        all_found(types, regs),
    ensures
        links_all(types, planned_edges(types, regs), regs),
    decreases regs.len(),
{
    if regs.len() > 0 {
        let d = regs.drop_last();
        let last = regs.last();
        assert forall|k: int| 0 <= k < d.len() implies #[trigger] registration_found(types, d[k]) by {
            assert(d[k] == regs[k]);
            assert(registration_found(types, regs[k]));
        }
        law_planned_edges_link_every_registration(types, d);
        let before = planned_edges(types, d);
        let own = registration_edges(types, last);
        let all = planned_edges(types, regs);
        assert(all == before + own);
        assert(registration_found(types, regs[regs.len() - 1]));
        lemma_index_in_found(types, last.interface_id);
        lemma_index_in_found(types, last.implementation_id);
        let i = index_in(types, last.interface_id);
        let m = index_in(types, last.implementation_id);
        let head = head_edges(types, last);
        let deps = dependency_edges(types, last);
        assert(own == head + deps);
        assert forall|k: int|
            0 <= k < regs.len() && #[trigger] regs[k].interface_id != regs[k].implementation_id implies links(
            types,
            all,
            regs[k].interface_id,
            regs[k].implementation_id,
        ) by {
            if k < d.len() {
                assert(d[k] == regs[k]);
                lemma_links_extend(types, before, own, regs[k].interface_id, regs[k].implementation_id);
            } else {
                assert(regs[k] == last);
                assert(i != m);
                assert(head == seq![(i, m)]);
                assert(all[before.len() as int] == (i, m));
            }
        }
        assert forall|k: int, j: int|
            0 <= k < regs.len() && 0 <= j < regs[k].dependent_types@.len() implies links(
            types,
            all,
            regs[k].implementation_id,
            (#[trigger] regs[k].dependent_types@[j]).0,
        ) by {
            if k < d.len() {
                assert(d[k] == regs[k]);
                lemma_links_extend(types, before, own, regs[k].implementation_id, regs[k].dependent_types@[j].0);
            } else {
                assert(regs[k] == last);
                let t = last.dependent_types@[j].0;
                assert(types.contains(t));
                lemma_index_in_found(types, t);
                let p = before.len() + head.len() + j;
                assert(own[head.len() + j] == deps[j]);
                assert(all[p] == (m, index_in(types, t)));
            }
        }
    }
}

proof fn lemma_index_in(types: Seq<TypeId>, i: int)
    requires
        distinct_types(types),
        0 <= i < types.len(),
    ensures
        index_in(types, types[i]) == i,
{
    let j = index_in(types, types[i]);
    assert(0 <= j < types.len() && types[j] == types[i]);
}

proof fn lemma_lookup_concat(s: Seq<Registration>, t: Seq<Registration>)
    ensures
        lookup_order(s + t) == lookup_order(s) + lookup_order(t),
    decreases t.len(),
{
    if t.len() == 0 {
        assert(s + t =~= s);
        assert(lookup_order(s) + lookup_order(t) =~= lookup_order(s));
    } else {
        assert((s + t).drop_last() =~= s + t.drop_last());
        assert((s + t).last() == t.last());
        lemma_lookup_concat(s, t.drop_last());
        assert(lookup_order(s + t) =~= lookup_order(s) + lookup_order(t));
    }
}

proof fn lemma_found_lookups(types: Seq<TypeId>, regs: Seq<Registration>)
    requires
        all_found(types, regs),
    ensures
        forall|q: int| 0 <= q < lookup_order(regs).len() ==> types.contains((#[trigger] lookup_order(regs)[q]).0),
    decreases regs.len(),
{
    if regs.len() > 0 {
        let d = regs.drop_last();
        assert forall|k: int| 0 <= k < d.len() implies #[trigger] registration_found(types, d[k]) by {
            assert(d[k] == regs[k]);
            assert(registration_found(types, regs[k]));
        }
        lemma_found_lookups(types, d);
        let last = regs.last();
        assert(registration_found(types, regs[regs.len() - 1]));
        let head = lookup_order(d);
        let tail = registration_lookups(last);
        assert(lookup_order(regs) =~= head + tail);
        assert forall|q: int| 0 <= q < lookup_order(regs).len() implies types.contains((#[trigger] lookup_order(regs)[q]).0) by {
            if q >= head.len() {
                let x = q - head.len();
                if x >= 2 {
                    assert(tail[x].0 == last.dependent_types@[x - 2].0);
                }
            } else {
                assert(lookup_order(regs)[q] == head[q]);
            }
        }
    }
}

/// Edges that start with the old ones and continue the planned ones are a drawn prefix.
proof fn lemma_drawn_prefix(e0: Seq<(int, int)>, planned: Seq<(int, int)>, cur: Seq<(int, int)>, more: Seq<(int, int)>)
    requires
        e0 + planned == cur + more,
        e0.len() <= cur.len(),
    ensures
        drawn_prefix(e0, planned, cur),
{
    assert((e0 + planned).take(cur.len() as int) =~= cur) by {
        assert forall|i: int| 0 <= i < cur.len() implies (e0 + planned).take(cur.len() as int)[i] == cur[i] by {
            assert((e0 + planned)[i] == (cur + more)[i]);
        }
    }
    assert((e0 + planned).len() == e0.len() + planned.len());
    assert((cur + more).len() == cur.len() + more.len());
    assert((e0 + planned).len() == (cur + more).len());
    assert(cur.len() <= e0.len() + planned.len());
    assert(cur == (e0 + planned).take(cur.len() as int));
}

/// A type looked up while resolving registration `k`, after every lookup before it found its
/// type, is the first missing one when it is missing itself.
proof fn lemma_first_missing(types: Seq<TypeId>, regs: Seq<Registration>, k: int, offset: int, t: TypeId, name: Seq<char>)
    requires
        0 <= k < regs.len(),
        all_found(types, regs.take(k)),
        0 <= offset < 2 + regs[k].dependent_types@.len(),
        registration_lookups(regs[k])[offset] == (t, name),
        !types.contains(t),
        forall|x: int| 0 <= x < offset ==> types.contains((#[trigger] registration_lookups(regs[k])[x]).0),
    ensures
        first_missing(types, regs, t, name),
{
    let local = registration_lookups(regs[k]);
    let lo_before = lookup_order(regs.take(k));
    let lo_rest = lookup_order(regs.skip(k + 1));
    assert(regs.take(k + 1).drop_last() =~= regs.take(k));
    assert(regs.take(k + 1).last() == regs[k]);
    assert(lookup_order(regs.take(k + 1)) == lo_before + local);
    assert(regs =~= regs.take(k + 1) + regs.skip(k + 1));
    lemma_lookup_concat(regs.take(k + 1), regs.skip(k + 1));
    let lo = lookup_order(regs);
    assert(lo =~= lo_before + local + lo_rest);
    lemma_found_lookups(types, regs.take(k));
    let p = lo_before.len() + offset;
    assert(lo[p] == (t, name));
    assert forall|q: int| 0 <= q < p implies types.contains((#[trigger] lo[q]).0) by {
        if q < lo_before.len() {
            assert(lo[q] == lo_before[q]);
        } else {
            assert(lo[q] == local[q - lo_before.len()]);
        }
    }
}

proof fn lemma_planned_concat(types: Seq<TypeId>, s: Seq<Registration>, t: Seq<Registration>)
    ensures
        planned_edges(types, s + t) == planned_edges(types, s) + planned_edges(types, t),
    decreases t.len(),
{
    if t.len() == 0 {
        assert(s + t =~= s);
        assert(planned_edges(types, s) + planned_edges(types, t) =~= planned_edges(types, s));
    } else {
        assert((s + t).drop_last() =~= s + t.drop_last());
        assert((s + t).last() == t.last());
        lemma_planned_concat(types, s, t.drop_last());
        assert(planned_edges(types, s + t) =~= planned_edges(types, s) + planned_edges(types, t));
    }
}

/// A graph that is a list of edges followed by more, and holds the edge `(a, b)` at the end
/// of the list, has a cycle when `b` reaches `a` along the list.
proof fn lemma_refused_edge_cycles(cur: Seq<(int, int)>, a: int, b: int, more: Seq<(int, int)>)
    requires
        reaches(cur, b, a),
    ensures
        !acyclic(cur.push((a, b)) + more),
{
    let whole = cur.push((a, b)) + more;
    assert(cur.push((a, b)) =~= cur + seq![(a, b)]);
    assert(cur + (seq![(a, b)] + more) =~= whole);
    lemma_reaches_prefix(cur, seq![(a, b)] + more, b, a);
    assert(whole[cur.len() as int] == (a, b));
    assert(has_edge(whole, a, b));
    lemma_cycle(whole, a, b);
}

/// The dependency graph of the registered types.
pub struct DependencyResolver {
    dag: TypeDag,
    type_to_node_index: Vec<TypeId>,
}

impl DependencyResolver {
    /// The registered types, each at its node index.
    pub closed spec fn types(&self) -> Seq<TypeId> {
        self.type_to_node_index@
    }

    /// The edges of the graph, as pairs of node indices.
    pub closed spec fn edges(&self) -> Seq<(int, int)> {
        dag_edges(self.dag)
    }

    /// The graph has one node for each registered type, each type once; its edges join
    /// nodes of the graph and close no cycle.
    #[verifier::type_invariant]
    spec fn wf(&self) -> bool {
        &&& dag_nodes(self.dag) == self.type_to_node_index@
        &&& distinct_types(self.type_to_node_index@)
        &&& acyclic(dag_edges(self.dag))
        &&& edges_within(dag_edges(self.dag), self.type_to_node_index@.len() as int)
        &&& dag_edges(self.dag).len() <= 0xFFFF_FFFF
    }

    /// A resolver with no types and no edges.
    pub fn new() -> (r: DependencyResolver)
        ensures
            r.types() == Seq::<TypeId>::empty(),
            r.edges() == Seq::<(int, int)>::empty(),
            graph_ok(r.types(), r.edges()),
    {
        let dag = dag_new();
        let type_to_node_index: Vec<TypeId> = Vec::new();
        proof {
            assert forall|p: Seq<int>| #[trigger] is_walk(dag_edges(dag), p) && p.len() >= 2 implies p[0] != p.last() by {
                let z: int = 0;
                assert(has_edge(dag_edges(dag), p[z], p[z + 1]));
            }
            assert(dag_nodes(dag) == type_to_node_index@);
        }
        DependencyResolver { dag, type_to_node_index }
    }

    /// Draws the edge from node `a` to node `b` unless `b` already reaches `a`; whether it
    /// was drawn.
    fn draw_edge(&mut self, a: usize, b: usize) -> (drawn: bool)
        requires
            a < old(self).types().len(),
            b < old(self).types().len(),
            old(self).edges().len() < 0xFFFF_FFFF,
        ensures
            final(self).types() == old(self).types(),
            drawn <==> !reaches(old(self).edges(), b as int, a as int),
            drawn ==> final(self).edges() == old(self).edges().push((a as int, b as int)),
            !drawn ==> final(self).edges() == old(self).edges(),
            acyclic(final(self).edges()),
    {
        proof {
            use_type_invariant(&*self);
            lemma_add_edge_acyclic_if(self.edges(), a as int, b as int);
        }
        let r = dag_add_edge(&mut self.dag, a, b);
        proof {
            use_type_invariant(&*self);
        }
        r.is_ok()
    }

    /// The number of registered types.
    pub fn type_count(&self) -> (n: usize)
        ensures
            n == self.types().len(),
    {
        self.type_to_node_index.len()
    }

    /// The number of edges.
    pub fn edge_count(&self) -> (n: usize)
        ensures
            n == self.edges().len(),
    {
        dag_edge_count(&self.dag)
    }

    fn node_index(&self, t: &TypeId) -> (r: Option<usize>)
        ensures
            r is None <==> !self.types().contains(*t),
            r matches Some(i) ==> i < self.types().len() && self.types()[i as int] == *t && index_in(
                self.types(),
                *t,
            ) == i,
    {
        proof {
            use_type_invariant(self);
        }
        let mut i: usize = 0;
        while i < self.type_to_node_index.len()
            invariant
                i <= self.types().len(),
                forall|j: int| 0 <= j < i ==> self.types()[j] != *t,
                self.types() == self.type_to_node_index@,
                self.wf(),
            decreases self.types().len() - i,
        {
            if same_type(&self.type_to_node_index[i], t) {
                proof {
                    lemma_index_in(self.types(), i as int);
                }
                return Some(i);
            }
            i = i + 1;
        }
        None
    }

    fn add_type(&mut self, t: &TypeId)
        requires
            with_type(old(self).types(), *t).len() <= 0xFFFF_FFFF,
        ensures
            final(self).types() == with_type(old(self).types(), *t),
            final(self).edges() == old(self).edges(),
    {
        proof {
            use_type_invariant(&*self);
        }
        match self.node_index(t) {
            Some(_) => {},
            None => {
                let mut taken = DependencyResolver::new();
                std::mem::swap(self, &mut taken);
                proof {
                    use_type_invariant(&taken);
                }
                let DependencyResolver { mut dag, mut type_to_node_index } = taken;
                let _ = dag_add_node(&mut dag, *t);
                type_to_node_index.push(*t);
                proof {
                    let ts = type_to_node_index@;
                    assert forall|i: int, j: int| 0 <= i < j < ts.len() implies ts[i] != ts[j] by {
                        if j == ts.len() - 1 {
                            assert(old(self).types()[i] == ts[i]);
                        }
                    }
                }
                *self = DependencyResolver { dag, type_to_node_index };
            },
        }
    }

    /// Leaves the resolver as it is: `register` is what adds the nodes of a registration.
    pub fn register_inner(&mut self, interface_id: &TypeId, implementation_id: &TypeId)
        ensures
            final(self).types() == old(self).types(),
            final(self).edges() == old(self).edges(),
    {
    }

    /// Adds a node for `interface_id` and then one for `implementation_id`, each unless it has
    /// one.
    pub fn register_by_id(&mut self, interface_id: &TypeId, implementation_id: &TypeId)
        requires
            with_type(with_type(old(self).types(), *interface_id), *implementation_id).len() <= 0xFFFF_FFFF,
        ensures
            final(self).types() == with_type(with_type(old(self).types(), *interface_id), *implementation_id),
            final(self).edges() == old(self).edges(),
            graph_ok(final(self).types(), final(self).edges()),
    {
        self.add_type(interface_id);
        self.add_type(implementation_id);
        proof {
            use_type_invariant(&*self);
        }
    }

    /// Adds a node for `Interface` and then one for `Implementation`, each unless it has one.
    pub fn register<Interface: ?Sized + 'static, Implementation: Injectable<Interface> + 'static>(&mut self)
        requires
            old(self).types().len() + 2 <= 0xFFFF_FFFF,
        ensures
            exists|a: TypeId, b: TypeId|
                call_ensures(type_id_of::<Interface>, (), a) && call_ensures(type_id_of::<Implementation>, (), b)
                    && final(self).types() == with_type(with_type(old(self).types(), a), b),
            final(self).edges() == old(self).edges(),
            graph_ok(final(self).types(), final(self).edges()),
    {
        let interface_identity = type_id_of::<Interface>;
        let implementation_identity = type_id_of::<Implementation>;
        let interface_id = interface_identity();
        let implementation_id = implementation_identity();
        self.register_by_id(&interface_id, &implementation_id);
    }

    /// Resolves `registrations` when the graph has room for every edge they may call for
    /// (`u32` edge indices); `None`, with nothing changed, when it has not.
    pub fn resolve_within_limit(&mut self, registrations: &Vec<Registration>) -> (r: Option<Result<bool, ResolveError>>)
        ensures
            r is None <==> old(self).edges().len() + edge_budget(registrations@) > 0xFFFF_FFFF,
            r is None ==> final(self).edges() == old(self).edges() && final(self).types() == old(self).types(),
            r matches Some(res) ==> (res is Ok <==> all_found(old(self).types(), registrations@) && acyclic(
                old(self).edges() + planned_edges(old(self).types(), registrations@),
            )),
            r matches Some(res) ==> final(self).types() == old(self).types(),
            r matches Some(Ok(_)) ==> links_all(final(self).types(), final(self).edges(), registrations@),
            r matches Some(Err(ResolveError::MissingType { type_id, name })) ==> first_missing(
                old(self).types(),
                registrations@,
                type_id,
                name@,
            ),
            r matches Some(Err(_)) ==> drawn_prefix(
                old(self).edges(),
                planned_edges(old(self).types(), registrations@),
                final(self).edges(),
            ),
            graph_ok(final(self).types(), final(self).edges()),
    {
        proof {
            use_type_invariant(&*self);
        }
        let limit: u64 = 0xFFFF_FFFF;
        let mut needed: u64 = self.edge_count() as u64;
        assert(registrations@.take(0) =~= Seq::<Registration>::empty());
        let mut k: usize = 0;
        while k < registrations.len()
            invariant
                self.wf(),
                self.edges() == old(self).edges(),
                self.types() == old(self).types(),
                limit == 0xFFFF_FFFF,
                k <= registrations@.len(),
                needed as int == self.edges().len() + edge_budget(registrations@.take(k as int)),
                needed <= limit,
            decreases registrations@.len() - k,
        {
            let more = registrations[k].dependent_types.len() as u64;
            proof {
                assert(registrations@.take(k + 1).drop_last() =~= registrations@.take(k as int));
                assert(registrations@.take(k + 1).last() == registrations@[k as int]);
                lemma_budget_prefix(registrations@, k + 1);
            }
            if more >= limit - needed {
                return None;
            }
            needed = needed + 1 + more;
            k = k + 1;
        }
        proof {
            assert(registrations@.take(registrations@.len() as int) =~= registrations@);
            lemma_planned_within_budget(self.types(), registrations@);
        }
        Some(self.resolve(registrations))
    }

    /// Draws the edges that `registrations` call for, in order: from each interface to its
    /// implementation (unless they are the same type), then from the implementation to each
    /// type it depends on. Stops at the first type without a node and at the first edge that
    /// would close a cycle; `Ok(true)` when every edge was drawn.
    pub fn resolve(&mut self, registrations: &Vec<Registration>) -> (r: Result<bool, ResolveError>)
        requires
            old(self).edges().len() + planned_edges(old(self).types(), registrations@).len() <= 0xFFFF_FFFF,
        ensures
            final(self).types() == old(self).types(),
            graph_ok(final(self).types(), final(self).edges()),
            r is Err ==> drawn_prefix(
                old(self).edges(),
                planned_edges(old(self).types(), registrations@),
                final(self).edges(),
            ),
            r is Ok <==> all_found(old(self).types(), registrations@) && acyclic(
                old(self).edges() + planned_edges(old(self).types(), registrations@),
            ),
            r is Ok ==> r == Ok::<bool, ResolveError>(true) && final(self).edges() == old(self).edges()
                + planned_edges(old(self).types(), registrations@),
            r is Ok ==> links_all(final(self).types(), final(self).edges(), registrations@),
            r matches Err(ResolveError::MissingType { type_id, name }) ==> first_missing(
                old(self).types(),
                registrations@,
                type_id,
                name@,
            ),
            r matches Err(ResolveError::WouldCycle { parent, child }) ==> old(self).types().contains(parent)
                && old(self).types().contains(child) && reaches(
                final(self).edges(),
                index_in(old(self).types(), child),
                index_in(old(self).types(), parent),
            ),
    {
        proof {
            use_type_invariant(&*self);
        }
        let ghost types0 = self.types();
        let ghost e0 = self.edges();
        let ghost regs = registrations@;
        let mut k: usize = 0;
        while k < registrations.len()
            invariant
                self.wf(),
                self.types() == types0,
                types0 == old(self).types(),
                e0 == old(self).edges(),
                regs == registrations@,
                k <= regs.len(),
                self.edges() == e0 + planned_edges(types0, regs.take(k as int)),
                all_found(types0, regs.take(k as int)),
                e0.len() + planned_edges(types0, regs).len() <= 0xFFFF_FFFF,
            decreases regs.len() - k,
        {
            let reg = &registrations[k];
            let ghost before = self.edges();
            let ghost rest = planned_edges(types0, regs.skip(k + 1));
            proof {
                assert(regs.take(k + 1).drop_last() =~= regs.take(k as int));
                assert(regs.take(k + 1).last() == regs[k as int]);
                assert(regs =~= regs.take(k + 1) + regs.skip(k + 1));
                lemma_planned_concat(types0, regs.take(k + 1), regs.skip(k + 1));
                assert(e0 + planned_edges(types0, regs) =~= before + registration_edges(types0, *reg) + rest);
                assert(e0 + planned_edges(types0, regs) =~= before + (registration_edges(types0, *reg) + rest));
            }
            let interface_node = match self.node_index(&reg.interface_id) {
                Some(i) => i,
                None => {
                    proof {
                        assert(!registration_found(types0, regs[k as int]));
                        assert(regs[k as int].interface_id == reg.interface_id);
                        lemma_first_missing(types0, regs, k as int, 0, reg.interface_id, reg.interface_name@);
                        lemma_drawn_prefix(e0, planned_edges(types0, regs), before, registration_edges(types0, *reg) + rest);
                    }
                    return Err(ResolveError::MissingType { type_id: reg.interface_id, name: reg.interface_name.clone() });
                },
            };
            let implementation_node = match self.node_index(&reg.implementation_id) {
                Some(i) => i,
                None => {
                    proof {
                        assert(!registration_found(types0, regs[k as int]));
                        assert(regs[k as int].implementation_id == reg.implementation_id);
                        assert(types0[interface_node as int] == reg.interface_id);
                        lemma_first_missing(types0, regs, k as int, 1, reg.implementation_id, reg.implementation_name@);
                        lemma_drawn_prefix(e0, planned_edges(types0, regs), before, registration_edges(types0, *reg) + rest);
                    }
                    return Err(
                        ResolveError::MissingType { type_id: reg.implementation_id, name: reg.implementation_name.clone() },
                    );
                },
            };
            let ghost head = head_edges(types0, *reg);
            if implementation_node != interface_node {
                if !self.draw_edge(interface_node, implementation_node) {
                    {
                        proof {
                            assert(head == seq![(interface_node as int, implementation_node as int)]);
                            assert(registration_edges(types0, *reg) =~= seq![(interface_node as int, implementation_node as int)]
                                + dependency_edges(types0, *reg));
                            assert(before + registration_edges(types0, *reg) + rest =~= before.push(
                                (interface_node as int, implementation_node as int),
                            ) + (dependency_edges(types0, *reg) + rest));
                            lemma_refused_edge_cycles(
                                before,
                                interface_node as int,
                                implementation_node as int,
                                dependency_edges(types0, *reg) + rest,
                            );
                            lemma_drawn_prefix(e0, planned_edges(types0, regs), before, registration_edges(types0, *reg) + rest);
                        }
                        return Err(ResolveError::WouldCycle { parent: reg.interface_id, child: reg.implementation_id });
                    }
                }
            }
            assert(self.edges() == before + head);
            proof {
                assert(types0[interface_node as int] == reg.interface_id);
            }
            let deps = &reg.dependent_types;
            let mut j: usize = 0;
            proof {
                use_type_invariant(&*self);
            }
            while j < deps.len()
                invariant
                    self.wf(),
                    self.types() == types0,
                    types0 == old(self).types(),
                    e0 == old(self).edges(),
                    regs == registrations@,
                    k < regs.len(),
                    regs[k as int] == *reg,
                    e0.len() <= before.len(),
                    before.subrange(0, e0.len() as int) == e0,
                    j <= deps@.len(),
                    deps@ == reg.dependent_types@,
                    implementation_node < types0.len(),
                    types0[implementation_node as int] == reg.implementation_id,
                    types0.contains(reg.interface_id),
                    all_found(types0, regs.take(k as int)),
                    head == head_edges(types0, *reg),
                    index_in(types0, reg.implementation_id) == implementation_node,
                    self.edges() == before + head + dependency_edges(types0, *reg).take(j as int),
                    forall|x: int| 0 <= x < j ==> types0.contains((#[trigger] deps@[x]).0),
                    e0 + planned_edges(types0, regs) == before + registration_edges(types0, *reg) + rest,
                    e0.len() + planned_edges(types0, regs).len() <= 0xFFFF_FFFF,
                decreases deps@.len() - j,
            {
                let ghost cur = self.edges();
                let ghost dep_edges = dependency_edges(types0, *reg);
                let dependency_node = match self.node_index(&deps[j].0) {
                    Some(d) => d,
                    None => {
                        proof {
                            assert(!registration_found(types0, regs[k as int]));
                            assert(regs[k as int].dependent_types@.contains(deps@[j as int]));
                            assert(!types0.contains(deps@[j as int].0));
                            let local = registration_lookups(*reg);
                            assert forall|x: int| 0 <= x < j + 2 implies types0.contains((#[trigger] local[x]).0) by {
                                if x >= 2 {
                                    assert(local[x].0 == deps@[x - 2].0);
                                } else if x == 1 {
                                    assert(types0[implementation_node as int] == reg.implementation_id);
                                }
                            }
                            assert(local[j + 2] == (deps@[j as int].0, deps@[j as int].1@));
                            lemma_first_missing(types0, regs, k as int, j + 2, deps@[j as int].0, deps@[j as int].1@);
                            assert(dep_edges.len() == deps@.len());
                            assert(registration_edges(types0, *reg) == head + dep_edges);
                            assert(before + registration_edges(types0, *reg) + rest =~= cur + (dep_edges.skip(j as int) + rest));
                            lemma_drawn_prefix(e0, planned_edges(types0, regs), cur, dep_edges.skip(j as int) + rest);
                        }
                        return Err(ResolveError::MissingType { type_id: deps[j].0, name: deps[j].1.clone() });
                    },
                };
                proof {
                    assert(dep_edges[j as int] == (implementation_node as int, dependency_node as int));
                    assert(dep_edges.take(j + 1) =~= dep_edges.take(j as int).push(dep_edges[j as int]));
                    assert(dep_edges.len() == deps@.len());
                    assert(registration_edges(types0, *reg) == head + dep_edges);
                    assert(dep_edges =~= dep_edges.take(j as int) + dep_edges.skip(j as int));
                    assert(dep_edges.skip(j as int) =~= seq![dep_edges[j as int]] + dep_edges.skip(j + 1));
                    assert(cur == before + head + dep_edges.take(j as int));
                    assert(before + registration_edges(types0, *reg) + rest =~= cur.push(dep_edges[j as int])
                        + (dep_edges.skip(j + 1) + rest));
                    assert(types0[dependency_node as int] == deps@[j as int].0);
                    assert(types0.contains(deps@[j as int].0));
                    assert(types0[implementation_node as int] == reg.implementation_id);
                    assert(types0.contains(reg.implementation_id));
                }
                if !self.draw_edge(implementation_node, dependency_node) {
                    {
                        proof {
                            lemma_refused_edge_cycles(
                                cur,
                                implementation_node as int,
                                dependency_node as int,
                                dep_edges.skip(j + 1) + rest,
                            );
                            assert(cur.push(dep_edges[j as int]) + (dep_edges.skip(j + 1) + rest) =~= cur + (seq![dep_edges[j as int]] + (dep_edges.skip(j + 1) + rest)));
                            lemma_drawn_prefix(e0, planned_edges(types0, regs), cur, seq![dep_edges[j as int]] + (dep_edges.skip(j + 1) + rest));
                        }
                        return Err(ResolveError::WouldCycle { parent: reg.implementation_id, child: deps[j].0 });
                    }
                }
                proof {
                    use_type_invariant(&*self);
                }
                j = j + 1;
            }
            proof {
                assert(dependency_edges(types0, *reg).take(deps@.len() as int) =~= dependency_edges(types0, *reg));
                assert(planned_edges(types0, regs.take(k + 1)) =~= planned_edges(types0, regs.take(k as int))
                    + registration_edges(types0, *reg));
                assert(registration_found(types0, regs[k as int]));
                assert forall|x: int| 0 <= x < k + 1 implies #[trigger] registration_found(types0, regs.take(k + 1)[x]) by {
                    if x < k {
                        assert(regs.take(k + 1)[x] == regs.take(k as int)[x]);
                    }
                }
            }
            k = k + 1;
        }
        proof {
            assert(regs.take(regs.len() as int) =~= regs);
            law_planned_edges_link_every_registration(types0, regs);
            lemma_links_all_after(types0, e0, planned_edges(types0, regs), regs);
        }
        Ok(true)
    }
}

} // verus!
