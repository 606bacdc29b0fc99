//! Directed graphs given by their edge lists, with walks, reachability and acyclicity.
use vstd::prelude::*;

verus! {

/// The edge `(a, b)` is among `edges`.
pub open spec fn has_edge(edges: Seq<(int, int)>, a: int, b: int) -> bool {
    exists|k: int| 0 <= k < edges.len() && edges[k] == (a, b)
}

/// `p` is a walk along `edges`: each node is followed by a successor.
pub open spec fn is_walk(edges: Seq<(int, int)>, p: Seq<int>) -> bool {
    &&& p.len() >= 1
    &&& forall|i: int| 0 <= i < p.len() - 1 ==> #[trigger] has_edge(edges, p[i], p[i + 1])
}

/// A walk along `edges` leads from `from` to `to` (every node reaches itself).
pub open spec fn reaches(edges: Seq<(int, int)>, from: int, to: int) -> bool {
    exists|p: Seq<int>| #[trigger] is_walk(edges, p) && p[0] == from && p.last() == to
}

/// No walk of one edge or more along `edges` comes back to where it started.
pub open spec fn acyclic(edges: Seq<(int, int)>) -> bool {
    forall|p: Seq<int>| #[trigger] is_walk(edges, p) && p.len() >= 2 ==> p[0] != p.last()
}

/// Every edge joins two of the first `n` nodes.
pub open spec fn edges_within(edges: Seq<(int, int)>, n: int) -> bool {
    forall|k: int| 0 <= k < edges.len() ==> 0 <= #[trigger] edges[k].0 < n && 0 <= edges[k].1 < n
}

/// A walk followed by one more edge is a walk.
pub proof fn lemma_walk_extend(edges: Seq<(int, int)>, p: Seq<int>, y: int)
    requires
        is_walk(edges, p),
        has_edge(edges, p.last(), y),
    ensures
        is_walk(edges, p.push(y)),
{
    let q = p.push(y);
    assert forall|i: int| 0 <= i < q.len() - 1 implies #[trigger] has_edge(edges, q[i], q[i + 1]) by {
        if i < p.len() - 1 {
            assert(q[i] == p[i] && q[i + 1] == p[i + 1]);
        } else {
            assert(q[i] == p.last() && q[i + 1] == y);
        }
    }
}

/// Reachability is transitive.
pub proof fn lemma_reaches_trans(edges: Seq<(int, int)>, u: int, v: int, w: int)
    requires
        reaches(edges, u, v),
        reaches(edges, v, w),
    ensures
        reaches(edges, u, w),
{
    let p = choose|p: Seq<int>| #[trigger] is_walk(edges, p) && p[0] == u && p.last() == v;
    let q = choose|q: Seq<int>| #[trigger] is_walk(edges, q) && q[0] == v && q.last() == w;
    let r = p + q.drop_first();
    assert forall|i: int| 0 <= i < r.len() - 1 implies #[trigger] has_edge(edges, r[i], r[i + 1]) by {
        if i < p.len() - 1 {
            assert(r[i] == p[i] && r[i + 1] == p[i + 1]);
        } else if i == p.len() - 1 {
            assert(r[i] == p.last());
            assert(r[i + 1] == q[1]);
            assert(has_edge(edges, q[0], q[1]));
        } else {
            let j = i - p.len() + 1;
            assert(r[i] == q[j] && r[i + 1] == q[j + 1]);
            assert(has_edge(edges, q[j], q[j + 1]));
        }
    }
    assert(is_walk(edges, r));
    if q.len() == 1 {
        assert(r =~= p);
    } else {
        assert(r.last() == q.last());
    }
    assert(r[0] == u);
}

/// An edge among a longer list of edges is still there.
pub proof fn lemma_has_edge_prefix(edges: Seq<(int, int)>, more: Seq<(int, int)>, a: int, b: int)
    requires
        has_edge(edges, a, b),
    ensures
        has_edge(edges + more, a, b),
{
    let k = choose|k: int| 0 <= k < edges.len() && edges[k] == (a, b);
    assert((edges + more)[k] == (a, b));
}

/// A walk along some edges is a walk along any list that begins with them.
pub proof fn lemma_reaches_prefix(edges: Seq<(int, int)>, more: Seq<(int, int)>, u: int, v: int)
    requires
        reaches(edges, u, v),
    ensures
        reaches(edges + more, u, v),
{
    let p = choose|p: Seq<int>| #[trigger] is_walk(edges, p) && p[0] == u && p.last() == v;
    assert forall|i: int| 0 <= i < p.len() - 1 implies #[trigger] has_edge(edges + more, p[i], p[i + 1]) by {
        assert(has_edge(edges, p[i], p[i + 1]));
        lemma_has_edge_prefix(edges, more, p[i], p[i + 1]);
    }
    assert(is_walk(edges + more, p));
}

/// A walk along `edges` with `(a, b)` added either keeps to `edges`, or goes from its start
/// to `a` and from `b` to its end along `edges`.
proof fn lemma_walk_with_edge(edges: Seq<(int, int)>, a: int, b: int, p: Seq<int>)
    requires
        is_walk(edges.push((a, b)), p),
    ensures
        is_walk(edges, p) || (reaches(edges, p[0], a) && reaches(edges, b, p.last())),
    decreases p.len(),
{
    let e2 = edges.push((a, b));
    if p.len() == 1 {
        assert(is_walk(edges, p));
    } else {
        let q = p.drop_last();
        let y = p.last();
        let x = q.last();
        assert(is_walk(e2, q)) by {
            assert forall|i: int| 0 <= i < q.len() - 1 implies #[trigger] has_edge(e2, q[i], q[i + 1]) by {
                assert(q[i] == p[i] && q[i + 1] == p[i + 1]);
            }
        }
        lemma_walk_with_edge(edges, a, b, q);
        let n2 = p.len() - 2;
        assert(has_edge(e2, p[n2], p[n2 + 1]));
        assert(x == p[n2] && y == p[n2 + 1]);
        let k = choose|k: int| 0 <= k < e2.len() && e2[k] == (x, y);
        let old_edge = k < edges.len();
        if old_edge {
            assert(edges[k] == (x, y));
            assert(has_edge(edges, x, y));
        }
        assert(q[0] == p[0]);
        if is_walk(edges, q) {
            if old_edge {
                lemma_walk_extend(edges, q, y);
                assert(q.push(y) =~= p);
            } else {
                assert(x == a && y == b);
                assert(reaches(edges, p[0], a));
                let w = seq![b];
                assert(is_walk(edges, w));
                assert(reaches(edges, b, p.last()));
            }
        } else {
            if old_edge {
                let r = choose|r: Seq<int>| #[trigger] is_walk(edges, r) && r[0] == b && r.last() == x;
                lemma_walk_extend(edges, r, y);
                assert(r.push(y)[0] == b);
                assert(reaches(edges, b, p.last()));
            } else {
                assert(y == b);
                let w = seq![b];
                assert(is_walk(edges, w));
                assert(reaches(edges, b, p.last()));
            }
        }
    }
}

/// Adding an edge `(a, b)` to an acyclic graph keeps it acyclic when `b` does not reach `a`.
pub proof fn lemma_add_edge_acyclic(edges: Seq<(int, int)>, a: int, b: int)
    requires
        acyclic(edges),
        !reaches(edges, b, a),
    ensures
        acyclic(edges.push((a, b))),
{
    let e2 = edges.push((a, b));
    assert forall|p: Seq<int>| #[trigger] is_walk(e2, p) && p.len() >= 2 implies p[0] != p.last() by {
        lemma_walk_with_edge(edges, a, b, p);
        if !is_walk(edges, p) && p[0] == p.last() {
            lemma_reaches_trans(edges, b, p[0], a);
        }
    }
}

/// Adding an edge `(a, b)` to an acyclic graph in which `b` does not reach `a` keeps it
/// acyclic.
pub proof fn lemma_add_edge_acyclic_if(edges: Seq<(int, int)>, a: int, b: int)
    ensures
        acyclic(edges) && !reaches(edges, b, a) ==> acyclic(edges.push((a, b))),
{
    if acyclic(edges) && !reaches(edges, b, a) {
        lemma_add_edge_acyclic(edges, a, b);
    }
}

/// A graph with an edge `(a, b)` in which `b` reaches `a` has a cycle.
pub proof fn lemma_cycle(edges: Seq<(int, int)>, a: int, b: int)
    requires
        has_edge(edges, a, b),
        reaches(edges, b, a),
    ensures
        !acyclic(edges),
{
    let p = choose|p: Seq<int>| #[trigger] is_walk(edges, p) && p[0] == b && p.last() == a;
    lemma_walk_extend(edges, p, b);
    let q = p.push(b);
    assert(q[0] == b && q.last() == b && q.len() >= 2);
}

} // verus!
