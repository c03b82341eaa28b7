//! The shortest-path engine: Dijkstra's algorithm over a `Graph`, driven by a
//! private min-heap of `Node` entries.

use crate::graph::Graph;
use crate::heap::{is_min_heap, Heap, HeapOrd};
use crate::node::Node;
use vstd::prelude::*;

verus! {

broadcast use
    vstd::seq_lib::group_to_multiset_ensures,
    vstd::seq_lib::lemma_seq_contains_after_push,
    vstd::multiset::group_multiset_axioms,
;

/// Sentinel distance given to a vertex before any path to it has been found:
/// large enough that a single relaxation from any reached vertex undercuts it.
pub const UNREACHED: u64 = u64::MAX - 1000;

/// All vertices mentioned in `s` are pairwise distinct.
pub open spec fn distinct_vertices(s: Seq<Node>) -> bool {
    forall|i: int, j: int|
        0 <= i < j < s.len() ==> (#[trigger] s[i]).vertex != (#[trigger] s[j]).vertex
}

/// Some entry of `s` carries vertex `v`.
pub open spec fn appears(s: Seq<Node>, v: i64) -> bool {
    exists|i: int| 0 <= i < s.len() && (#[trigger] s[i]).vertex == v
}

/// Distances are non-decreasing along `s` (the settlement order).
pub open spec fn sorted_by_distance(s: Seq<Node>) -> bool {
    forall|i: int, j: int|
        0 <= i <= j < s.len() ==> (#[trigger] s[i]).distance <= (#[trigger] s[j]).distance
}

/// What one result entry means. Either the entry is the source itself, settled
/// at distance 0; or it was relaxed from an earlier settled predecessor `p`
/// over a real edge whose weight accounts exactly for the distance difference;
/// or it was never reached and keeps the sentinel distance with no predecessor.
pub open spec fn settled_entry_ok(g: Graph, start: i64, r: Seq<Node>, i: int) -> bool {
    &&& r[i].distance <= UNREACHED
    &&& (r[i].prev is None ==> ((r[i].vertex == start && r[i].distance == 0) || (r[i].distance
        == UNREACHED && r[i].vertex != start)))
    &&& (r[i].prev matches Some(p) ==> exists|j: int, k: int|
        0 <= j < i && (#[trigger] r[j]).vertex == p && 0 <= k < g.adj_of(p).len() && (
        #[trigger] g.adj_of(p)[k]).0 == r[i].vertex && r[i].distance == r[j].distance + g.adj_of(
            p,
        )[k].1 && r[i].distance < UNREACHED)
}

/// Every result entry is accounted for as `settled_entry_ok` says.
pub open spec fn settled_ok(g: Graph, start: i64, r: Seq<Node>) -> bool {
    forall|i: int| 0 <= i < r.len() ==> #[trigger] settled_entry_ok(g, start, r, i)
}

/// What a live heap entry means, relative to the already settled prefix `r`:
/// the same three cases, with the predecessor anywhere in `r`.
pub open spec fn heap_entry_ok(g: Graph, start: i64, r: Seq<Node>, n: Node) -> bool {
    &&& n.distance <= UNREACHED
    &&& (n.prev is None ==> ((n.vertex == start && n.distance == 0) || (n.distance == UNREACHED
        && n.vertex != start)))
    &&& (n.prev matches Some(p) ==> exists|j: int, k: int|
        0 <= j < r.len() && (#[trigger] r[j]).vertex == p && 0 <= k < g.adj_of(p).len() && (
        #[trigger] g.adj_of(p)[k]).0 == n.vertex && n.distance == r[j].distance + g.adj_of(p)[k].1
            && n.distance < UNREACHED)
}

/// The shape every heap entry has right after initialization.
spec fn init_entry(start: i64, n: Node) -> bool {
    n.prev is None && ((n.vertex == start && n.distance == 0) || (n.vertex != start && n.distance
        == UNREACHED))
}

/// Two sequences with equal element multisets mention the same nodes and the
/// same vertices, and distinctness of vertices carries over.
proof fn lemma_perm_nodes(s1: Seq<Node>, s2: Seq<Node>)
    requires
        s1.to_multiset() == s2.to_multiset(),
    ensures
        s1.len() == s2.len(),
        forall|n: Node| s1.contains(n) <==> s2.contains(n),
        forall|v: i64| appears(s1, v) <==> appears(s2, v),
        distinct_vertices(s1) ==> distinct_vertices(s2),
{
    assert(s1.len() == s1.to_multiset().len());
    assert(s2.len() == s2.to_multiset().len());
    assert forall|n: Node| s1.contains(n) <==> s2.contains(n) by {
        assert(s1.contains(n) <==> s1.to_multiset().count(n) > 0);
        assert(s2.contains(n) <==> s2.to_multiset().count(n) > 0);
    }
    assert forall|v: i64| appears(s1, v) implies appears(s2, v) by {
        let i = choose|i: int| 0 <= i < s1.len() && (#[trigger] s1[i]).vertex == v;
        assert(s1.contains(s1[i]));
        let j = choose|j: int| 0 <= j < s2.len() && s2[j] == s1[i];
        assert(s2[j].vertex == v);
    }
    assert forall|v: i64| appears(s2, v) implies appears(s1, v) by {
        let i = choose|i: int| 0 <= i < s2.len() && (#[trigger] s2[i]).vertex == v;
        assert(s2.contains(s2[i]));
        let j = choose|j: int| 0 <= j < s1.len() && s1[j] == s2[i];
        assert(s1[j].vertex == v);
    }
    if distinct_vertices(s1) {
        assert forall|i: int, j: int|
            0 <= i < s1.len() && 0 <= j < s1.len() && i != j implies s1[i] != s1[j] by {
            if i < j {
                assert(s1[i].vertex != s1[j].vertex);
            } else {
                assert(s1[j].vertex != s1[i].vertex);
            }
        }
        s1.lemma_multiset_has_no_duplicates();
        s2.lemma_multiset_has_no_duplicates_conv();
        assert forall|i: int, j: int|
            0 <= i < j < s2.len() implies (#[trigger] s2[i]).vertex != (#[trigger] s2[j]).vertex by {
            if s2[i].vertex == s2[j].vertex {
                assert(s2[i] != s2[j]);
                assert(s2.contains(s2[i]));
                assert(s2.contains(s2[j]));
                let a = choose|a: int| 0 <= a < s1.len() && s1[a] == s2[i];
                let b = choose|b: int| 0 <= b < s1.len() && s1[b] == s2[j];
                assert(a != b);
                if a < b {
                    assert(s1[a].vertex != s1[b].vertex);
                } else {
                    assert(s1[b].vertex != s1[a].vertex);
                }
            }
        }
    }
}

/// Settling one vertex: popping the heap minimum `h0[0]` and appending it to
/// the result keeps every engine invariant, with `h2` the remaining heap.
proof fn lemma_settle_step(g: Graph, start: i64, h0: Seq<Node>, h2: Seq<Node>, r0: Seq<Node>, r1: Seq<Node>)
    requires
        g.wf(),
        h0.len() > 0,
        h2.to_multiset() == h0.remove(0).to_multiset(),
        forall|i: int| 0 <= i < h0.len() ==> h0[0].key() <= (#[trigger] h0[i].key()),
        r1 == r0.push(h0[0]),
        distinct_vertices(h0),
        distinct_vertices(r0),
        forall|i: int, j: int|
            0 <= i < h0.len() && 0 <= j < r0.len() ==> (#[trigger] h0[i]).vertex != (
            #[trigger] r0[j]).vertex,
        forall|v: i64| #[trigger] g.has_vertex(v) ==> appears(h0, v) || appears(r0, v),
        forall|n: Node| #[trigger] h0.contains(n) ==> g.has_vertex(n.vertex),
        forall|i: int| 0 <= i < r0.len() ==> g.has_vertex((#[trigger] r0[i]).vertex),
        sorted_by_distance(r0),
        forall|i: int, j: int|
            0 <= i < r0.len() && 0 <= j < h0.len() ==> (#[trigger] r0[i]).distance <= (
            #[trigger] h0[j]).distance,
        settled_ok(g, start, r0),
        forall|n: Node| #[trigger] h0.contains(n) ==> heap_entry_ok(g, start, r0, n),
        r0.len() == 0 ==> forall|n: Node| #[trigger] h0.contains(n) ==> init_entry(start, n),
        r0.len() == 0 ==> appears(h0, start),
        r0.len() > 0 ==> r0[0].vertex == start && r0[0].distance == 0 && r0[0].prev is None,
    ensures
        h2.len() == h0.len() - 1,
        distinct_vertices(h2),
        distinct_vertices(r1),
        forall|i: int, j: int|
            0 <= i < h2.len() && 0 <= j < r1.len() ==> (#[trigger] h2[i]).vertex != (
            #[trigger] r1[j]).vertex,
        forall|v: i64| #[trigger] g.has_vertex(v) ==> appears(h2, v) || appears(r1, v),
        forall|n: Node|
            #[trigger] h2.contains(n) ==> g.has_vertex(n.vertex) && h0[0].distance <= n.distance,
        forall|i: int| 0 <= i < r1.len() ==> g.has_vertex((#[trigger] r1[i]).vertex),
        sorted_by_distance(r1),
        forall|i: int, j: int|
            0 <= i < r1.len() && 0 <= j < h2.len() ==> (#[trigger] r1[i]).distance <= (
            #[trigger] h2[j]).distance,
        settled_ok(g, start, r1),
        forall|n: Node| #[trigger] h2.contains(n) ==> heap_entry_ok(g, start, r1, n),
        r1[0].vertex == start && r1[0].distance == 0 && r1[0].prev is None,
        r1[r1.len() - 1] == h0[0],
        g.has_vertex(h0[0].vertex),
{
    let subject = h0[0];
    assert(h0.contains(subject));
    assert(h0.remove(0) =~= h0.subrange(1, h0.len() as int));
    lemma_perm_nodes(h0.remove(0), h2);
    assert(distinct_vertices(h0.remove(0))) by {
        assert forall|i: int, j: int| 0 <= i < j < h0.remove(0).len() implies (
        #[trigger] h0.remove(0)[i]).vertex != (#[trigger] h0.remove(0)[j]).vertex by {
            assert(h0[i + 1].vertex != h0[j + 1].vertex);
        }
    }
    if r0.len() == 0 {
        let si = choose|i: int| 0 <= i < h0.len() && (#[trigger] h0[i]).vertex == start;
        assert(h0.contains(h0[si]));
        assert(h0[0].key() <= h0[si].key());
        assert(init_entry(start, h0[0]));
        assert(subject.vertex == start && subject.distance == 0 && subject.prev is None);
    }
    assert(r1[r0.len() as int] == subject);
    assert forall|i: int| 0 <= i < r1.len() implies #[trigger] settled_entry_ok(g, start, r1, i) by {
        if i < r0.len() {
            assert(settled_entry_ok(g, start, r0, i));
            assert(r1[i] == r0[i]);
            if r0[i].prev is Some {
                let p = r0[i].prev->0;
                let (j, k) = choose|j: int, k: int|
                    0 <= j < i && (#[trigger] r0[j]).vertex == p && 0 <= k < g.adj_of(p).len() && (
                    #[trigger] g.adj_of(p)[k]).0 == r0[i].vertex && r0[i].distance
                        == r0[j].distance + g.adj_of(p)[k].1 && r0[i].distance < UNREACHED;
                assert(r1[j] == r0[j]);
            }
        } else {
            assert(heap_entry_ok(g, start, r0, subject));
            if subject.prev is Some {
                let p = subject.prev->0;
                let (j, k) = choose|j: int, k: int|
                    0 <= j < r0.len() && (#[trigger] r0[j]).vertex == p && 0 <= k < g.adj_of(
                        p,
                    ).len() && (#[trigger] g.adj_of(p)[k]).0 == subject.vertex && subject.distance
                        == r0[j].distance + g.adj_of(p)[k].1 && subject.distance < UNREACHED;
                assert(r1[j] == r0[j]);
            }
        }
    }
    assert forall|n: Node| #[trigger] h2.contains(n) implies heap_entry_ok(g, start, r1, n)
        && g.has_vertex(n.vertex) && h0[0].distance <= n.distance by {
        assert(h0.remove(0).contains(n));
        let i = choose|i: int| 0 <= i < h0.remove(0).len() && h0.remove(0)[i] == n;
        assert(h0[i + 1] == n);
        assert(h0.contains(h0[i + 1]));
        assert(h0[0].key() <= h0[i + 1].key());
        assert(heap_entry_ok(g, start, r0, n));
        if n.prev is Some {
            let p = n.prev->0;
            let (j, k) = choose|j: int, k: int|
                0 <= j < r0.len() && (#[trigger] r0[j]).vertex == p && 0 <= k < g.adj_of(p).len()
                    && (#[trigger] g.adj_of(p)[k]).0 == n.vertex && n.distance == r0[j].distance
                    + g.adj_of(p)[k].1 && n.distance < UNREACHED;
            assert(r1[j] == r0[j]);
        }
    }
    assert forall|i: int, j: int| 0 <= i < h2.len() && 0 <= j < r1.len() implies (
    #[trigger] h2[i]).vertex != (#[trigger] r1[j]).vertex by {
        assert(h2.contains(h2[i]));
        assert(appears(h2, h2[i].vertex));
        assert(appears(h0.remove(0), h2[i].vertex));
        let k = choose|k: int|
            0 <= k < h0.remove(0).len() && (#[trigger] h0.remove(0)[k]).vertex == h2[i].vertex;
        assert(h0[k + 1].vertex == h2[i].vertex);
        if j < r0.len() {
            assert(h0[k + 1].vertex != r0[j].vertex);
        } else {
            assert(h0[k + 1].vertex != h0[0].vertex);
        }
    }
    assert forall|v: i64| #[trigger] g.has_vertex(v) implies appears(h2, v) || appears(r1, v) by {
        if appears(h0, v) && v != subject.vertex {
            let i = choose|i: int| 0 <= i < h0.len() && (#[trigger] h0[i]).vertex == v;
            assert(i != 0);
            assert(h0.remove(0)[i - 1].vertex == v);
            assert(appears(h0.remove(0), v));
        } else if appears(r0, v) {
            let i = choose|i: int| 0 <= i < r0.len() && (#[trigger] r0[i]).vertex == v;
            assert(r1[i].vertex == v);
            assert(appears(r1, v));
        } else {
            assert(appears(r1, subject.vertex)) by {
                assert(r1[r0.len() as int].vertex == subject.vertex);
            }
        }
    }
    assert forall|i: int, j: int| 0 <= i < r1.len() && 0 <= j < h2.len() implies (
    #[trigger] r1[i]).distance <= (#[trigger] h2[j]).distance by {
        let n = h2[j];
        assert(h2.contains(n));
        assert(h0.remove(0).contains(n));
        let a = choose|a: int| 0 <= a < h0.remove(0).len() && h0.remove(0)[a] == n;
        assert(h0[a + 1] == n);
        assert(h0[0].key() <= h0[a + 1].key());
        if i < r0.len() {
            assert(r0[i].distance <= h0[a + 1].distance);
            assert(r1[i] == r0[i]);
        }
    }
}

/// One relaxation: replacing the heap entry for a neighbor of the freshly
/// settled `subject` by a strictly closer candidate keeps every engine
/// invariant, with `h2` the heap afterwards.
proof fn lemma_relax_step(
    g: Graph,
    start: i64,
    h1: Seq<Node>,
    h2: Seq<Node>,
    r: Seq<Node>,
    subject: Node,
    cand: Node,
    i: int,
    e: int,
)
    requires
        g.wf(),
        0 <= i < h1.len(),
        h2.to_multiset() == h1.update(i, cand).to_multiset(),
        cand.vertex == h1[i].vertex,
        cand.prev == Some(subject.vertex),
        r.len() > 0,
        r[r.len() - 1] == subject,
        sorted_by_distance(r),
        0 <= e < g.adj_of(subject.vertex).len(),
        g.adj_of(subject.vertex)[e].0 == cand.vertex,
        cand.distance == subject.distance + g.adj_of(subject.vertex)[e].1,
        cand.distance < h1[i].distance,
        distinct_vertices(h1),
        forall|a: int, b: int|
            0 <= a < h1.len() && 0 <= b < r.len() ==> (#[trigger] h1[a]).vertex != (
            #[trigger] r[b]).vertex,
        forall|n: Node|
            #[trigger] h1.contains(n) ==> g.has_vertex(n.vertex) && subject.distance <= n.distance
                && heap_entry_ok(g, start, r, n),
        forall|a: int, b: int|
            0 <= a < r.len() && 0 <= b < h1.len() ==> (#[trigger] r[a]).distance <= (
            #[trigger] h1[b]).distance,
    ensures
        h2.len() == h1.len(),
        distinct_vertices(h2),
        forall|a: int, b: int|
            0 <= a < h2.len() && 0 <= b < r.len() ==> (#[trigger] h2[a]).vertex != (
            #[trigger] r[b]).vertex,
        forall|v: i64| appears(h2, v) <==> appears(h1, v),
        forall|n: Node|
            #[trigger] h2.contains(n) ==> g.has_vertex(n.vertex) && subject.distance <= n.distance
                && heap_entry_ok(g, start, r, n),
        forall|a: int, b: int|
            0 <= a < r.len() && 0 <= b < h2.len() ==> (#[trigger] r[a]).distance <= (
            #[trigger] h2[b]).distance,
{
    let hu = h1.update(i, cand);
    lemma_perm_nodes(hu, h2);
    assert(h1.contains(h1[i]));
    assert(heap_entry_ok(g, start, r, h1[i]));
    assert(cand.distance < UNREACHED);
    assert(distinct_vertices(hu)) by {
        assert forall|a: int, b: int| 0 <= a < b < hu.len() implies (#[trigger] hu[a]).vertex != (
        #[trigger] hu[b]).vertex by {
            assert(h1[a].vertex != h1[b].vertex);
        }
    }
    assert forall|v: i64| appears(hu, v) <==> appears(h1, v) by {
        if appears(hu, v) {
            let a = choose|a: int| 0 <= a < hu.len() && (#[trigger] hu[a]).vertex == v;
            assert(h1[a].vertex == v);
            assert(appears(h1, v));
        }
        if appears(h1, v) {
            let a = choose|a: int| 0 <= a < h1.len() && (#[trigger] h1[a]).vertex == v;
            assert(hu[a].vertex == v);
            assert(appears(hu, v));
        }
    }
    assert(heap_entry_ok(g, start, r, cand)) by {
        let p = cand.prev->0;
        let j = r.len() - 1;
        assert(p == subject.vertex);
        assert(r[j].vertex == p);
        assert(g.adj_of(p)[e].0 == cand.vertex);
        assert(g.adj_of(p)[e].1 == g.adj_of(subject.vertex)[e].1);
        assert(0 <= j < r.len() && (r[j]).vertex == p && 0 <= e < g.adj_of(p).len() && (g.adj_of(
            p,
        )[e]).0 == cand.vertex && cand.distance == r[j].distance + g.adj_of(p)[e].1
            && cand.distance < UNREACHED);
        assert(exists|j2: int, k2: int|
            0 <= j2 < r.len() && (#[trigger] r[j2]).vertex == p && 0 <= k2 < g.adj_of(p).len() && (
            #[trigger] g.adj_of(p)[k2]).0 == cand.vertex && cand.distance == r[j2].distance
                + g.adj_of(p)[k2].1 && cand.distance < UNREACHED);
    }
    assert forall|n: Node| #[trigger] h2.contains(n) implies g.has_vertex(n.vertex)
        && subject.distance <= n.distance && heap_entry_ok(g, start, r, n) by {
        assert(hu.contains(n));
        let a = choose|a: int| 0 <= a < hu.len() && hu[a] == n;
        if a != i {
            assert(h1[a] == n);
            assert(h1.contains(n));
        } else {
            assert(n == cand);
            assert(g.has_vertex(cand.vertex)) by {
                assert(h1[i].vertex == cand.vertex);
            }
        }
    }
    assert forall|a: int, b: int| 0 <= a < h2.len() && 0 <= b < r.len() implies (
    #[trigger] h2[a]).vertex != (#[trigger] r[b]).vertex by {
        assert(h2.contains(h2[a]));
        assert(appears(h2, h2[a].vertex));
        assert(appears(h1, h2[a].vertex));
        let c = choose|c: int| 0 <= c < h1.len() && (#[trigger] h1[c]).vertex == h2[a].vertex;
        assert(h1[c].vertex != r[b].vertex);
    }
    assert forall|a: int, b: int| 0 <= a < r.len() && 0 <= b < h2.len() implies (
    #[trigger] r[a]).distance <= (#[trigger] h2[b]).distance by {
        let n = h2[b];
        assert(h2.contains(n));
        assert(hu.contains(n));
        let c = choose|c: int| 0 <= c < hu.len() && hu[c] == n;
        if c != i {
            assert(h1[c] == n);
        } else {
            assert(n == cand);
            assert(r[a].distance <= subject.distance);
        }
    }
}

/// A walk through `g`: the first step is the source at weight 0; every later
/// step names the next vertex and the weight of an edge reaching it from the
/// previous step's vertex.
pub open spec fn is_path(g: Graph, start: i64, steps: Seq<(i64, u64)>) -> bool {
    &&& steps.len() >= 1
    &&& steps[0] == (start, 0u64)
    &&& forall|i: int| 0 <= i < steps.len() ==> g.has_vertex((#[trigger] steps[i]).0)
    &&& forall|i: int|
        1 <= i < steps.len() ==> g.spec_edge((#[trigger] steps[i - 1]).0, steps[i].0, steps[i].1)
}

/// Total edge weight of a path.
pub open spec fn path_weight(steps: Seq<(i64, u64)>) -> int
    decreases steps.len(),
{
    if steps.len() == 0 {
        0
    } else {
        path_weight(steps.drop_last()) + steps.last().1
    }
}

/// No path from the source to a settled vertex is shorter than the distance
/// the engine settled it at.
pub open spec fn distances_minimal(g: Graph, start: i64, r: Seq<Node>) -> bool {
    forall|i: int, steps: Seq<(i64, u64)>|
        0 <= i < r.len() && #[trigger] is_path(g, start, steps) && steps.last().0 == (
        #[trigger] r[i]).vertex ==> path_weight(steps) >= r[i].distance
}

/// The `k`-th outgoing edge of the settled node `x` has been relaxed into the
/// heap `h`: any heap entry for its target is within the edge's reach of `x`.
spec fn edge_relaxed(g: Graph, h: Seq<Node>, x: Node, k: int) -> bool {
    forall|j: int|
        0 <= j < h.len() && (#[trigger] h[j]).vertex == g.adj_of(x.vertex)[k].0 ==> h[j].distance
            <= x.distance + g.adj_of(x.vertex)[k].1
}

/// The first `upto` outgoing edges of `x` have been relaxed into `h`.
spec fn edges_relaxed_to(g: Graph, h: Seq<Node>, x: Node, upto: int) -> bool {
    forall|k: int| 0 <= k < upto ==> #[trigger] edge_relaxed(g, h, x, k)
}

/// Every outgoing edge of every settled entry has been relaxed into `h`.
spec fn settled_edges_relaxed(g: Graph, r: Seq<Node>, h: Seq<Node>) -> bool {
    forall|i: int, k: int|
        0 <= i < r.len() && 0 <= k < g.adj_of((#[trigger] r[i]).vertex).len()
            ==> #[trigger] edge_relaxed(g, h, r[i], k)
}

/// Every vertex of `h2` already sat in `h1`, at no smaller a distance.
spec fn pointwise_no_increase(h1: Seq<Node>, h2: Seq<Node>) -> bool {
    forall|j2: int|
        0 <= j2 < h2.len() ==> exists|j1: int|
            0 <= j1 < h1.len() && (#[trigger] h2[j2]).vertex == (#[trigger] h1[j1]).vertex
                && h2[j2].distance <= h1[j1].distance
}

/// A path's total weight is never negative.
proof fn lemma_path_weight_nonneg(steps: Seq<(i64, u64)>)
    ensures
        path_weight(steps) >= 0,
    decreases steps.len(),
{
    if steps.len() > 0 {
        lemma_path_weight_nonneg(steps.drop_last());
    }
}

/// Popping the heap minimum leaves every remaining vertex where it was.
proof fn lemma_remove_pointwise(h0: Seq<Node>, h2: Seq<Node>)
    requires
        h0.len() > 0,
        h2.to_multiset() == h0.remove(0).to_multiset(),
    ensures
        pointwise_no_increase(h0, h2),
{
    assert(h0.remove(0) =~= h0.subrange(1, h0.len() as int));
    lemma_perm_nodes(h0.remove(0), h2);
    assert forall|j2: int| 0 <= j2 < h2.len() implies exists|j1: int|
        0 <= j1 < h0.len() && (#[trigger] h2[j2]).vertex == (#[trigger] h0[j1]).vertex
            && h2[j2].distance <= h0[j1].distance by {
        assert(h2.contains(h2[j2]));
        assert(h0.remove(0).contains(h2[j2]));
        let a = choose|a: int| 0 <= a < h0.remove(0).len() && h0.remove(0)[a] == h2[j2];
        assert(h0[a + 1] == h2[j2]);
    }
}

/// A strictly improving relaxation leaves every vertex in place with a
/// distance no larger than before, and pins the relaxed vertex under the
/// candidate's distance.
proof fn lemma_relax_transition(h1: Seq<Node>, h2: Seq<Node>, cand: Node, i: int)
    requires
        0 <= i < h1.len(),
        h2.to_multiset() == h1.update(i, cand).to_multiset(),
        cand.vertex == h1[i].vertex,
        cand.distance <= h1[i].distance,
        distinct_vertices(h1),
    ensures
        pointwise_no_increase(h1, h2),
        forall|j: int|
            0 <= j < h2.len() && (#[trigger] h2[j]).vertex == cand.vertex ==> h2[j].distance
                <= cand.distance,
{
    let hu = h1.update(i, cand);
    lemma_perm_nodes(hu, h2);
    assert forall|j2: int| 0 <= j2 < h2.len() implies exists|j1: int|
        0 <= j1 < h1.len() && (#[trigger] h2[j2]).vertex == (#[trigger] h1[j1]).vertex
            && h2[j2].distance <= h1[j1].distance by {
        assert(h2.contains(h2[j2]));
        assert(hu.contains(h2[j2]));
        let a = choose|a: int| 0 <= a < hu.len() && hu[a] == h2[j2];
        if a == i {
            assert(h1[i].vertex == h2[j2].vertex && h2[j2].distance <= h1[i].distance);
        } else {
            assert(h1[a] == h2[j2]);
        }
    }
    assert forall|j: int|
        0 <= j < h2.len() && (#[trigger] h2[j]).vertex == cand.vertex implies h2[j].distance
        <= cand.distance by {
        assert(h2.contains(h2[j]));
        assert(hu.contains(h2[j]));
        let a = choose|a: int| 0 <= a < hu.len() && hu[a] == h2[j];
        if a != i {
            assert(h1[a] == h2[j]);
            assert(h1[a].vertex != h1[i].vertex);
        }
    }
}

/// Relaxation bounds survive any heap step that moves no vertex's distance
/// up: both the settled entries' closures and a partially relaxed frontier.
proof fn lemma_relaxed_carry(
    g: Graph,
    r: Seq<Node>,
    sub: Node,
    upto: int,
    h1: Seq<Node>,
    h2: Seq<Node>,
)
    requires
        pointwise_no_increase(h1, h2),
        settled_edges_relaxed(g, r, h1),
        edges_relaxed_to(g, h1, sub, upto),
    ensures
        settled_edges_relaxed(g, r, h2),
        edges_relaxed_to(g, h2, sub, upto),
{
    assert forall|i: int, k: int|
        0 <= i < r.len() && 0 <= k < g.adj_of((#[trigger] r[i]).vertex).len()
        implies #[trigger] edge_relaxed(g, h2, r[i], k) by {
        assert(edge_relaxed(g, h1, r[i], k));
        assert forall|j: int|
            0 <= j < h2.len() && (#[trigger] h2[j]).vertex == g.adj_of(r[i].vertex)[k].0
            implies h2[j].distance <= r[i].distance + g.adj_of(r[i].vertex)[k].1 by {
            let j1 = choose|j1: int|
                0 <= j1 < h1.len() && (h2[j]).vertex == (#[trigger] h1[j1]).vertex
                    && h2[j].distance <= h1[j1].distance;
        }
    }
    assert forall|k: int| 0 <= k < upto implies #[trigger] edge_relaxed(g, h2, sub, k) by {
        assert(edge_relaxed(g, h1, sub, k));
        assert forall|j: int|
            0 <= j < h2.len() && (#[trigger] h2[j]).vertex == g.adj_of(sub.vertex)[k].0
            implies h2[j].distance <= sub.distance + g.adj_of(sub.vertex)[k].1 by {
            let j1 = choose|j1: int|
                0 <= j1 < h1.len() && (h2[j]).vertex == (#[trigger] h1[j1]).vertex
                    && h2[j].distance <= h1[j1].distance;
        }
    }
}

/// Settling the heap minimum keeps the minimality invariants: nothing
/// settles below what any path can achieve, and the settled entries' edge
/// relaxations survive the pop.
proof fn lemma_settle_min(g: Graph, start: i64, h0: Seq<Node>, h2: Seq<Node>, r0: Seq<Node>, r1: Seq<Node>)
    requires
        g.wf(),
        h0.len() > 0,
        h2.to_multiset() == h0.remove(0).to_multiset(),
        forall|i: int| 0 <= i < h0.len() ==> h0[0].key() <= (#[trigger] h0[i].key()),
        r1 == r0.push(h0[0]),
        distances_minimal(g, start, r0),
        settled_edges_relaxed(g, r0, h0),
        forall|v: i64| #[trigger] g.has_vertex(v) ==> appears(h0, v) || appears(r0, v),
        forall|i: int, j: int|
            0 <= i < h0.len() && 0 <= j < r0.len() ==> (#[trigger] h0[i]).vertex != (
            #[trigger] r0[j]).vertex,
        r0.len() == 0 ==> forall|n: Node| #[trigger] h0.contains(n) ==> init_entry(start, n),
        r0.len() > 0 ==> r0[0].vertex == start,
    ensures
        distances_minimal(g, start, r1),
        settled_edges_relaxed(g, r0, h2),
{
    let subject = h0[0];
    lemma_remove_pointwise(h0, h2);
    assert(edges_relaxed_to(g, h0, subject, 0));
    lemma_relaxed_carry(g, r0, subject, 0, h0, h2);
    assert forall|i: int, steps: Seq<(i64, u64)>|
        0 <= i < r1.len() && #[trigger] is_path(g, start, steps) && steps.last().0 == (
        #[trigger] r1[i]).vertex implies path_weight(steps) >= r1[i].distance by {
        if i < r0.len() {
            assert(r1[i] == r0[i]);
            assert(is_path(g, start, steps) && steps.last().0 == r0[i].vertex);
        } else {
            assert(r1[i] == subject);
            assert(!appears(r0, subject.vertex)) by {
                if appears(r0, subject.vertex) {
                    let a = choose|a: int|
                        0 <= a < r0.len() && (#[trigger] r0[a]).vertex == subject.vertex;
                    assert(h0[0].vertex != r0[a].vertex);
                }
            }
            lemma_path_lower_bound(g, start, r0, h0, steps);
        }
    }
}

/// The heart of the minimality argument: while the engine runs, any path
/// from the source to a still-unsettled vertex weighs at least as much as
/// the minimum the heap is about to hand out.
proof fn lemma_path_lower_bound(g: Graph, start: i64, r: Seq<Node>, h: Seq<Node>, steps: Seq<(i64, u64)>)
    requires
        g.wf(),
        h.len() > 0,
        forall|i: int| 0 <= i < h.len() ==> h[0].key() <= (#[trigger] h[i].key()),
        distances_minimal(g, start, r),
        settled_edges_relaxed(g, r, h),
        forall|v: i64| #[trigger] g.has_vertex(v) ==> appears(h, v) || appears(r, v),
        r.len() == 0 ==> forall|n: Node| #[trigger] h.contains(n) ==> init_entry(start, n),
        r.len() > 0 ==> r[0].vertex == start,
        is_path(g, start, steps),
        !appears(r, steps.last().0),
    ensures
        path_weight(steps) >= h[0].distance,
    decreases steps.len(),
{
    let last = steps.last().0;
    assert(g.has_vertex(last));
    assert(appears(h, last));
    let m = choose|m: int| 0 <= m < h.len() && (#[trigger] h[m]).vertex == last;
    assert(h[0].key() <= h[m].key());
    if steps.len() == 1 {
        assert(last == start);
        assert(r.len() == 0);
        assert(h.contains(h[m]));
        assert(init_entry(start, h[m]));
        assert(h[m].distance == 0);
        lemma_path_weight_nonneg(steps);
    } else {
        let prefix = steps.drop_last();
        let x = prefix.last().0;
        let w = steps.last().1;
        assert(prefix.last() == steps[steps.len() - 2]);
        assert(is_path(g, start, prefix)) by {
            assert(prefix[0] == steps[0]);
            assert forall|i: int| 0 <= i < prefix.len() implies g.has_vertex(
                (#[trigger] prefix[i]).0,
            ) by {
                assert(prefix[i] == steps[i]);
            }
            assert forall|i: int| 1 <= i < prefix.len() implies g.spec_edge(
                (#[trigger] prefix[i - 1]).0,
                prefix[i].0,
                prefix[i].1,
            ) by {
                assert(prefix[i - 1] == steps[i - 1] && prefix[i] == steps[i]);
            }
        }
        assert(g.spec_edge(x, last, w)) by {
            assert(steps[steps.len() - 2] == prefix.last());
            assert(g.spec_edge((steps[steps.len() - 2]).0, steps[steps.len() - 1].0, steps[
                steps.len() - 1].1));
            assert(steps[steps.len() - 1] == steps.last());
        }
        if appears(r, x) {
            let j = choose|j: int| 0 <= j < r.len() && (#[trigger] r[j]).vertex == x;
            assert(path_weight(prefix) >= r[j].distance) by {
                assert(is_path(g, start, prefix) && prefix.last().0 == r[j].vertex);
            }
            let k = choose|k: int|
                0 <= k < g.adj_of(x).len() && #[trigger] g.adj_of(x)[k] == (last, w);
            assert(edge_relaxed(g, h, r[j], k));
            assert(g.adj_of(r[j].vertex)[k].0 == last);
            assert(h[m].distance <= r[j].distance + w);
            assert(path_weight(steps) == path_weight(prefix) + w);
        } else {
            lemma_path_lower_bound(g, start, r, h, prefix);
            assert(path_weight(steps) == path_weight(prefix) + w);
        }
    }
}

/// Every settled entry that was reached is backed by a real path from the
/// source whose summed edge weights equal its recorded distance: following
/// the predecessor chain back to the source spells that path out, one hop per
/// chain link.
pub proof fn lemma_predecessor_chain(g: Graph, start: i64, r: Seq<Node>, i: int)
    requires
        g.wf(),
        settled_ok(g, start, r),
        forall|a: int| 0 <= a < r.len() ==> g.has_vertex((#[trigger] r[a]).vertex),
        0 <= i < r.len(),
        r[i].distance < UNREACHED,
    ensures
        exists|steps: Seq<(i64, u64)>|
            #[trigger] is_path(g, start, steps) && steps.last().0 == r[i].vertex && path_weight(
                steps,
            ) == r[i].distance,
    decreases i,
{
    assert(settled_entry_ok(g, start, r, i));
    if r[i].prev is None {
        let steps = seq![(start, 0u64)];
        assert(r[i].vertex == start && r[i].distance == 0);
        assert(is_path(g, start, steps));
        assert(path_weight(steps) == 0) by {
            assert(steps.drop_last() == Seq::<(i64, u64)>::empty());
            assert(path_weight(Seq::<(i64, u64)>::empty()) == 0);
            assert(steps.last() == (start, 0u64));
        }
        assert(steps.last().0 == r[i].vertex && path_weight(steps) == r[i].distance);
    } else {
        let p = r[i].prev->0;
        let (j, k) = choose|j: int, k: int|
            0 <= j < i && (#[trigger] r[j]).vertex == p && 0 <= k < g.adj_of(p).len() && (
            #[trigger] g.adj_of(p)[k]).0 == r[i].vertex && r[i].distance == r[j].distance
                + g.adj_of(p)[k].1 && r[i].distance < UNREACHED;
        lemma_predecessor_chain(g, start, r, j);
        let prefix = choose|steps: Seq<(i64, u64)>|
            #[trigger] is_path(g, start, steps) && steps.last().0 == r[j].vertex && path_weight(
                steps,
            ) == r[j].distance;
        let w = g.adj_of(p)[k].1;
        let steps = prefix.push((r[i].vertex, w));
        assert(is_path(g, start, steps)) by {
            assert(steps[0] == prefix[0]);
            assert forall|a: int| 1 <= a < steps.len() implies g.spec_edge(
                (#[trigger] steps[a - 1]).0,
                steps[a].0,
                steps[a].1,
            ) by {
                if a < prefix.len() {
                    assert(steps[a - 1] == prefix[a - 1]);
                    assert(steps[a] == prefix[a]);
                } else {
                    assert(steps[a - 1] == prefix[prefix.len() - 1]);
                    assert(steps[a - 1].0 == p);
                    assert(g.has_vertex(p)) by {
                        assert(r[j].vertex == p);
                    }
                    assert(g.adj_of(p)[k] == (r[i].vertex, w));
                    assert(g.spec_edge(p, r[i].vertex, w));
                }
            }
        }
        assert(path_weight(steps) == path_weight(prefix) + w) by {
            assert(steps.drop_last() =~= prefix);
        }
        assert(steps.last().0 == r[i].vertex && path_weight(steps) == r[i].distance);
    }
}

/// The settled distance of every reached vertex is exactly the weight of a
/// shortest path from the source: some path achieves it, and no path beats
/// it. The premises are precisely what `djikstra` ensures of its result.
pub proof fn lemma_shortest_path_distance(g: Graph, start: i64, r: Seq<Node>, i: int)
    requires
        g.wf(),
        settled_ok(g, start, r),
        distances_minimal(g, start, r),
        forall|a: int| 0 <= a < r.len() ==> g.has_vertex((#[trigger] r[a]).vertex),
        0 <= i < r.len(),
        r[i].distance < UNREACHED,
    ensures
        exists|steps: Seq<(i64, u64)>|
            #[trigger] is_path(g, start, steps) && steps.last().0 == r[i].vertex && path_weight(
                steps,
            ) == r[i].distance,
        forall|steps: Seq<(i64, u64)>|
            #[trigger] is_path(g, start, steps) && steps.last().0 == r[i].vertex ==> path_weight(
                steps,
            ) >= r[i].distance,
{
    lemma_predecessor_chain(g, start, r, i);
}

/// The position of vertex `v` among the still-unsettled heap entries, by the
/// linear scan the engine performs on every relaxation.
fn find_vertex(heap: &Heap<Node>, v: i64) -> (r: Option<usize>)
    ensures
        match r {
            Some(i) => i < heap.data@.len() && heap.data@[i as int].vertex == v,
            None => !appears(heap.data@, v),
        },
{
    let mut i: usize = 0;
    while i < heap.data.len()
        invariant
            i <= heap.data@.len(),
            forall|k: int| 0 <= k < i ==> (#[trigger] heap.data@[k]).vertex != v,
        decreases heap.data@.len() - i,
    {
        if heap.data[i].vertex == v {
            return Some(i);
        }
        i = i + 1;
    }
    None
}

/// The relaxation step: overwrites the heap entry at `idx` with `cand` if and
/// only if `cand` strictly improves its distance. Every key decrease during a
/// run is therefore a strict decrease.
fn try_relax(heap: &mut Heap<Node>, idx: usize, cand: Node) -> (changed: bool)
    requires
        is_min_heap(old(heap).data@),
        idx < old(heap).data@.len(),
        cand.vertex == old(heap).data@[idx as int].vertex,
    ensures
        changed <==> cand.distance < old(heap).data@[idx as int].distance,
        !changed ==> *final(heap) == *old(heap),
        changed ==> {
            &&& is_min_heap(final(heap).data@)
            &&& final(heap).data@.len() == old(heap).data@.len()
            &&& final(heap).data@.to_multiset() == old(heap).data@.update(
                idx as int,
                cand,
            ).to_multiset()
        },
{
    if cand.distance < heap.data[idx].distance {
        heap.decrease_key(idx, cand);
        true
    } else {
        false
    }
}

/// Single-source shortest paths from `start`, in settlement order.
///
/// If `start` is absent the result is empty. Otherwise the result holds one
/// entry per graph vertex, in non-decreasing distance order, starting with
/// `start` itself at distance 0; every entry is explained by `settled_ok`:
/// reached vertices carry the weight of a real path from `start` recorded
/// through their predecessor chain, unreached ones keep the sentinel.
#[verifier::rlimit(100)]
pub fn djikstra(graph: &Graph, start: i64) -> (result: Vec<Node>)
    requires
        graph.wf(),
    ensures
        !graph.has_vertex(start) ==> result@.len() == 0,
        graph.has_vertex(start) ==> {
            &&& result@.len() == graph.content@.len()
            &&& distinct_vertices(result@)
            &&& forall|i: int|
                0 <= i < result@.len() ==> graph.has_vertex((#[trigger] result@[i]).vertex)
            &&& forall|v: i64| #[trigger] graph.has_vertex(v) ==> appears(result@, v)
            &&& sorted_by_distance(result@)
            &&& settled_ok(*graph, start, result@)
            &&& distances_minimal(*graph, start, result@)
            &&& result@[0].vertex == start
            &&& result@[0].distance == 0
            &&& result@[0].prev is None
        },
{
    let mut heap: Heap<Node> = Heap::new();
    let mut answer: Vec<Node> = Vec::new();

    if !graph.vertex_exists(&start) {
        return Vec::new();
    }

    let start_node = Node { vertex: start, distance: 0, prev: None };
    let ghost hinit = heap.data@;
    heap.insert(start_node);
    proof {
        assert(hinit =~= Seq::<Node>::empty());
        lemma_perm_nodes(hinit.push(start_node), heap.data@);
        assert(hinit.push(start_node)[0] == start_node);
        assert(appears(hinit.push(start_node), start));
    }

    let vertices = graph.get_vertices();
    let mut vi: usize = 0;
    while vi < vertices.len()
        invariant
            graph.wf(),
            graph.has_vertex(start),
            vertices@.len() == graph.content@.len(),
            forall|i: int|
                0 <= i < vertices@.len() ==> vertices@[i] == (#[trigger] graph.content@[i]).0,
            vi <= vertices@.len(),
            is_min_heap(heap.data@),
            distinct_vertices(heap.data@),
            appears(heap.data@, start),
            forall|n: Node| #[trigger] heap.data@.contains(n) ==> init_entry(start, n),
            forall|n: Node|
                #[trigger] heap.data@.contains(n) ==> (n.vertex == start || exists|k: int|
                    0 <= k < vi && vertices@[k] == n.vertex),
            forall|k: int| 0 <= k < vi ==> appears(heap.data@, #[trigger] vertices@[k]),
            (exists|k: int| 0 <= k < vi && vertices@[k] == start) ==> heap.data@.len() == vi,
            !(exists|k: int| 0 <= k < vi && vertices@[k] == start) ==> heap.data@.len() == vi + 1,
        decreases vertices@.len() - vi,
    {
        let v = vertices[vi];
        if v != start {
            let ghost h0 = heap.data@;
            let fresh = Node { vertex: v, distance: UNREACHED, prev: None };
            proof {
                assert(!appears(h0, v)) by {
                    if appears(h0, v) {
                        let i = choose|i: int| 0 <= i < h0.len() && (#[trigger] h0[i]).vertex == v;
                        assert(h0.contains(h0[i]));
                        let k = choose|k: int| 0 <= k < vi && vertices@[k] == v;
                        assert(graph.content@[k].0 == graph.content@[vi as int].0);
                    }
                }
            }
            heap.insert(fresh);
            proof {
                lemma_perm_nodes(h0.push(fresh), heap.data@);
                assert(distinct_vertices(h0.push(fresh))) by {
                    assert forall|i: int, j: int| 0 <= i < j < h0.push(fresh).len() implies (
                    #[trigger] h0.push(fresh)[i]).vertex != (#[trigger] h0.push(fresh)[j]).vertex by {
                        if j == h0.len() {
                            if h0[i].vertex == v {
                                assert(appears(h0, v));
                            }
                        }
                    }
                }
                assert forall|n: Node| #[trigger] heap.data@.contains(n) implies init_entry(
                    start,
                    n,
                ) && (n.vertex == start || exists|k: int|
                    0 <= k < vi + 1 && vertices@[k] == n.vertex) by {
                    assert(h0.push(fresh).contains(n));
                    if n != fresh {
                        assert(h0.contains(n));
                    } else {
                        assert(vertices@[vi as int] == n.vertex);
                    }
                }
                assert forall|k: int| 0 <= k < vi + 1 implies appears(
                    heap.data@,
                    #[trigger] vertices@[k],
                ) by {
                    if k < vi {
                        let i = choose|i: int|
                            0 <= i < h0.len() && (#[trigger] h0[i]).vertex == vertices@[k];
                        assert(h0.push(fresh)[i].vertex == vertices@[k]);
                        assert(appears(h0.push(fresh), vertices@[k]));
                    } else {
                        assert(h0.push(fresh)[h0.len() as int].vertex == v);
                        assert(appears(h0.push(fresh), vertices@[k]));
                    }
                }
                assert(appears(heap.data@, start)) by {
                    let i = choose|i: int| 0 <= i < h0.len() && (#[trigger] h0[i]).vertex == start;
                    assert(h0.push(fresh)[i].vertex == start);
                    assert(appears(h0.push(fresh), start));
                }
            }
        } else {
            proof {
                assert(!(exists|k: int| 0 <= k < vi && vertices@[k] == start)) by {
                    if exists|k: int| 0 <= k < vi && vertices@[k] == start {
                        let k = choose|k: int| 0 <= k < vi && vertices@[k] == start;
                        assert(graph.content@[k].0 == graph.content@[vi as int].0);
                    }
                }
            }
        }
        vi = vi + 1;
    }

    proof {
        assert(heap.data@.len() == graph.content@.len()) by {
            let i = graph.idx_of(start);
            graph.lemma_idx_of(i, start);
            assert(vertices@[i] == start);
        }
        assert forall|v: i64| #[trigger] graph.has_vertex(v) implies appears(heap.data@, v)
            || appears(answer@, v) by {
            let i = graph.idx_of(v);
            graph.lemma_idx_of(i, v);
            assert(vertices@[i] == v);
            assert(appears(heap.data@, vertices@[i]));
        }
        assert forall|n: Node| #[trigger] heap.data@.contains(n) implies graph.has_vertex(
            n.vertex,
        ) by {
            if n.vertex != start {
                let k = choose|k: int| 0 <= k < vertices@.len() && vertices@[k] == n.vertex;
                graph.lemma_idx_of(k, n.vertex);
            }
        }
        assert forall|n: Node| #[trigger] heap.data@.contains(n) implies heap_entry_ok(
            *graph,
            start,
            answer@,
            n,
        ) by {
            assert(init_entry(start, n));
        }
    }

    loop
        invariant
            graph.wf(),
            graph.has_vertex(start),
            is_min_heap(heap.data@),
            distinct_vertices(heap.data@),
            distinct_vertices(answer@),
            forall|i: int, j: int|
                0 <= i < heap.data@.len() && 0 <= j < answer@.len() ==> (
                #[trigger] heap.data@[i]).vertex != (#[trigger] answer@[j]).vertex,
            heap.data@.len() + answer@.len() == graph.content@.len(),
            forall|v: i64|
                #[trigger] graph.has_vertex(v) ==> appears(heap.data@, v) || appears(answer@, v),
            forall|n: Node| #[trigger] heap.data@.contains(n) ==> graph.has_vertex(n.vertex),
            forall|i: int|
                0 <= i < answer@.len() ==> graph.has_vertex((#[trigger] answer@[i]).vertex),
            sorted_by_distance(answer@),
            forall|i: int, j: int|
                0 <= i < answer@.len() && 0 <= j < heap.data@.len() ==> (
                #[trigger] answer@[i]).distance <= (#[trigger] heap.data@[j]).distance,
            settled_ok(*graph, start, answer@),
            distances_minimal(*graph, start, answer@),
            settled_edges_relaxed(*graph, answer@, heap.data@),
            forall|n: Node|
                #[trigger] heap.data@.contains(n) ==> heap_entry_ok(*graph, start, answer@, n),
            answer@.len() == 0 ==> forall|n: Node|
                #[trigger] heap.data@.contains(n) ==> init_entry(start, n),
            answer@.len() == 0 ==> appears(heap.data@, start),
            answer@.len() > 0 ==> answer@[0].vertex == start && answer@[0].distance == 0
                && answer@[0].prev is None,
        ensures
            heap.data@.len() == 0,
            answer@.len() == graph.content@.len(),
            distinct_vertices(answer@),
            forall|i: int|
                0 <= i < answer@.len() ==> graph.has_vertex((#[trigger] answer@[i]).vertex),
            forall|v: i64| #[trigger] graph.has_vertex(v) ==> appears(answer@, v),
            sorted_by_distance(answer@),
            settled_ok(*graph, start, answer@),
            distances_minimal(*graph, start, answer@),
            answer@.len() > 0 ==> answer@[0].vertex == start && answer@[0].distance == 0
                && answer@[0].prev is None,
        decreases heap.data@.len(),
    {
        let ghost h0 = heap.data@;
        let popped = heap.pop();
        match popped {
            Some(subject) => {
                let ghost answer0 = answer@;
                answer.push(subject);
                proof {
                    assert(subject == h0[0]);
                    assert(answer@ == answer0.push(subject));
                    lemma_settle_step(*graph, start, h0, heap.data@, answer0, answer@);
                    lemma_settle_min(*graph, start, h0, heap.data@, answer0, answer@);
                    assert(answer@.subrange(0, answer@.len() - 1) =~= answer0);
                }

                let neighbors = graph.adjacency_list(&subject.vertex).unwrap();
                let mut e: usize = 0;
                while e < neighbors.len()
                    invariant
                        graph.wf(),
                        graph.has_vertex(start),
                        graph.has_vertex(subject.vertex),
                        neighbors@ == graph.adj_of(subject.vertex),
                        e <= neighbors@.len(),
                        is_min_heap(heap.data@),
                        distinct_vertices(heap.data@),
                        distinct_vertices(answer@),
                        forall|i: int, j: int|
                            0 <= i < heap.data@.len() && 0 <= j < answer@.len() ==> (
                            #[trigger] heap.data@[i]).vertex != (#[trigger] answer@[j]).vertex,
                        heap.data@.len() + answer@.len() == graph.content@.len(),
                        forall|v: i64|
                            #[trigger] graph.has_vertex(v) ==> appears(heap.data@, v) || appears(
                                answer@,
                                v,
                            ),
                        forall|n: Node|
                            #[trigger] heap.data@.contains(n) ==> graph.has_vertex(n.vertex)
                                && subject.distance <= n.distance,
                        forall|i: int|
                            0 <= i < answer@.len() ==> graph.has_vertex(
                                (#[trigger] answer@[i]).vertex,
                            ),
                        sorted_by_distance(answer@),
                        forall|i: int, j: int|
                            0 <= i < answer@.len() && 0 <= j < heap.data@.len() ==> (
                            #[trigger] answer@[i]).distance <= (#[trigger] heap.data@[j]).distance,
                        settled_ok(*graph, start, answer@),
                        distances_minimal(*graph, start, answer@),
                        settled_edges_relaxed(
                            *graph,
                            answer@.subrange(0, answer@.len() - 1),
                            heap.data@,
                        ),
                        edges_relaxed_to(*graph, heap.data@, subject, e as int),
                        forall|n: Node|
                            #[trigger] heap.data@.contains(n) ==> heap_entry_ok(
                                *graph,
                                start,
                                answer@,
                                n,
                            ),
                        answer@.len() > 0 && answer@[answer@.len() - 1] == subject,
                        answer@[0].vertex == start && answer@[0].distance == 0 && answer@[0].prev
                            is None,
                    decreases neighbors@.len() - e,
                {
                    let edge = neighbors[e];
                    let nb = edge.0;
                    let w = edge.1;

                    match find_vertex(&heap, nb) {
                        Some(i) => {
                            let nd = heap.data[i];
                            if w <= u64::MAX - subject.distance {
                                let cand = Node {
                                    vertex: nd.vertex,
                                    distance: subject.distance + w,
                                    prev: Some(subject.vertex),
                                };
                                let ghost h1 = heap.data@;
                                let changed = try_relax(&mut heap, i, cand);
                                proof {
                                    assert(neighbors@[e as int] == edge);
                                    assert(graph.adj_of(subject.vertex)[e as int] == edge);
                                    if changed {
                                        lemma_relax_step(
                                            *graph,
                                            start,
                                            h1,
                                            heap.data@,
                                            answer@,
                                            subject,
                                            cand,
                                            i as int,
                                            e as int,
                                        );
                                        lemma_relax_transition(h1, heap.data@, cand, i as int);
                                        lemma_relaxed_carry(
                                            *graph,
                                            answer@.subrange(0, answer@.len() - 1),
                                            subject,
                                            e as int,
                                            h1,
                                            heap.data@,
                                        );
                                        assert(edge_relaxed(
                                            *graph,
                                            heap.data@,
                                            subject,
                                            e as int,
                                        )) by {
                                            assert forall|j: int|
                                                0 <= j < heap.data@.len() && (
                                                #[trigger] heap.data@[j]).vertex == graph.adj_of(
                                                    subject.vertex,
                                                )[e as int].0 implies heap.data@[j].distance
                                                <= subject.distance + graph.adj_of(
                                                subject.vertex,
                                            )[e as int].1 by {
                                                assert(heap.data@[j].vertex == cand.vertex);
                                                assert(heap.data@[j].distance <= cand.distance);
                                            }
                                        }
                                    } else {
                                        assert(edge_relaxed(
                                            *graph,
                                            heap.data@,
                                            subject,
                                            e as int,
                                        )) by {
                                            assert forall|j: int|
                                                0 <= j < heap.data@.len() && (
                                                #[trigger] heap.data@[j]).vertex == graph.adj_of(
                                                    subject.vertex,
                                                )[e as int].0 implies heap.data@[j].distance
                                                <= subject.distance + graph.adj_of(
                                                subject.vertex,
                                            )[e as int].1 by {
                                                assert(heap.data@[i as int].vertex == nb);
                                                if j < i as int {
                                                    assert(heap.data@[j].vertex != heap.data@[
                                                        i as int].vertex);
                                                } else if j > i as int {
                                                    assert(heap.data@[i as int].vertex
                                                        != heap.data@[j].vertex);
                                                }
                                                assert(j == i as int);
                                                assert(heap.data@[i as int].distance
                                                    <= cand.distance);
                                            }
                                        }
                                    }
                                }
                            } else {
                                proof {
                                    assert(neighbors@[e as int] == edge);
                                    assert(graph.adj_of(subject.vertex)[e as int] == edge);
                                    assert(edge_relaxed(*graph, heap.data@, subject, e as int))
                                        by {
                                        assert forall|j: int|
                                            0 <= j < heap.data@.len() && (
                                            #[trigger] heap.data@[j]).vertex == graph.adj_of(
                                                subject.vertex,
                                            )[e as int].0 implies heap.data@[j].distance
                                            <= subject.distance + graph.adj_of(subject.vertex)[
                                            e as int].1 by {
                                            assert(heap.data@.contains(heap.data@[j]));
                                            assert(heap_entry_ok(
                                                *graph,
                                                start,
                                                answer@,
                                                heap.data@[j],
                                            ));
                                            assert(heap.data@[j].distance <= UNREACHED);
                                            assert(subject.distance + w > u64::MAX);
                                        }
                                    }
                                }
                            }
                        },
                        None => {
                            proof {
                                assert(neighbors@[e as int] == edge);
                                assert(graph.adj_of(subject.vertex)[e as int] == edge);
                                assert(edge_relaxed(*graph, heap.data@, subject, e as int)) by {
                                    assert forall|j: int|
                                        0 <= j < heap.data@.len() && (
                                        #[trigger] heap.data@[j]).vertex == graph.adj_of(
                                            subject.vertex,
                                        )[e as int].0 implies heap.data@[j].distance
                                        <= subject.distance + graph.adj_of(subject.vertex)[
                                        e as int].1 by {
                                        assert(appears(heap.data@, nb));
                                    }
                                }
                            }
                        },
                    }
                    proof {
                        assert forall|k: int|
                            0 <= k < e + 1 implies #[trigger] edge_relaxed(
                            *graph,
                            heap.data@,
                            subject,
                            k,
                        ) by {}
                    }
                    e = e + 1;
                }
                proof {
                    assert forall|i2: int, k: int|
                        0 <= i2 < answer@.len() && 0 <= k < graph.adj_of(
                            (#[trigger] answer@[i2]).vertex,
                        ).len() implies #[trigger] edge_relaxed(
                        *graph,
                        heap.data@,
                        answer@[i2],
                        k,
                    ) by {
                        if i2 < answer@.len() - 1 {
                            let r0s = answer@.subrange(0, answer@.len() - 1);
                            assert(r0s[i2] == answer@[i2]);
                            assert(edge_relaxed(*graph, heap.data@, r0s[i2], k));
                        } else {
                            assert(answer@[i2] == subject);
                            assert(neighbors@.len() == graph.adj_of(subject.vertex).len());
                            assert(edges_relaxed_to(*graph, heap.data@, subject, e as int));
                            assert(edge_relaxed(*graph, heap.data@, subject, k));
                        }
                    }
                }
            },
            None => {
                break ;
            },
        }
    }

    proof {
        assert(answer@.len() > 0) by {
            let i = graph.idx_of(start);
            graph.lemma_idx_of(i, start);
        }
    }
    answer
}

} // verus!
