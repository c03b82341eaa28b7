//! Random undirected multigraph generation: a collaborator of the engine that
//! produces a `Graph` with symmetric edges and random weights below 100.

use crate::graph::Graph;
use vstd::prelude::*;

verus! {

/// Which generation constraint a parameter set violates.
#[derive(Debug, PartialEq, Eq, Structural)]
pub enum GraphGenerationError {
    InvalidNeighborMin,
    InvalidNeighborMax,
    TooManyEdges,
}

pub struct GenerationParameters {
    pub vertex_count: i64,
    pub neighbor_min: i64,
    pub neighbor_max: i64,
}

#[verifier::external_type_specification]
#[verifier::external_body]
pub struct ExThreadRng(rand::rngs::ThreadRng);

/// Relies on rand::thread_rng: hands out the thread-local generator. Nothing
/// is promised of it.
#[verifier::external_body]
fn new_rng() -> rand::rngs::ThreadRng {
    rand::thread_rng()
}

/// Relies on rand::Rng::gen_range over a half-open range: it panics on an
/// empty range (excluded here) and otherwise returns a value inside the
/// range. Being a random draw, nothing more can be promised of the result.
#[verifier::external_body]
fn rand_in_range(rng: &mut rand::rngs::ThreadRng, lo: i64, hi: i64) -> (r: i64)
    requires
        lo < hi,
    ensures
        lo <= r < hi,
{
    rand::Rng::gen_range(rng, lo..hi)
}

/// The verdict of parameter validation, in check order, if and only if.
pub open spec fn spec_validation(args: GenerationParameters) -> Option<GraphGenerationError> {
    if args.neighbor_max >= args.vertex_count {
        Some(GraphGenerationError::InvalidNeighborMax)
    } else if args.neighbor_min >= args.vertex_count {
        Some(GraphGenerationError::InvalidNeighborMin)
    } else if args.vertex_count * (args.vertex_count - 1) / 2 < args.neighbor_min
        * args.vertex_count {
        Some(GraphGenerationError::TooManyEdges)
    } else {
        None
    }
}

/// Rejects parameter sets that could not describe a graph: a neighbor bound
/// at or above the vertex count, or more edges requested than a simple graph
/// of that size can hold.
pub fn args_validation(args: &GenerationParameters) -> (r: Result<(), GraphGenerationError>)
    requires
        0 <= args.vertex_count <= 3_000_000_000,
        -3_000_000_000 <= args.neighbor_min <= 3_000_000_000,
    ensures
        match r {
            Ok(()) => spec_validation(*args) is None,
            Err(e) => spec_validation(*args) == Some(e),
        },
{
    if args.neighbor_max >= args.vertex_count {
        return Err(GraphGenerationError::InvalidNeighborMax);
    }

    if args.neighbor_min >= args.vertex_count {
        return Err(GraphGenerationError::InvalidNeighborMin);
    }

    proof {
        assert(args.vertex_count * (args.vertex_count - 1) <= 3_000_000_000i64 * 3_000_000_000
            && args.vertex_count * (args.vertex_count - 1) >= 0) by (nonlinear_arith)
            requires
                0 <= args.vertex_count <= 3_000_000_000,
        ;
        assert(-3_000_000_000i64 * 3_000_000_000 <= args.neighbor_min * args.vertex_count
            <= 3_000_000_000i64 * 3_000_000_000) by (nonlinear_arith)
            requires
                0 <= args.vertex_count <= 3_000_000_000,
                -3_000_000_000 <= args.neighbor_min <= 3_000_000_000,
        ;
    }
    let max_edge_count = (args.vertex_count * (args.vertex_count - 1)) / 2;

    if max_edge_count < args.neighbor_min * args.vertex_count {
        return Err(GraphGenerationError::TooManyEdges);
    }

    Ok(())
}

/// The nudge `make_sure_not_same` applies to a candidate neighbor.
pub open spec fn spec_not_same(a: i64, vert: i64, max: i64) -> int {
    let moved: int = if a == vert {
        vert + 1
    } else {
        vert as int
    };
    if max <= moved {
        moved - 2
    } else {
        moved
    }
}

/// Moves a candidate neighbor off `a`, keeping it below `max`: the drawn
/// vertex is bumped up when it hits `a` and pulled back down when it leaves
/// the range. For in-range inputs the result is a valid vertex other than `a`.
pub fn make_sure_not_same(a: i64, vert: i64, max: i64) -> (r: i64)
    requires
        i64::MIN + 2 <= vert <= i64::MAX - 1,
    ensures
        r as int == spec_not_same(a, vert, max),
        (0 <= a < max && 0 <= vert < max && 2 <= max) ==> (r != a && 0 <= r < max),
{
    let mut vertex = vert;
    if a == vertex {
        vertex = vertex + 1;
    }

    if max <= vertex {
        vertex = vertex - 2;
    }

    vertex
}

/// Everything generation guarantees of the graph under construction:
/// vertices stay inside `[0, vertex_count)`; adjacency lists stay shorter
/// than `neighbor_max` and never repeat a target; weights stay below 100;
/// edge endpoints exist; and edges come in symmetric pairs.
pub open spec fn gen_inv(g: Graph, p: GenerationParameters) -> bool {
    &&& g.wf()
    &&& forall|v: i64| #[trigger] g.has_vertex(v) ==> 0 <= v < p.vertex_count
    &&& forall|v: i64| #[trigger] g.has_vertex(v) ==> g.adj_of(v).len() + 1 <= p.neighbor_max
        || g.adj_of(v).len() == 0
    &&& forall|v: i64, k: int|
        g.has_vertex(v) && 0 <= k < g.adj_of(v).len() ==> (#[trigger] g.adj_of(v)[k]).1 < 100
            && g.has_vertex(g.adj_of(v)[k].0)
    &&& forall|v: i64, k1: int, k2: int|
        g.has_vertex(v) && 0 <= k1 < k2 < g.adj_of(v).len() ==> (#[trigger] g.adj_of(v)[k1]).0 != (
        #[trigger] g.adj_of(v)[k2]).0
    &&& forall|a: i64, b: i64| #[trigger] g.spec_edge_to(a, b) ==> g.spec_edge_to(b, a)
}

/// Adding a fresh, in-range vertex with no edges keeps the generation
/// invariant and leaves the edge relation untouched.
proof fn lemma_add_vertex(g0: Graph, g1: Graph, p: GenerationParameters, v: i64)
    requires
        gen_inv(g0, p),
        !g0.has_vertex(v),
        0 <= v < p.vertex_count,
        g1.wf(),
        g1.has_vertex(v),
        g1.adj_of(v) == Seq::<(i64, u64)>::empty(),
        forall|u: i64| #[trigger] g1.has_vertex(u) == (g0.has_vertex(u) || u == v),
        forall|u: i64| g0.has_vertex(u) && u != v ==> #[trigger] g1.adj_of(u) == g0.adj_of(u),
    ensures
        gen_inv(g1, p),
        forall|a: i64, b: i64| #[trigger] g1.spec_edge_to(a, b) <==> g0.spec_edge_to(a, b),
{
    assert forall|a: i64, b: i64| #[trigger] g1.spec_edge_to(a, b) <==> g0.spec_edge_to(a, b) by {
        if a != v {
            if g1.spec_edge_to(a, b) {
                let k = choose|k: int|
                    0 <= k < g1.adj_of(a).len() && (#[trigger] g1.adj_of(a)[k]).0 == b;
                assert(g0.adj_of(a)[k].0 == b);
            }
            if g0.spec_edge_to(a, b) {
                let k = choose|k: int|
                    0 <= k < g0.adj_of(a).len() && (#[trigger] g0.adj_of(a)[k]).0 == b;
                assert(g1.adj_of(a)[k].0 == b);
            }
        }
    }
}

/// Inserting one undirected edge — the two directed halves in sequence —
/// keeps the generation invariant when both endpoints exist, differ, are not
/// yet connected, have room in their lists, and the weight is below 100.
proof fn lemma_add_edge_pair(
    g0: Graph,
    g1: Graph,
    g2: Graph,
    p: GenerationParameters,
    v: i64,
    rn: i64,
    w: u64,
)
    requires
        gen_inv(g0, p),
        g0.has_vertex(v),
        g0.has_vertex(rn),
        v != rn,
        w < 100,
        !g0.spec_edge_to(v, rn),
        g0.adj_of(v).len() + 2 <= p.neighbor_max,
        g0.adj_of(rn).len() + 2 <= p.neighbor_max,
        g1.wf(),
        g1.adj_of(v) == g0.adj_of(v).push((rn, w)),
        forall|u: i64| #[trigger] g1.has_vertex(u) == g0.has_vertex(u),
        forall|u: i64| g0.has_vertex(u) && u != v ==> #[trigger] g1.adj_of(u) == g0.adj_of(u),
        g2.wf(),
        g2.adj_of(rn) == g1.adj_of(rn).push((v, w)),
        forall|u: i64| #[trigger] g2.has_vertex(u) == g1.has_vertex(u),
        forall|u: i64| g1.has_vertex(u) && u != rn ==> #[trigger] g2.adj_of(u) == g1.adj_of(u),
    ensures
        gen_inv(g2, p),
        g2.adj_of(v) == g0.adj_of(v).push((rn, w)),
        forall|u: i64| #[trigger] g2.has_vertex(u) == g0.has_vertex(u),
{
    assert(g2.adj_of(v) == g1.adj_of(v));
    assert(g1.adj_of(rn) == g0.adj_of(rn));
    assert(!g0.spec_edge_to(rn, v)) by {
        if g0.spec_edge_to(rn, v) {
            assert(g0.spec_edge_to(v, rn));
        }
    }
    let old_v = g0.adj_of(v);
    let old_rn = g0.adj_of(rn);
    assert forall|a: i64, k1: int, k2: int|
        g2.has_vertex(a) && 0 <= k1 < k2 < g2.adj_of(a).len() implies (
    #[trigger] g2.adj_of(a)[k1]).0 != (#[trigger] g2.adj_of(a)[k2]).0 by {
        if a == v {
            if k2 == old_v.len() {
                if old_v[k1].0 == rn {
                    assert(g0.spec_edge_to(v, rn));
                }
            }
        } else if a == rn {
            if k2 == old_rn.len() {
                if old_rn[k1].0 == v {
                    assert(g0.spec_edge_to(rn, v));
                }
            }
        }
    }
    assert forall|a: i64, b: i64| #[trigger] g2.spec_edge_to(a, b) implies g2.spec_edge_to(
        b,
        a,
    ) by {
        let k = choose|k: int| 0 <= k < g2.adj_of(a).len() && (#[trigger] g2.adj_of(a)[k]).0 == b;
        let new_pair = (a == v && b == rn && k == old_v.len()) || (a == rn && b == v && k
            == old_rn.len());
        if new_pair {
            if a == v {
                assert(g2.adj_of(rn)[old_rn.len() as int].0 == v);
                assert(g2.spec_edge_to(rn, v));
            } else {
                assert(g2.adj_of(v)[old_v.len() as int].0 == rn);
                assert(g2.spec_edge_to(v, rn));
            }
        } else {
            assert(g0.adj_of(a)[k].0 == b);
            assert(g0.spec_edge_to(a, b));
            assert(g0.spec_edge_to(b, a));
            let m = choose|m: int|
                0 <= m < g0.adj_of(b).len() && (#[trigger] g0.adj_of(b)[m]).0 == a;
            assert(g2.adj_of(b)[m].0 == a);
            assert(g2.spec_edge_to(b, a));
        }
    }
}

/// Gives `vertex` (creating it if needed) a random number of fresh
/// undirected edges towards randomly drawn distinct other vertices, each
/// with a random weight below 100. A draw that finds no suitable neighbor
/// within a bounded number of retries forfeits that edge.
fn fill_vertex(
    graph: &mut Graph,
    vertex: i64,
    rand: &mut rand::rngs::ThreadRng,
    parameters: &GenerationParameters,
)
    requires
        gen_inv(*old(graph), *parameters),
        0 <= vertex < parameters.vertex_count,
        parameters.neighbor_min < parameters.neighbor_max,
        parameters.neighbor_max < parameters.vertex_count,
        parameters.vertex_count <= 3_000_000_000,
        -3_000_000_000 <= parameters.neighbor_min,
    ensures
        gen_inv(*final(graph), *parameters),
        final(graph).has_vertex(vertex),
        forall|u: i64| old(graph).has_vertex(u) ==> #[trigger] final(graph).has_vertex(u),
{
    if !graph.vertex_exists(&vertex) {
        let ghost g0 = *graph;
        graph.insert_vertex(vertex);
        proof {
            lemma_add_vertex(g0, *graph, *parameters, vertex);
        }
    }

    let count_vec = graph.out_neighbors(&vertex).unwrap();
    let neighbors_count = count_vec.len() as i64;
    proof {
        assert(count_vec@.len() == graph.adj_of(vertex).len());
    }

    let random = rand_in_range(rand, parameters.neighbor_min, parameters.neighbor_max);
    let random_neighbor_count: i64 = if random - neighbors_count > 0 {
        random - neighbors_count
    } else {
        0
    };
    let ghost init_len = graph.adj_of(vertex).len() as int;

    let mut added: i64 = 0;
    while added < random_neighbor_count
        invariant
            gen_inv(*graph, *parameters),
            graph.has_vertex(vertex),
            forall|u: i64| old(graph).has_vertex(u) ==> #[trigger] graph.has_vertex(u),
            0 <= vertex < parameters.vertex_count,
            parameters.neighbor_min < parameters.neighbor_max,
            parameters.neighbor_max < parameters.vertex_count,
            parameters.vertex_count <= 3_000_000_000,
            0 <= added,
            added <= random_neighbor_count,
            random_neighbor_count > 0 ==> parameters.neighbor_max >= 2,
            random_neighbor_count > 0 ==> graph.adj_of(vertex).len() <= init_len + added,
            random_neighbor_count > 0 ==> init_len + random_neighbor_count + 1
                <= parameters.neighbor_max,
        decreases random_neighbor_count - added,
    {
        let mut random_neighbor: i64 = 0;
        let mut found: bool = false;
        let mut fuel: u64 = 10000;

        while fuel > 0 && !found
            invariant
                gen_inv(*graph, *parameters),
                graph.has_vertex(vertex),
                forall|u: i64| old(graph).has_vertex(u) ==> #[trigger] graph.has_vertex(u),
                0 <= vertex < parameters.vertex_count,
                2 <= parameters.neighbor_max < parameters.vertex_count,
                parameters.vertex_count <= 3_000_000_000,
                graph.adj_of(vertex).len() <= init_len + added,
                found ==> graph.has_vertex(random_neighbor) && random_neighbor != vertex && 0
                    <= random_neighbor < parameters.vertex_count && graph.adj_of(
                    random_neighbor,
                ).len() + 2 <= parameters.neighbor_max && !graph.spec_edge_to(
                    vertex,
                    random_neighbor,
                ),
            decreases fuel,
        {
            random_neighbor = rand_in_range(rand, 0, parameters.vertex_count);
            random_neighbor = make_sure_not_same(
                vertex,
                random_neighbor,
                parameters.vertex_count,
            );
            if !graph.vertex_exists(&random_neighbor) {
                let ghost g0 = *graph;
                graph.insert_vertex(random_neighbor);
                proof {
                    lemma_add_vertex(g0, *graph, *parameters, random_neighbor);
                }
            }

            let neighbor_len = graph.adjacency_list(&random_neighbor).unwrap().len();
            let neighbor_has_space_for_neighbors = (neighbor_len as i64) + 1
                < parameters.neighbor_max;

            if neighbor_has_space_for_neighbors && !graph.edge_exists(&vertex, &random_neighbor) {
                found = true;
            }
            fuel = fuel - 1;
        }

        if found {
            let rand_value = rand_in_range(rand, 0, 100);
            let weight = rand_value as u64;
            let ghost g0 = *graph;
            graph.insert_edge(vertex, random_neighbor, weight);
            let ghost g1 = *graph;
            graph.insert_edge(random_neighbor, vertex, weight);
            proof {
                lemma_add_edge_pair(g0, g1, *graph, *parameters, vertex, random_neighbor, weight);
            }
        }
        added = added + 1;
    }
}

/// Produces a random undirected graph: every vertex id in
/// `[0, vertex_count)`, symmetric edges with weights below 100, adjacency
/// lists bounded by `neighbor_max`; or reports which constraint of the
/// parameters was violated.
pub fn generate_undirected(parameters: &GenerationParameters) -> (r: Result<
    Graph,
    GraphGenerationError,
>)
    requires
        0 <= parameters.vertex_count <= 3_000_000_000,
        -3_000_000_000 <= parameters.neighbor_min <= 3_000_000_000,
        spec_validation(*parameters) is None ==> parameters.neighbor_min
            < parameters.neighbor_max,
    ensures
        match r {
            Err(e) => spec_validation(*parameters) == Some(e),
            Ok(g) => {
                &&& spec_validation(*parameters) is None
                &&& gen_inv(g, *parameters)
                &&& forall|v: i64| #[trigger] g.has_vertex(v) <==> 0 <= v < parameters.vertex_count
                &&& g.content@.len() == parameters.vertex_count
            },
        },
{
    match args_validation(parameters) {
        Err(e) => {
            return Err(e);
        },
        Ok(()) => {},
    }

    let mut graph = Graph::new();
    let mut rng = new_rng();

    let mut vertex: i64 = 0;
    while vertex < parameters.vertex_count
        invariant
            gen_inv(graph, *parameters),
            0 <= vertex <= parameters.vertex_count,
            forall|k: i64| 0 <= k < vertex ==> #[trigger] graph.has_vertex(k),
            parameters.neighbor_min < parameters.neighbor_max,
            parameters.neighbor_max < parameters.vertex_count,
            parameters.vertex_count <= 3_000_000_000,
            -3_000_000_000 <= parameters.neighbor_min,
        decreases parameters.vertex_count - vertex,
    {
        fill_vertex(&mut graph, vertex, &mut rng, parameters);
        vertex = vertex + 1;
    }

    proof {
        broadcast use vstd::set::group_set_axioms;

        assert forall|v: i64| #[trigger] graph.has_vertex(v) <==> 0 <= v
            < parameters.vertex_count by {}
        let keys = graph.content@.map_values(|entry: (i64, Vec<(i64, u64)>)| entry.0 as int);
        assert(keys.no_duplicates()) by {
            assert forall|i: int, j: int|
                0 <= i < keys.len() && 0 <= j < keys.len() && i != j implies keys[i] != keys[j] by {
                if i < j {
                    assert(graph.content@[i].0 != graph.content@[j].0);
                } else {
                    assert(graph.content@[j].0 != graph.content@[i].0);
                }
            }
        }
        keys.unique_seq_to_set();
        vstd::set_lib::lemma_int_range(0, parameters.vertex_count as int);
        assert(keys.to_set() =~= vstd::set_lib::set_int_range(
            0,
            parameters.vertex_count as int,
        )) by {
            assert forall|x: int| #[trigger] keys.to_set().contains(x) implies 0 <= x
                < parameters.vertex_count by {
                let i = choose|i: int| 0 <= i < keys.len() && keys[i] == x;
                assert(graph.content@[i].0 as int == x);
                graph.lemma_idx_of(i, graph.content@[i].0);
                assert(graph.has_vertex(graph.content@[i].0));
            }
            assert forall|x: int| 0 <= x < parameters.vertex_count implies #[trigger] keys.to_set()
                .contains(x) by {
                let v = x as i64;
                assert(graph.has_vertex(v));
                let i = graph.idx_of(v);
                graph.lemma_idx_of(i, v);
                assert(keys[i] == x);
                assert(keys.contains(x));
            }
        }
        assert(graph.content@.len() == parameters.vertex_count);
    }

    Ok(graph)
}

} // verus!
