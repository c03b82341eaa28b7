use dijkstra::djikstra::{djikstra, UNREACHED};
use dijkstra::graph::Graph;
use dijkstra::node::Node;

#[test]
fn djikstra_empty() {
    let graph = Graph::new();
    assert_eq!(djikstra(&graph, 0), Vec::<Node>::new());
}

#[test]
fn djikstra_test1() {
    let mut graph = Graph::new();

    graph.insert_vertex(0);
    graph.insert_vertex(1);
    graph.insert_vertex(2);

    graph.insert_edge(0, 1, 50);
    graph.insert_edge(1, 0, 50);
    graph.insert_edge(0, 2, 30);
    graph.insert_edge(2, 0, 30);
    graph.insert_edge(2, 1, 10);
    graph.insert_edge(1, 2, 10);

    let results = djikstra(&graph, 0);
    println!("{:?}", results);
    assert_eq!(results.len(), 3);
    assert_eq!(results[0], Node { vertex: 0, distance: 0, prev: None });
    assert_eq!(results[1], Node { vertex: 2, distance: 30, prev: None });
    assert_eq!(results[2], Node { vertex: 1, distance: 40, prev: None });
}

#[test]
fn mod_empty() {
    let graph = Graph::new();
    assert_eq!(djikstra(&graph, 0), Vec::<Node>::new());
}

#[test]
fn mod_test1() {
    let mut graph = Graph::new();

    graph.insert_vertex(0);
    graph.insert_vertex(1);
    graph.insert_vertex(2);
    graph.insert_vertex(3);

    graph.insert_edge(0, 1, 50);
    graph.insert_edge(1, 0, 50);
    graph.insert_edge(0, 2, 30);
    graph.insert_edge(2, 0, 30);
    graph.insert_edge(2, 1, 10);
    graph.insert_edge(1, 2, 10);
    graph.insert_edge(3, 1, 60);
    graph.insert_edge(1, 3, 60);

    let results = djikstra(&graph, 0);
    println!("{:?}", results);
    assert_eq!(results.len(), 4);
    assert_eq!(
        results,
        vec![
            Node { vertex: 0, distance: 0, prev: None },
            Node { vertex: 2, distance: 30, prev: Some(0) },
            Node { vertex: 1, distance: 40, prev: Some(2) },
            Node { vertex: 3, distance: 100, prev: Some(1) }
        ]
    );
}

fn scenario_graph() -> Graph {
    let mut graph = Graph::new();
    graph.insert_vertex(0);
    graph.insert_vertex(1);
    graph.insert_vertex(2);
    graph.insert_edge(0, 1, 50);
    graph.insert_edge(1, 0, 50);
    graph.insert_edge(0, 2, 30);
    graph.insert_edge(2, 0, 30);
    graph.insert_edge(2, 1, 10);
    graph.insert_edge(1, 2, 10);
    graph
}

#[test]
fn settlement_order_with_exact_fields() {
    let graph = scenario_graph();
    let results = djikstra(&graph, 0);
    let triples: Vec<(i64, u64, Option<i64>)> =
        results.iter().map(|n| (n.vertex, n.distance, n.prev)).collect();
    assert_eq!(triples, vec![(0, 0, None), (2, 30, Some(0)), (1, 40, Some(2))]);
}

#[test]
fn settlement_order_with_fourth_vertex() {
    let mut graph = scenario_graph();
    graph.insert_vertex(3);
    graph.insert_edge(1, 3, 60);
    graph.insert_edge(3, 1, 60);
    let results = djikstra(&graph, 0);
    let triples: Vec<(i64, u64, Option<i64>)> =
        results.iter().map(|n| (n.vertex, n.distance, n.prev)).collect();
    assert_eq!(
        triples,
        vec![(0, 0, None), (2, 30, Some(0)), (1, 40, Some(2)), (3, 100, Some(1))]
    );
}

#[test]
fn absent_start_yields_empty_result() {
    let mut graph = Graph::new();
    graph.insert_vertex(1);
    graph.insert_vertex(2);
    graph.insert_edge(1, 2, 3);
    assert!(djikstra(&graph, 0).is_empty());
}

#[test]
fn isolated_vertex_keeps_sentinel_distance() {
    let mut graph = scenario_graph();
    graph.insert_vertex(9);
    let results = djikstra(&graph, 0);
    assert_eq!(results.len(), 4);
    let lonely = results.iter().find(|n| n.vertex == 9).unwrap();
    assert_eq!(lonely.distance, UNREACHED);
    assert_eq!(lonely.prev, None);
    assert_eq!(UNREACHED, u64::MAX - 1000);
}

#[test]
fn distances_are_non_decreasing() {
    let graph = dense_graph();
    let results = djikstra(&graph, 0);
    for window in results.windows(2) {
        assert!(window[0].distance <= window[1].distance);
    }
}

fn dense_graph() -> Graph {
    let mut graph = Graph::new();
    for v in 0..7 {
        graph.insert_vertex(v);
    }
    let edges: [(i64, i64, u64); 10] = [
        (0, 1, 4),
        (0, 2, 1),
        (2, 1, 2),
        (1, 3, 5),
        (2, 3, 8),
        (3, 4, 3),
        (1, 4, 10),
        (5, 4, 1),
        (0, 5, 20),
        (5, 6, 2),
    ];
    for (a, b, w) in edges {
        graph.insert_edge(a, b, w);
        graph.insert_edge(b, a, w);
    }
    graph
}

/// Brute-force reference: Bellman-Ford relaxations until a fixed point.
fn brute_force_distances(graph: &Graph, start: i64) -> Vec<(i64, u64)> {
    let vertices = graph.get_vertices();
    let mut dist: Vec<(i64, u64)> = vertices.iter().map(|&v| (v, u64::MAX - 1000)).collect();
    if let Some(slot) = dist.iter_mut().find(|d| d.0 == start) {
        slot.1 = 0;
    }
    for _ in 0..vertices.len() {
        for &v in &vertices {
            let from = dist.iter().find(|d| d.0 == v).unwrap().1;
            if from == u64::MAX - 1000 {
                continue;
            }
            for &(to, w) in graph.adjacency_list(&v).unwrap() {
                let cand = from + w;
                let slot = dist.iter_mut().find(|d| d.0 == to).unwrap();
                if cand < slot.1 {
                    slot.1 = cand;
                }
            }
        }
    }
    dist
}

#[test]
fn distances_match_brute_force() {
    let graph = dense_graph();
    let results = djikstra(&graph, 0);
    let reference = brute_force_distances(&graph, 0);
    assert_eq!(results.len(), reference.len());
    for node in &results {
        let expected = reference.iter().find(|d| d.0 == node.vertex).unwrap().1;
        assert_eq!(node.distance, expected, "vertex {}", node.vertex);
    }
}

#[test]
fn predecessor_chain_sums_to_distance() {
    let graph = dense_graph();
    let results = djikstra(&graph, 0);
    for node in &results {
        if node.distance == UNREACHED {
            assert_eq!(node.prev, None);
            continue;
        }
        let mut hops = 0;
        let mut current = node.clone();
        while let Some(p) = current.prev {
            let pred = results.iter().find(|n| n.vertex == p).unwrap();
            let weight = current.distance - pred.distance;
            assert!(graph
                .adjacency_list(&p)
                .unwrap()
                .iter()
                .any(|&(to, w)| to == current.vertex && w == weight));
            current = pred.clone();
            hops += 1;
        }
        assert_eq!(current.vertex, 0);
        assert_eq!(current.distance, 0);
        assert!(hops <= results.len());
    }
}
