use dijkstra::graph::Graph;

#[test]
fn is_empty() {
    let graph = Graph::new();
    assert_eq!(graph.is_empty(), true);
}

#[test]
fn mod_insert() {
    let mut graph = Graph::new();
    let vertex = 10;
    assert_eq!(graph.insert_vertex(vertex), None);
    assert_eq!(graph.is_empty(), false);
}

#[test]
fn insert_edge_when_vertex_does_not_exist() {
    let mut graph = Graph::new();
    let vertex = 10;
    let to = 12;
    graph.insert_edge(vertex, to, 0);
    assert_eq!(graph.is_empty(), true);
}

#[test]
fn vertex_exists() {
    let mut graph = Graph::new();
    let vertex = 10;
    graph.insert_vertex(vertex);
    assert!(graph.content.iter().any(|entry| entry.0 == vertex));
    assert!(graph.vertex_exists(&vertex))
}

#[test]
fn adjacency_list() {
    let mut graph = Graph::new();
    let vertex = 10;
    let to = 12;
    graph.insert_vertex(vertex);
    graph.insert_vertex(to);
    graph.insert_edge(vertex, to, 0);
    let list = graph.adjacency_list(&vertex).unwrap();

    assert_eq!(*list, vec![(to, 0)]);
}

#[test]
fn insert_edge() {
    let mut graph = Graph::new();
    let vertex = 10;
    let to = 12;
    graph.insert_vertex(vertex);
    graph.insert_vertex(to);
    assert!(graph.insert_edge(vertex, to, 0).is_some());
    assert!(!graph.adjacency_list(&vertex).unwrap().is_empty());
}

#[test]
fn edge_exists() {
    let mut graph = Graph::new();
    let vertex = 10;
    let to = 12;
    graph.insert_vertex(vertex);
    graph.insert_vertex(to);
    assert!(graph.content.iter().any(|entry| entry.0 == vertex));
    let result = graph.insert_edge(vertex, to, 0);
    assert!(result.is_some());

    assert_eq!(graph.edge_exists(&vertex, &to), true);
    assert_eq!(graph.edge_exists(&to, &vertex), false);
}

#[test]
fn out_neighbors() {
    let mut graph = Graph::new();
    let vertex = 10;
    let vertex1 = 12;
    let vertex2 = 13;
    graph.insert_vertex(vertex);
    graph.insert_vertex(vertex1);
    graph.insert_vertex(vertex2);
    graph.insert_edge(vertex, vertex1, 0);
    graph.insert_edge(vertex, vertex2, 1);
    graph.insert_edge(vertex, vertex2, 1);
    graph.insert_edge(vertex2, vertex, 1);
    assert_eq!(graph.out_neighbors(&vertex).unwrap().len(), 2);
}

#[test]
fn in_neighbors() {
    let mut graph = Graph::new();
    let vertex = 10;
    let vertex1 = 12;
    let vertex2 = 13;
    graph.insert_vertex(vertex);
    graph.insert_vertex(vertex1);
    graph.insert_vertex(vertex2);
    graph.insert_edge(vertex1, vertex, 0);
    graph.insert_edge(vertex2, vertex, 1);
    assert_eq!(graph.in_neighbors(&vertex).unwrap().len(), 2);
}

#[test]
fn insert_vertex_replaces_existing_list() {
    let mut graph = Graph::new();
    graph.insert_vertex(1);
    graph.insert_vertex(2);
    graph.insert_edge(1, 2, 7);
    let prior = graph.insert_vertex(1);
    assert_eq!(prior, Some(vec![(2, 7)]));
    assert!(graph.adjacency_list(&1).unwrap().is_empty());
    assert_eq!(graph.vertex_count(), 2);
}

#[test]
fn multigraph_keeps_parallel_edges() {
    let mut graph = Graph::new();
    graph.insert_vertex(1);
    graph.insert_vertex(2);
    graph.insert_edge(1, 2, 5);
    graph.insert_edge(1, 2, 9);
    assert_eq!(*graph.adjacency_list(&1).unwrap(), vec![(2, 5), (2, 9)]);
    assert_eq!(graph.out_neighbors(&1).unwrap().len(), 1);
}
