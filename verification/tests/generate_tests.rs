use dijkstra::generate::{
    generate_undirected, make_sure_not_same, GenerationParameters, GraphGenerationError,
};

#[test]
fn args_validation() {
    let parameters = GenerationParameters { vertex_count: 10, neighbor_min: 0, neighbor_max: 3 };
    let graph = generate_undirected(&parameters);
    assert!(graph.is_ok());

    let parameters = GenerationParameters { vertex_count: 5, neighbor_min: 0, neighbor_max: 6 };
    let err = generate_undirected(&parameters);
    assert_eq!(err.unwrap_err(), GraphGenerationError::InvalidNeighborMax);

    let parameters = GenerationParameters { vertex_count: 5, neighbor_min: 6, neighbor_max: 3 };
    let err = generate_undirected(&parameters);
    assert_eq!(err.unwrap_err(), GraphGenerationError::InvalidNeighborMin);

    let parameters = GenerationParameters { vertex_count: 5, neighbor_min: 3, neighbor_max: 3 };
    let err = generate_undirected(&parameters);
    assert_eq!(err.unwrap_err(), GraphGenerationError::TooManyEdges);
}

#[test]
fn make_sure_not_same_1() {
    let vert = 10;

    let result = make_sure_not_same(10, vert, 10);
    assert_eq!(result, 9);

    let result = make_sure_not_same(10, vert, 11);
    assert_eq!(result, 9);

    let result = make_sure_not_same(10, vert, 12);
    assert_eq!(result, 11);
}

#[test]
fn generate_undirected_1() {
    let parameters = GenerationParameters { vertex_count: 10, neighbor_min: 0, neighbor_max: 3 };

    let graph = generate_undirected(&parameters).unwrap();

    assert_eq!(graph.vertex_count() as i64, parameters.vertex_count);
    graph.content.iter().for_each(|(_, edge_list)| {
        let len = edge_list.len() as i64;
        assert!(len < parameters.neighbor_max);
        assert!(len >= parameters.neighbor_min);
    })
}

#[test]
fn generated_edges_are_symmetric_with_small_weights() {
    let parameters = GenerationParameters { vertex_count: 12, neighbor_min: 1, neighbor_max: 4 };
    let graph = generate_undirected(&parameters).unwrap();

    for v in graph.get_vertices() {
        assert!((0..parameters.vertex_count).contains(&v));
        for &(to, w) in graph.adjacency_list(&v).unwrap() {
            assert!(w < 100);
            assert_ne!(to, v);
            assert!(graph.edge_exists(&to, &v));
        }
    }
}
