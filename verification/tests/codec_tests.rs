use dijkstra::print::{edge_list_to_string, vertex_to_string};
use dijkstra::read::{find_next_int, parse_next_int};

#[test]
fn vertex_head_renders_id() {
    assert_eq!(vertex_to_string(10), "Vertex 10: ");
    assert_eq!(vertex_to_string(0), "Vertex 0: ");
    assert_eq!(vertex_to_string(-7), "Vertex -7: ");
}

#[test]
fn edge_list_renders_pairs() {
    let list: Vec<(i64, u64)> = vec![(1, 20), (2, 40)];
    assert_eq!(edge_list_to_string(&list), "1 20 -> 2 40 -> ");
    assert_eq!(edge_list_to_string(&Vec::new()), "");
}

#[test]
fn parse_reads_leading_digits() {
    assert_eq!(parse_next_int("20 -> rest"), 20);
    assert_eq!(parse_next_int("7"), 7);
    assert_eq!(parse_next_int("405x"), 405);
}

#[test]
fn find_skips_to_next_number() {
    let line = "Vertex 0: 1 20 -> 2 40 -> ";
    let rest = find_next_int(line).unwrap();
    assert_eq!(parse_next_int(rest), 0);
    let rest2 = find_next_int(rest).unwrap();
    assert_eq!(parse_next_int(rest2), 1);
    let rest3 = find_next_int(rest2).unwrap();
    assert_eq!(parse_next_int(rest3), 20);
    assert_eq!(find_next_int("123"), None);
    assert_eq!(find_next_int("no digits at all -> "), None);
}

#[test]
fn rendered_line_parses_back() {
    let head = vertex_to_string(3);
    let list: Vec<(i64, u64)> = vec![(4, 60), (5, 7)];
    let line = format!("{}{}", head, edge_list_to_string(&list));
    let c1 = find_next_int(&line).unwrap();
    assert_eq!(parse_next_int(c1), 3);
    let c2 = find_next_int(c1).unwrap();
    assert_eq!(parse_next_int(c2), 4);
    let c3 = find_next_int(c2).unwrap();
    assert_eq!(parse_next_int(c3), 60);
    let c4 = find_next_int(c3).unwrap();
    assert_eq!(parse_next_int(c4), 5);
    let c5 = find_next_int(c4).unwrap();
    assert_eq!(parse_next_int(c5), 7);
    assert_eq!(find_next_int(c5), None);
}
