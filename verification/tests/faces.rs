use cad_open_layer::faces::{
    build_edges, face_walls, intern_keys, link_next, outgoing_lists, trace_faces, GraphEdge,
};

fn square_edges() -> Vec<GraphEdge> {
    let keys = vec![(0, 0), (10, 0), (10, 0), (10, 10), (10, 10), (0, 10), (0, 10), (0, 0)];
    let (vertex_of, firsts) = intern_keys(&keys);
    assert_eq!(vertex_of, vec![0, 1, 1, 2, 2, 3, 3, 0]);
    assert_eq!(firsts, vec![0, 1, 3, 5]);
    let ends = vec![(0, 1, 1), (1, 2, 2), (2, 3, 3), (3, 0, 4)];
    build_edges(&ends)
}

#[test]
fn interning_numbers_keys_by_first_occurrence() {
    let keys = vec![(5, 5), (1, 2), (5, 5), (7, -3), (1, 2)];
    let (vertex_of, firsts) = intern_keys(&keys);
    assert_eq!(vertex_of, vec![0, 1, 0, 2, 1]);
    assert_eq!(firsts, vec![0, 1, 3]);
    let (none, no_firsts) = intern_keys(&[]);
    assert!(none.is_empty() && no_firsts.is_empty());
}

#[test]
fn segments_give_twin_half_edges_and_degenerate_ones_none() {
    let edges = build_edges(&[(0, 1, 7), (2, 2, 8), (1, 2, 9)]);
    assert_eq!(edges.len(), 4);
    assert_eq!(edges[0], GraphEdge { origin: 0, target: 1, twin: 1, wall_id: 7 });
    assert_eq!(edges[1], GraphEdge { origin: 1, target: 0, twin: 0, wall_id: 7 });
    assert_eq!(edges[2], GraphEdge { origin: 1, target: 2, twin: 3, wall_id: 9 });
    assert_eq!(edges[3], GraphEdge { origin: 2, target: 1, twin: 2, wall_id: 9 });
}

#[test]
fn outgoing_lists_group_half_edges_by_origin() {
    let edges = square_edges();
    let outs = outgoing_lists(&edges, 4);
    assert_eq!(outs, vec![vec![0, 7], vec![1, 2], vec![3, 4], vec![5, 6]]);
}

#[test]
fn square_traces_one_bounded_and_one_outer_face() {
    let edges = square_edges();
    // Each vertex's leaving half-edges, ordered by angle.
    let sorted = vec![vec![0, 7], vec![2, 1], vec![3, 4], vec![6, 5]];
    let next = link_next(&edges, &sorted);
    assert_eq!(
        next,
        vec![Some(2), Some(7), Some(4), Some(1), Some(6), Some(3), Some(0), Some(5)]
    );
    let faces = trace_faces(&next);
    assert_eq!(faces, vec![vec![0, 2, 4, 6], vec![1, 7, 5, 3]]);
    assert_eq!(face_walls(&edges, &faces[0]), vec![1, 2, 3, 4]);
    for f in &faces {
        assert_eq!(next[*f.last().unwrap()], Some(f[0]));
    }
}

#[test]
fn short_walks_are_not_faces() {
    assert!(trace_faces(&[Some(1), None, Some(0)]).is_empty());
    assert_eq!(trace_faces(&[Some(1), Some(2), Some(0)]), vec![vec![0, 1, 2]]);
    assert!(trace_faces(&[]).is_empty());
}

#[test]
fn a_half_edge_linked_twice_keeps_its_last_link() {
    let edges = vec![
        GraphEdge { origin: 0, target: 1, twin: 1, wall_id: 1 },
        GraphEdge { origin: 1, target: 0, twin: 0, wall_id: 1 },
    ];
    let next = link_next(&edges, &[vec![0], vec![0, 1]]);
    assert_eq!(next, vec![Some(0), Some(1)]);
}

#[test]
fn face_walls_are_distinct_and_increasing() {
    let edges = build_edges(&[(0, 1, 5), (1, 2, 3), (2, 3, 5), (3, 0, 1)]);
    assert_eq!(face_walls(&edges, &[0, 2, 4, 6]), vec![1, 3, 5]);
    assert!(face_walls(&edges, &[]).is_empty());
}

#[test]
fn keys_at_the_ends_of_the_range_stay_apart() {
    let keys = vec![
        (i64::MIN, i64::MAX),
        (i64::MIN + 1, i64::MIN),
        (i64::MAX, i64::MIN),
        (i64::MIN, i64::MAX),
        (-1, -1),
        (0, i64::MIN),
        (-1, i64::MAX),
        (i64::MAX, i64::MIN),
    ];
    let (vertex_of, firsts) = intern_keys(&keys);
    assert_eq!(vertex_of, vec![0, 1, 2, 0, 3, 4, 5, 2]);
    assert_eq!(firsts, vec![0, 1, 2, 4, 5, 6]);
}
