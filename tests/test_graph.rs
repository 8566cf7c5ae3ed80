use lsm_storage::graph::{CsrGraph, GraphError};
use lsm_storage::partition::partition_communities;

const TINY: &str = "t 13 20
v 0 0 0
v 1 0 0
v 2 0 0
v 3 0 0
v 4 0 1
v 5 0 1
v 6 0 1
v 7 0 2
v 8 0 2
v 9 0 2
v 10 0 2
v 11 0 3
v 12 0 3
e 0 2
e 1 0
e 1 2
e 1 3
e 2 3
e 3 0
e 3 4
e 3 11
e 4 6
e 4 7
e 5 4
e 6 5
e 7 3
e 7 8
e 7 9
e 8 9
e 8 10
e 10 7
e 10 9
e 11 12
";

#[test]
fn test_load_graph_from_text() {
    let graph = CsrGraph::from_text(TINY.as_bytes()).unwrap();
    assert_eq!(graph.num_vertices(), 13);
    assert_eq!(graph.num_edges(), 20);
    assert_eq!(graph.neighbors().len(), 20);
    assert_eq!(graph.communities(), &[0, 0, 0, 0, 1, 1, 1, 2, 2, 2, 2, 3, 3]);
    let mut n1 = graph.get_neighbor_iter(1).to_vec();
    n1.sort();
    assert_eq!(n1, vec![0, 2, 3]);
    assert_eq!(graph.get_neighbor_iter(3), &[0, 4, 11]);
    assert_eq!(graph.get_degree(7), 3);
    assert_eq!(graph.get_degree(9), 0);
    assert_eq!(graph.offsets()[13], 20);
}

#[test]
fn test_compute_community_list_tiny() {
    let mut graph = CsrGraph::from_text(TINY.as_bytes()).unwrap();
    let list = graph.get_community_structure().clone();
    assert_eq!(list.len(), 4);
    assert_eq!(list[0], vec![0, 1, 2, 3]);
    assert_eq!(list[3], vec![11, 12]);
    assert_eq!(graph.take_community_list(), list);
}

#[test]
fn test_induced_graph_tiny() {
    let graph = CsrGraph::from_text(TINY.as_bytes()).unwrap();
    let induced = graph.induced_graph(&[4, 9, 0]);
    assert_eq!(induced, vec![vec![6, 7], vec![], vec![2]]);
}

#[test]
fn test_invalid_lines_are_skipped() {
    let text = "t 3 2\nv 0 x 5\nv 9 0 1\nv 1 0 2\nbogus line\ne 0 1\ne 7 1\ne 1 x\n\ne 1 2\n";
    let graph = CsrGraph::from_text(text.as_bytes()).unwrap();
    assert_eq!(graph.communities(), &[5, 2, 0]);
    assert_eq!(graph.get_neighbor_iter(0), &[1]);
    assert_eq!(graph.get_neighbor_iter(1), &[2]);
    assert_eq!(graph.get_neighbor_iter(2), &[] as &[u32]);
}

#[test]
fn test_graph_header_errors() {
    assert_eq!(CsrGraph::from_text(b"").err(), Some(GraphError::EmptyInput));
    assert_eq!(CsrGraph::from_text(b"v 0 0 0\n").err(), Some(GraphError::BadHeader));
    assert_eq!(CsrGraph::from_text(b"t 3\n").err(), Some(GraphError::BadHeader));
    assert_eq!(CsrGraph::parse_metadata(b"t  12\t40 ").unwrap(), (12, 40));
}

#[test]
fn test_empty_graph() {
    let graph = CsrGraph::new();
    assert_eq!(graph.num_vertices(), 0);
    assert_eq!(graph.offsets(), &[0]);
    let graph = CsrGraph::from_text(b"t 0 0").unwrap();
    assert_eq!(graph.num_vertices(), 0);
}

#[test]
fn test_partition_first_fit() {
    let assign = partition_communities(&vec![10, 70, 0, 30, 25, 50, 100], 60).unwrap();
    // 70 and 100 are giant: ids 0 and 1 in community order. Small ones from 2 on:
    // {10, 30} (40), then 25 would make 65 > 60, so {25}, then 50 makes 75: {50}.
    assert_eq!(assign, vec![2, 0, 0, 2, 3, 4, 1]);
}

#[test]
fn test_partition_bound_holds() {
    let sizes = vec![5, 5, 5, 5, 5, 5, 5];
    let assign = partition_communities(&sizes, 12).unwrap();
    assert_eq!(assign, vec![0, 0, 1, 1, 2, 2, 3]);
    for g in 0..4u16 {
        let total: usize = sizes.iter().zip(assign.iter()).filter(|(_, a)| **a == g).map(|(s, _)| *s).sum();
        assert!(total <= 12);
    }
}

#[test]
fn test_partition_dense_first_fit() {
    // Three communities of size 1 under a boundary of 10 share one virtual community.
    assert_eq!(partition_communities(&vec![1, 1, 1], 10).unwrap(), vec![0, 0, 0]);
    // Empty communities get 0 and use no id; ids are 0..4 here.
    assert_eq!(partition_communities(&vec![0, 12, 6, 0, 6, 5], 10).unwrap(), vec![0, 0, 1, 0, 2, 3]);
}
