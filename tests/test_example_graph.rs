use lsm_storage::algorithms::{bfs, wcc};
use lsm_storage::bucket::builder::BucketBuilder;
use lsm_storage::bucket::Bucket;
use lsm_storage::delta::{DeltaLog, DeltaOperation};
use lsm_storage::graph::CsrGraph;
use lsm_storage::overlay::apply_delta_to_neighbors;
use lsm_storage::types::VId;
use lsm_storage::vertex_index::VertexIndex;
use std::collections::HashMap;

/// The example graph: 13 vertices in 4 communities, 20 directed edges.
const EXAMPLE_GRAPH: &str = "t 13 20
v 0 0 0
v 1 0 0
v 2 0 0
v 3 0 0
v 4 0 1
v 5 0 1
v 6 0 1
v 7 0 2
v 8 0 2
v 9 0 2
v 10 0 2
v 11 0 3
v 12 0 3
e 0 2
e 1 0
e 1 2
e 1 3
e 2 3
e 3 0
e 3 4
e 3 11
e 4 6
e 4 7
e 5 4
e 6 5
e 7 3
e 7 8
e 7 9
e 8 9
e 8 10
e 10 7
e 10 9
e 11 12
";

fn example() -> CsrGraph {
    CsrGraph::from_text(EXAMPLE_GRAPH.as_bytes()).unwrap()
}

fn example_lists() -> Vec<Vec<VId>> {
    let graph = example();
    (0..graph.num_vertices() as VId).map(|v| graph.get_neighbor_iter(v).to_vec()).collect()
}

fn check_example(graph: &CsrGraph) {
    assert_eq!(graph.num_vertices(), 13, "Incorrect number of vertices");
    assert_eq!(graph.num_edges(), 20, "Incorrect number of edges");
    assert_eq!(graph.communities()[0], 0);
    assert_eq!(graph.communities()[4], 1);
    assert_eq!(graph.communities()[7], 2);
    assert_eq!(graph.communities()[11], 3);
    let v3: Vec<VId> = graph.neighbors()[graph.offsets()[3]..graph.offsets()[4]].to_vec();
    assert_eq!(v3, vec![0, 4, 11]);
    let v1: Vec<VId> = graph.neighbors()[graph.offsets()[1]..graph.offsets()[2]].to_vec();
    assert_eq!(v1, vec![0, 2, 3]);
}

#[test]
fn test_load_graph_from_temp_file() {
    check_example(&example());
}

#[test]
fn test_load_graph_from_file() {
    check_example(&example());
}

#[test]
fn test_induced_graph() {
    let graph = example();
    let induced = graph.induced_graph(&[0, 1, 2, 3]);
    assert_eq!(induced[0], vec![2]);
    assert_eq!(induced[1], vec![0, 2, 3]);
    assert_eq!(induced[2], vec![3]);
    assert_eq!(induced[3], vec![0, 4, 11]);
}

#[test]
fn test_compute_community_list() {
    let mut graph = example();
    let communities = graph.get_community_structure();
    assert_eq!(communities.len(), 4);
    assert_eq!(communities[0], vec![0, 1, 2, 3]);
    assert_eq!(communities[1], vec![4, 5, 6]);
    assert_eq!(communities[2], vec![7, 8, 9, 10]);
    assert_eq!(communities[3], vec![11, 12]);
    let total: usize = communities.iter().map(|c| c.len()).sum();
    assert_eq!(total, 13);
}

#[test]
fn test_build_large_vertex_index() {
    let mut graph = example();
    let (vertex_index, giant_vertices) = VertexIndex::build_from_graph(&mut graph, 50, 1024).unwrap();
    assert!(!vertex_index.get_virtual_community_list_for_test().is_empty());
    assert_eq!(giant_vertices.len(), 0);
}

#[test]
fn test_build_vertex_index() {
    let mut graph = example();
    let (vertex_index, giant_vertices) = VertexIndex::build_from_graph(&mut graph, 10, 1024).unwrap();
    assert_eq!(giant_vertices.len(), 0);
    for vid in 0..13 {
        assert!(vertex_index.vertex_array[vid].is_normal());
    }
    assert_eq!(vertex_index.vertex_degree[0], 1);
    assert_eq!(vertex_index.vertex_degree[1], 3);
    assert_eq!(vertex_index.vertex_degree[3], 3);
    assert_eq!(vertex_index.vertex_degree[11], 1);
    assert_eq!(vertex_index.community_map.len(), 13);
    assert_eq!(vertex_index.community_map[0], 0);
    assert_eq!(vertex_index.community_map[4], 1);
    assert_eq!(vertex_index.community_map[7], 2);
    assert_eq!(vertex_index.community_map[11], 3);
    assert_eq!(vertex_index.community_list.len(), 4);
    assert_eq!(vertex_index.community_list[0], vec![0, 1, 2, 3]);
    assert_eq!(vertex_index.community_list[1], vec![4, 5, 6]);
    assert_eq!(vertex_index.community_list[2], vec![7, 8, 9, 10]);
    assert_eq!(vertex_index.community_list[3], vec![11, 12]);
}

#[test]
fn test_build_vertex_index_with_giant_vertices() {
    let mut graph = example();
    let (vertex_index, giant_vertices) = VertexIndex::build_from_graph(&mut graph, 3, 1024).unwrap();
    assert!(giant_vertices.len() >= 3);
    assert!(giant_vertices.contains(&1));
    assert!(giant_vertices.contains(&3));
    assert!(giant_vertices.contains(&7));
    assert!(vertex_index.vertex_array[1].is_giant());
    assert!(vertex_index.vertex_array[3].is_giant());
    assert!(vertex_index.vertex_array[7].is_giant());
    assert!(vertex_index.vertex_array[0].is_normal());
    assert!(vertex_index.vertex_array[11].is_normal());
}

#[test]
fn test_simple_bucket_build() {
    let graph = example();
    let mut builder = BucketBuilder::new(4096);
    for vertex_id in 0..graph.num_vertices() as VId {
        builder.add(vertex_id, graph.get_neighbor_iter(vertex_id)).unwrap();
    }
    let bytes = builder.build(0).unwrap();
    let bucket = Bucket::open(0, bytes).unwrap();
    assert_eq!(bucket.vertex_metas.len(), 13);
}

#[test]
fn test_bucket_build_and_open() {
    let graph = example();
    let mut builder = BucketBuilder::new(4096);
    for vertex_id in 0..graph.num_vertices() as VId {
        let start = graph.offsets()[vertex_id as usize];
        let end = graph.offsets()[vertex_id as usize + 1];
        builder.add(vertex_id, &graph.neighbors()[start..end]).unwrap();
    }
    let bytes = builder.build(0).unwrap();
    let opened_bucket = Bucket::open(0, bytes).unwrap();
    assert_eq!(opened_bucket.get_vritual_community_id(), 0);
    assert_eq!(opened_bucket.get_block_size(), 4096);
    assert_eq!(opened_bucket.vertex_metas.len(), 13);
    assert!(opened_bucket.vertex_metas.iter().any(|m| m.vertex_id == 0));
    assert!(opened_bucket.vertex_metas.iter().any(|m| m.vertex_id == 3));
}

#[test]
fn test_simple_bfs() {
    let bfs_result = bfs(&example_lists(), 0);
    let mut expected: HashMap<VId, u32> = HashMap::new();
    expected.insert(0, 0);
    expected.insert(2, 1);
    expected.insert(3, 2);
    expected.insert(4, 3);
    expected.insert(11, 3);
    expected.insert(6, 4);
    expected.insert(7, 4);
    expected.insert(12, 4);
    expected.insert(5, 5);
    expected.insert(8, 5);
    expected.insert(9, 5);
    expected.insert(10, 6);
    assert_eq!(bfs_result.len(), expected.len());
    for (vertex, distance) in bfs_result {
        assert!(expected.contains_key(&vertex), "Unexpected vertex {} in BFS result", vertex);
        assert_eq!(expected[&vertex], distance, "Distance mismatch for vertex {}", vertex);
    }
}

#[test]
fn test_simple_wcc() {
    let wcc_result = wcc(&example_lists());
    assert!(wcc_result.iter().all(|&comp_id| comp_id == 0), "WCC result is Wrong");
}

#[test]
fn test_simple_community_detection() {
    let mut graph = example();
    let (index, _) = VertexIndex::build_from_graph(&mut graph, 128, 1024).unwrap();
    assert_eq!(index.community_detection().len(), 4);
}

#[test]
fn test_simple_community_search() {
    let mut graph = example();
    let (index, _) = VertexIndex::build_from_graph(&mut graph, 128, 1024).unwrap();
    assert_eq!(index.community_search(0).unwrap().len(), 4);
}

fn op(timestamp: u64, neighbor: VId, op_type: u32) -> DeltaOperation {
    DeltaOperation { timestamp, neighbor, op_type }
}

#[test]
fn test_apply_delta_add_operations() {
    let mut neighbors = vec![1, 2, 3];
    let delta = DeltaLog { ops: vec![op(1, 4, 0), op(2, 5, 0)] };
    apply_delta_to_neighbors(&mut neighbors, &delta);
    neighbors.sort_unstable();
    assert_eq!(neighbors, vec![1, 2, 3, 4, 5]);
}

#[test]
fn test_apply_delta_remove_operations() {
    let mut neighbors = vec![1, 2, 3, 4, 5];
    let delta = DeltaLog { ops: vec![op(1, 2, 1), op(2, 4, 1)] };
    apply_delta_to_neighbors(&mut neighbors, &delta);
    neighbors.sort_unstable();
    assert_eq!(neighbors, vec![1, 3, 5]);
}

#[test]
fn test_apply_delta_mixed_operations() {
    let mut neighbors = vec![1, 2, 3];
    let delta = DeltaLog { ops: vec![op(1, 2, 1), op(2, 4, 0), op(3, 2, 0)] };
    apply_delta_to_neighbors(&mut neighbors, &delta);
    neighbors.sort_unstable();
    assert_eq!(neighbors, vec![1, 2, 3, 4]);
}

#[test]
fn test_apply_delta_override_same_neighbor() {
    let mut neighbors = vec![1, 2, 3];
    let delta = DeltaLog { ops: vec![op(1, 4, 0), op(2, 4, 1), op(3, 4, 0)] };
    apply_delta_to_neighbors(&mut neighbors, &delta);
    neighbors.sort_unstable();
    assert_eq!(neighbors, vec![1, 2, 3, 4]);
}

#[test]
fn test_apply_delta_empty() {
    let mut neighbors = vec![1, 2, 3];
    let delta = DeltaLog { ops: vec![] };
    apply_delta_to_neighbors(&mut neighbors, &delta);
    assert_eq!(neighbors, vec![1, 2, 3]);
}

/// Pseudo-random neighbor ids from a linear congruential sequence.
fn scrambled(seed: u64, n: usize) -> Vec<VId> {
    let mut x = seed;
    (0..n)
        .map(|_| {
            x = x.wrapping_mul(6364136223846793005).wrapping_add(1442695040888963407);
            (x >> 32) as VId
        })
        .collect()
}

#[test]
fn test_giant_vertices_write_and_read() {
    let mut stored = Vec::new();
    for vertex_id in 0..100u64 {
        let neighbors = scrambled(vertex_id, 10_000);
        stored.push(lsm_storage::giant::encode_giant_list(&neighbors).unwrap());
    }
    for bytes in &stored {
        let neighbors = lsm_storage::giant::decode_giant_list(bytes).unwrap();
        assert_eq!(neighbors.len(), 10_000);
    }
}

#[test]
fn test_compression_stats() {
    let sorted_neighbors: Vec<VId> = (0..10_000).collect();
    let sorted_bytes = lsm_storage::giant::encode_giant_list(&sorted_neighbors).unwrap();
    let random_bytes = lsm_storage::giant::encode_giant_list(&scrambled(7, 10_000)).unwrap();
    let sorted = lsm_storage::giant::decode_giant_list(&sorted_bytes).unwrap();
    let random = lsm_storage::giant::decode_giant_list(&random_bytes).unwrap();
    assert_eq!(sorted.len(), 10_000);
    assert_eq!(random.len(), 10_000);
    for i in 0..10_000 {
        assert_eq!(sorted[i], i as VId, "Sorted neighbors should be sequential");
    }
}

#[test]
fn test_delta_merge_without_base() {
    let ops = [
        DeltaOperation::new(100, lsm_storage::delta::DeltaOpType::AddNeighbor, 10),
        DeltaOperation::new(200, lsm_storage::delta::DeltaOpType::AddNeighbor, 20),
        DeltaOperation::new(150, lsm_storage::delta::DeltaOpType::RemoveNeighbor, 10),
    ];
    let mut value: Option<Vec<u8>> = None;
    for o in ops.iter() {
        let operand = DeltaOperation::encode_batch(&[*o]);
        value = DeltaLog::merge_for_rocksdb(value.as_deref(), &[operand.as_slice()]);
        assert!(value.is_some());
    }
    let log = DeltaLog::decode(&value.unwrap()).unwrap();
    assert_eq!(log.len(), 2);
    let op10 = log.ops().iter().find(|op| op.neighbor == 10).unwrap();
    assert_eq!(op10.timestamp, 150);
    assert_eq!(op10.get_op_type(), Some(lsm_storage::delta::DeltaOpType::RemoveNeighbor));
    let op20 = log.ops().iter().find(|op| op.neighbor == 20).unwrap();
    assert_eq!(op20.timestamp, 200);
}
