use lsm_storage::algorithms::{bfs, symmetrize, wcc};
use lsm_storage::bucket::builder::BucketBuilder;
use lsm_storage::bucket::{Bucket, BucketError, VertexMeta};
use lsm_storage::delta::{DeltaLog, DeltaOpType, DeltaOperation};
use lsm_storage::giant::{decode_giant_list, encode_giant_list};
use lsm_storage::graph::CsrGraph;
use lsm_storage::iterator::{GlobalNeighborIterator, UnifiedNeighborIterator};
use lsm_storage::block::Block;
use std::sync::Arc;
use lsm_storage::placement::build_buckets;
use lsm_storage::overlay::{apply_delta_to_neighbors, read_all_edges, read_in_neighbor_clone};
use lsm_storage::types::VId;
use lsm_storage::vertex_index::VertexIndex;

const TINY_TEXT: &str = "t 13 20
v 0 0 0
v 1 0 0
v 2 0 0
v 3 0 0
v 4 0 1
v 5 0 1
v 6 0 1
v 7 0 2
v 8 0 2
v 9 0 2
v 10 0 2
v 11 0 3
v 12 0 3
e 0 2
e 1 0
e 1 2
e 1 3
e 2 3
e 3 0
e 3 4
e 3 11
e 4 6
e 4 7
e 5 4
e 6 5
e 7 3
e 7 8
e 7 9
e 8 9
e 8 10
e 10 7
e 10 9
e 11 12
";

fn tiny_lists() -> Vec<Vec<VId>> {
    let graph = CsrGraph::from_text(TINY_TEXT.as_bytes()).unwrap();
    (0..13u32).map(|v| graph.get_neighbor_iter(v).to_vec()).collect()
}

#[test]
fn test_tiny_graph_neighbors_and_edges() {
    let lists = tiny_lists();
    let mut n1 = lists[1].clone();
    n1.sort();
    assert_eq!(n1, vec![0, 2, 3]);
    assert_eq!(read_all_edges(&lists).len(), 20);
}

#[test]
fn test_bfs_from_zero_on_tiny_graph() {
    let lists = tiny_lists();
    let mut depths = bfs(&lists, 0);
    depths.sort();
    assert_eq!(
        depths,
        vec![(0, 0), (2, 1), (3, 2), (4, 3), (5, 5), (6, 4), (7, 4), (8, 5), (9, 5), (10, 6), (11, 3), (12, 4)]
    );
    assert!(bfs(&lists, 13).is_empty());
}

#[test]
fn test_bfs_unreachable_absent() {
    let lists: Vec<Vec<VId>> = vec![vec![1], vec![], vec![0]];
    assert_eq!(bfs(&lists, 0), vec![(0, 0), (1, 1)]);
}

#[test]
fn test_community_lookup_on_tiny_graph() {
    let mut graph = CsrGraph::from_text(TINY_TEXT.as_bytes()).unwrap();
    let (index, _) = VertexIndex::build_from_graph(&mut graph, 128, 1024).unwrap();
    assert_eq!(index.community_search(0), Some(vec![0, 1, 2, 3]));
    assert_eq!(index.community_detection().len(), 4);
    assert_eq!(index.community_search(13), None);
}

#[test]
fn test_delta_overlay_on_tiny_graph() {
    let lists = tiny_lists();
    let mut out0 = lists[0].clone();
    let mut out1 = lists[1].clone();
    let log0 = DeltaLog::from_ops(vec![
        DeltaOperation::new(1, DeltaOpType::AddNeighbor, 1),
        DeltaOperation::new(3, DeltaOpType::AddNeighbor, 9),
    ]);
    let log1 = DeltaLog::from_ops(vec![DeltaOperation::new(2, DeltaOpType::RemoveNeighbor, 0)]);
    apply_delta_to_neighbors(&mut out0, &log0);
    apply_delta_to_neighbors(&mut out1, &log1);
    assert_eq!(out0, vec![1, 2, 9]);
    assert!(!out1.contains(&0));
    assert_eq!(out1, vec![2, 3]);
}

#[test]
fn test_delta_overlay_empty_log_keeps_order() {
    let mut base = vec![5, 1, 5];
    apply_delta_to_neighbors(&mut base, &DeltaLog::new());
    assert_eq!(base, vec![5, 1, 5]);
    let log = DeltaLog::from_ops(vec![DeltaOperation { timestamp: 1, neighbor: 7, op_type: 9 }]);
    apply_delta_to_neighbors(&mut base, &log);
    assert_eq!(base, vec![1, 5]);
}

#[test]
fn test_in_neighbors_from_edges() {
    let lists = tiny_lists();
    let edges = read_all_edges(&lists);
    assert_eq!(read_in_neighbor_clone(&edges, 9), vec![7, 8, 10]);
    assert_eq!(read_in_neighbor_clone(&edges, 1), Vec::<VId>::new());
}

#[test]
fn test_tiny_bucket_reopen_neighbors() {
    let lists = tiny_lists();
    let mut builder = BucketBuilder::new(4096);
    for v in 0..13u32 {
        builder.add(v, &lists[v as usize]).unwrap();
    }
    let bytes = builder.build(0).unwrap();
    let bucket = Bucket::open(0, bytes).unwrap();
    assert_eq!(bucket.get_block_size(), 4096);
    assert_eq!(bucket.vertex_metas.len(), 13);
    for v in 0..13u32 {
        assert_eq!(bucket.get_neighbors_for_test(v).unwrap(), lists[v as usize]);
    }
    assert_eq!(bucket.get_neighbors_for_test(99).err(), Some(BucketError::UnknownVertex));
    assert_eq!(bucket.read_block(1).err(), Some(BucketError::PageOutOfRange));
}

#[test]
fn test_bucket_many_pages() {
    let mut builder = BucketBuilder::new(64);
    let mut expected = Vec::new();
    for v in 0..20u32 {
        let ns: Vec<VId> = (0..(v % 5)).map(|k| v * 10 + k).collect();
        builder.add(v, &ns).unwrap();
        expected.push(ns);
    }
    let bytes = builder.build(3).unwrap();
    let bucket = Bucket::open(3, bytes).unwrap();
    assert_eq!(bucket.get_vritual_community_id(), 3);
    assert!(bucket.vertex_metas.iter().any(|m| m.page_id > 0));
    for v in 0..20u32 {
        let meta = bucket.vertex_metas.iter().find(|m| m.vertex_id == v).unwrap();
        let block = bucket.read_block(meta.page_id).unwrap();
        assert_eq!(block.get_neighbor_clone(meta.offset_inner as usize).unwrap(), expected[v as usize]);
    }
}

#[test]
fn test_vertex_meta_round_trip() {
    let metas = vec![
        VertexMeta { vertex_id: 1, page_id: 2, offset_inner: 3 },
        VertexMeta { vertex_id: 0x01020304, page_id: 0, offset_inner: 0xffff },
    ];
    let mut buf = vec![9u8];
    VertexMeta::encode(&metas, &mut buf);
    assert_eq!(buf.len(), 1 + 4 + 20);
    assert_eq!(&buf[1..5], &[0, 0, 0, 2]);
    assert_eq!(VertexMeta::decode(&buf[1..]).unwrap(), metas);
    assert_eq!(VertexMeta::decode(&buf[1..20]).err(), Some(BucketError::TruncatedMetas));
}

#[test]
fn test_bucket_open_errors() {
    assert_eq!(Bucket::open(0, vec![0; 5]).err(), Some(BucketError::MissingFooter));
    // Block size 0 is refused.
    assert_eq!(Bucket::open(0, vec![0; 12]).err(), Some(BucketError::BadFooter));
}

#[test]
fn test_giant_list_round_trip() {
    let list: Vec<VId> = (0..10_000u32).map(|i| i * 7 % 10_007).collect();
    let stored = encode_giant_list(&list).unwrap();
    // LZ4 prepends the size of what it compressed: the bincode form, 8 + 4 * 10 000 bytes.
    assert_eq!(&stored[..4], &(8u32 + 40_000).to_le_bytes());
    assert_eq!(decode_giant_list(&stored).unwrap(), list);
    assert_eq!(decode_giant_list(&[1, 2, 3]), None);
}

#[test]
fn test_giant_vertex_path() {
    let mut graph = CsrGraph::from_text(TINY_TEXT.as_bytes()).unwrap();
    let (mut index, _) = VertexIndex::build_from_graph(&mut graph, 128, 1024).unwrap();
    let v = index.add_giant_vertex().unwrap();
    assert_eq!(v, 13);
    assert_eq!(index.is_giant(v), Some(true));
    let list: Vec<VId> = (0..10_000u32).collect();
    let stored = encode_giant_list(&list).unwrap();
    assert_eq!(decode_giant_list(&stored).unwrap(), list);
}

#[test]
fn test_wcc_tiny_graph() {
    let lists = tiny_lists();
    let labels = wcc(&lists);
    assert_eq!(labels.len(), 13);
    // The tiny graph is weakly connected.
    assert!(labels.iter().all(|l| *l == labels[0]));
}

#[test]
fn test_wcc_components() {
    // 0 -> 1, 2 -> 1, 3 alone, 4 <-> 5, 6 -> 9 (outside the graph, ignored)
    let lists: Vec<Vec<VId>> = vec![vec![1], vec![], vec![1], vec![], vec![5], vec![4], vec![9]];
    let labels = wcc(&lists);
    assert_eq!(labels, vec![0, 0, 0, 3, 4, 4, 6]);
}

#[test]
fn test_symmetrize() {
    let lists: Vec<Vec<VId>> = vec![vec![1, 7], vec![], vec![0]];
    let sym = symmetrize(&lists);
    assert_eq!(sym, vec![vec![1, 2], vec![0], vec![0]]);
}

#[test]
fn test_global_neighbor_iterator() {
    let block = Arc::new(Block::new(vec![(0, 0), (1, 2)], vec![5, 6, 7], 4096));
    let mut it = GlobalNeighborIterator::new(vec![9], Some(block.clone()), Some(0));
    assert_eq!(it.len(), 3);
    assert_eq!(it.next(), Some(9));
    assert_eq!(it.next(), Some(5));
    assert_eq!(it.next(), Some(6));
    assert_eq!(it.next(), None);
    let it = GlobalNeighborIterator::new(vec![], Some(block.clone()), Some(1));
    assert_eq!(UnifiedNeighborIterator::from_internal(it).to_vec(), vec![7]);
    let it = GlobalNeighborIterator::new(vec![], Some(block), Some(2));
    assert_eq!(it.len(), 0);
}

#[test]
fn test_unified_external_iterator() {
    let mut it = UnifiedNeighborIterator::from_external(Arc::new(vec![3, 1, 2]));
    assert_eq!(it.len(), 3);
    assert_eq!(it.next(), Some(3));
    assert_eq!(it.len(), 2);
    assert_eq!(it.to_vec(), vec![1, 2]);
}

#[test]
fn test_build_buckets_points_index_at_vertices() {
    for (gvb, boundary) in [(128usize, 1024usize), (128, 20), (3, 64)] {
        let mut graph = CsrGraph::from_text(TINY_TEXT.as_bytes()).unwrap();
        let (mut index, _) = VertexIndex::build_from_graph(&mut graph, gvb, boundary).unwrap();
        let before = index.vertex_array.clone();
        let buckets = build_buckets(&graph, &mut index, 64).unwrap();
        let lists = tiny_lists();
        for v in 0..13usize {
            let item = index.vertex_array[v];
            assert_eq!(item.is_giant(), before[v].is_giant());
            if item.is_giant() {
                assert_eq!(item, before[v]);
                continue;
            }
            assert_eq!(item.virtual_comm_id(), before[v].virtual_comm_id());
            let (id, bytes) = buckets.iter().find(|(id, _)| *id == item.virtual_comm_id()).unwrap();
            let bucket = Bucket::open(*id, bytes.clone()).unwrap();
            let block = bucket.read_block(item.page_id()).unwrap();
            assert_eq!(block.get_neighbor_clone(item.offset() as usize).unwrap(), lists[v]);
        }
    }
}

#[test]
fn test_bucket_builder_succeeds_on_small_inputs() {
    let mut builder = BucketBuilder::new(16);
    // 12 + 4 * 1 fits a 16-byte page: one vertex per page.
    for v in 0..5u32 {
        assert!(builder.add(v, &[v]).is_ok());
    }
    assert!(builder.finish_block().is_ok());
    let bytes = builder.build(1).unwrap();
    let bucket = Bucket::open(1, bytes).unwrap();
    assert_eq!(bucket.vertex_metas.len(), 5);
    for v in 0..5u32 {
        assert_eq!(bucket.get_neighbors_for_test(v).unwrap(), vec![v]);
    }
}
