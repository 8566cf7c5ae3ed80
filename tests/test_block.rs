use lsm_storage::block::builder::BlockBuilder;
use lsm_storage::block::{Block, BlockError};
use lsm_storage::types::{VId, VIdList, VertexList};

#[test]
fn test_block_builder_basic() {
    let mut builder = BlockBuilder::new(1024);

    assert!(builder.is_empty());
    assert_eq!(builder.vertex_count(), 0);
    assert_eq!(builder.edge_count(), 0);

    assert!(builder.add_vertex(1, &[2, 3, 4]));
    assert_eq!(builder.vertex_count(), 1);
    assert_eq!(builder.edge_count(), 3);

    assert!(builder.add_vertex(2, &[5, 6]));
    assert_eq!(builder.vertex_count(), 2);
    assert_eq!(builder.edge_count(), 5);

    let (block, _) = builder.build();
    assert_eq!(block.vertex_count, 2);
    assert_eq!(block.edge_count, 5);
}

#[test]
fn test_block_builder_size_limit() {
    let mut builder = BlockBuilder::new(50);

    // The first vertex is always admitted.
    assert!(builder.add_vertex(1, &[2, 3, 4, 5, 6]));

    // 4 + 2 * 8 + 9 * 4 = 56 bytes would exceed 50.
    let res = builder.add_vertex(2, &[7, 8, 9, 10]);
    assert!(!res);
    assert_eq!(builder.vertex_count(), 1);
}

#[test]
fn test_block_builder_isolated_vertex() {
    let mut builder = BlockBuilder::new(1024);

    assert!(builder.add_isolated_vertex(1));
    assert!(builder.add_vertex(2, &[3, 4]));
    assert!(builder.add_isolated_vertex(5));

    let (block, _) = builder.build();
    assert_eq!(block.vertex_count, 3);
    assert_eq!(block.edge_count, 2);
}

#[test]
fn test_block_builder_clear() {
    let mut builder = BlockBuilder::new(1024);

    let res = builder.add_vertex(1, &[2, 3]);
    assert!(res);
    assert!(!builder.is_empty());

    builder.clear();
    assert!(builder.is_empty());
    assert_eq!(builder.vertex_count(), 0);
    assert_eq!(builder.edge_count(), 0);
}

#[test]
fn test_add_vertex_or_build() {
    let mut builder = BlockBuilder::new(100);

    let result = builder.add_vertex_or_build(1, &[2, 3, 4]);
    assert!(result.is_none());

    let mut blocks = Vec::new();
    for i in 2..10 {
        if let Some(block) = builder.add_vertex_or_build(i, &[i + 1, i + 2, i + 3]) {
            blocks.push(block);
        }
    }

    assert!(!blocks.is_empty());
}

#[test]
fn test_block_builder_map_positions() {
    let mut builder = BlockBuilder::new(4096);
    assert!(builder.add_vertex(7, &[1]));
    assert!(builder.add_vertex(3, &[]));
    assert!(builder.add_vertex(9, &[2, 4]));
    let (block, map) = builder.build();
    assert_eq!(map.get(&7), Some(&0));
    assert_eq!(map.get(&3), Some(&1));
    assert_eq!(map.get(&9), Some(&2));
    assert_eq!(map.len(), 3);
    assert_eq!(block.get_neighbor_clone(2).unwrap(), vec![2, 4]);
}

#[test]
fn test_block_builder_oversized_first_vertex() {
    let mut builder = BlockBuilder::new(16);
    let neighbors: Vec<VId> = (0..10).collect();
    assert!(builder.add_vertex(1, &neighbors));
    let (block, _) = builder.build();
    assert_eq!(block.data.len(), 4 + 8 + 40);
    assert_eq!(block.get_neighbor_clone(0).unwrap(), neighbors);
}

#[test]
fn test_vertex_iterator() {
    let vertex_list = vec![(10, 0), (20, 3), (30, 5)];
    let edge_list = vec![20, 30, 40, 10, 30, 10, 20];

    let block = Block::new(vertex_list.clone(), edge_list, 4096);

    let vertices: Vec<_> = block.get_vertex_iter().to_vec();
    assert_eq!(vertices, vertex_list);
    assert_eq!(block.get_vertex_iter().len(), 3);
}

#[test]
fn test_neighbor_iterator() {
    let vertex_list = vec![(0, 0), (1, 2), (2, 5)];
    let edge_list = vec![1, 2, 0, 2, 3, 0, 1];

    let block = Block::new(vertex_list, edge_list, 4096);

    let neighbors: Vec<_> = block.get_neighbor_iter(0).unwrap().to_vec();
    assert_eq!(neighbors, vec![1, 2]);
    assert_eq!(block.get_neighbor_iter(0).unwrap().len(), 2);

    let neighbors: Vec<_> = block.get_neighbor_iter(1).unwrap().to_vec();
    assert_eq!(neighbors, vec![0, 2, 3]);
    assert_eq!(block.get_neighbor_iter(1).unwrap().len(), 3);

    let neighbors: Vec<_> = block.get_neighbor_iter(2).unwrap().to_vec();
    assert_eq!(neighbors, vec![0, 1]);
    assert_eq!(block.get_neighbor_iter(2).unwrap().len(), 2);
}

#[test]
fn test_iterator_exhaustion() {
    let vertex_list = vec![(1, 0)];
    let edge_list = vec![2];

    let block = Block::new(vertex_list, edge_list, 4096);

    let mut iter = block.get_vertex_iter();
    assert_eq!(iter.next(), Some((1, 0)));
    assert_eq!(iter.next(), None);
    assert_eq!(iter.next(), None);
}

#[test]
fn test_empty_neighbors() {
    let vertex_list = vec![(0, 0), (1, 0), (2, 0)];
    let edge_list = vec![];

    let block = Block::new(vertex_list, edge_list, 4096);

    for i in 0..3 {
        let neighbors: Vec<_> = block.get_neighbor_iter(i).unwrap().to_vec();
        assert_eq!(neighbors, Vec::<VId>::new());
    }
}

/// The block of a graph of 13 vertices and 20 edges.
fn create_test_graph_block() -> Block {
    let vertex_list: VertexList = vec![
        (0, 0),
        (1, 1),
        (2, 4),
        (3, 5),
        (4, 8),
        (5, 10),
        (6, 11),
        (7, 12),
        (8, 15),
        (9, 17),
        (10, 17),
        (11, 19),
        (12, 20),
    ];

    let edge_list: VIdList = vec![
        2, // vertex 0
        0, 2, 3, // vertex 1
        3, // vertex 2
        0, 4, 11, // vertex 3
        6, 7, // vertex 4
        4, // vertex 5
        5, // vertex 6
        3, 8, 9, // vertex 7
        9, 10, // vertex 8
        7, 9, // vertex 10
        12, // vertex 11
    ];

    Block::new(vertex_list, edge_list, 4096)
}

#[test]
fn test_block_basic() {
    let block = create_test_graph_block();

    assert_eq!(block.vertex_count, 13);
    assert_eq!(block.edge_count, 20);

    let expected_size = 4096;
    assert_eq!(block.data.len(), expected_size);
}

#[test]
fn test_encode_decode() {
    let block = create_test_graph_block();

    let encoded = block.encode();
    assert_eq!(encoded.len(), 4096);

    let decoded = Block::decode(encoded.to_vec()).unwrap();

    assert_eq!(decoded.vertex_count, 13);
    assert_eq!(decoded.edge_count, 20);
    assert_eq!(decoded.data.len(), block.data.len());
}

#[test]
fn test_block_test_vertex_iterator() {
    let block = create_test_graph_block();

    let vertices: Vec<_> = block.get_vertex_iter().to_vec();

    assert_eq!(vertices.len(), 13);
    assert_eq!(block.get_vertex_iter().len(), 13);

    assert_eq!(vertices[0], (0, 0));
    assert_eq!(vertices[1], (1, 1));
    assert_eq!(vertices[2], (2, 4));
    assert_eq!(vertices[3], (3, 5));

    assert_eq!(vertices[12], (12, 20));
}

#[test]
fn test_neighbor_iterator_vertex_0() {
    let block = create_test_graph_block();

    let neighbors: Vec<_> = block.get_neighbor_iter(0).unwrap().to_vec();
    assert_eq!(neighbors, vec![2]);
    assert_eq!(block.get_neighbor_iter(0).unwrap().len(), 1);
}

#[test]
fn test_neighbor_iterator_vertex_1() {
    let block = create_test_graph_block();

    let neighbors: Vec<_> = block.get_neighbor_iter(1).unwrap().to_vec();
    assert_eq!(neighbors, vec![0, 2, 3]);
    assert_eq!(block.get_neighbor_iter(1).unwrap().len(), 3);
}

#[test]
fn test_neighbor_iterator_vertex_3() {
    let block = create_test_graph_block();

    let neighbors: Vec<_> = block.get_neighbor_iter(3).unwrap().to_vec();
    assert_eq!(neighbors, vec![0, 4, 11]);
    assert_eq!(block.get_neighbor_iter(3).unwrap().len(), 3);
}

#[test]
fn test_neighbor_iterator_vertex_7() {
    let block = create_test_graph_block();

    let neighbors: Vec<_> = block.get_neighbor_iter(7).unwrap().to_vec();
    assert_eq!(neighbors, vec![3, 8, 9]);
    assert_eq!(block.get_neighbor_iter(7).unwrap().len(), 3);
}

#[test]
fn test_neighbor_iterator_empty_neighbors() {
    let block = create_test_graph_block();

    let neighbors: Vec<_> = block.get_neighbor_iter(9).unwrap().to_vec();
    assert_eq!(neighbors, Vec::<u32>::new());
    assert_eq!(block.get_neighbor_iter(9).unwrap().len(), 0);

    let neighbors: Vec<_> = block.get_neighbor_iter(12).unwrap().to_vec();
    assert_eq!(neighbors, Vec::<u32>::new());
    assert_eq!(block.get_neighbor_iter(12).unwrap().len(), 0);
}

#[test]
fn test_neighbor_iterator_all_vertices() {
    let block = create_test_graph_block();

    let expected_neighbors: Vec<Vec<VId>> = vec![
        vec![2],
        vec![0, 2, 3],
        vec![3],
        vec![0, 4, 11],
        vec![6, 7],
        vec![4],
        vec![5],
        vec![3, 8, 9],
        vec![9, 10],
        vec![],
        vec![7, 9],
        vec![12],
        vec![],
    ];

    for (vid, expected) in expected_neighbors.iter().enumerate() {
        let neighbors: Vec<_> = block.get_neighbor_iter(vid).unwrap().to_vec();
        assert_eq!(neighbors, *expected, "Vertex {} neighbors mismatch", vid);
    }
}

#[test]
fn test_neighbor_iterator_out_of_bounds() {
    let block = create_test_graph_block();

    assert!(block.get_neighbor_iter(13).is_none());
    assert!(block.get_neighbor_iter(100).is_none());
}

#[test]
fn test_empty_block() {
    let vertex_list: VertexList = vec![];
    let edge_list: VIdList = vec![];

    let block = Block::new(vertex_list, edge_list, 4096);

    assert_eq!(block.vertex_count, 0);
    assert_eq!(block.edge_count, 0);
    assert_eq!(block.get_vertex_iter().len(), 0);
    assert_eq!(block.get_edge_iter().len(), 0);
}

#[test]
fn test_vertices_no_edges() {
    let vertex_list: VertexList = vec![(0, 0), (1, 0), (2, 0)];
    let edge_list: VIdList = vec![];

    let block = Block::new(vertex_list, edge_list, 4096);

    assert_eq!(block.vertex_count, 3);
    assert_eq!(block.edge_count, 0);

    for i in 0..3 {
        let neighbors: Vec<_> = block.get_neighbor_iter(i).unwrap().to_vec();
        assert_eq!(neighbors, Vec::<u32>::new());
    }
}

#[test]
fn test_roundtrip_with_test_graph() {
    let block1 = create_test_graph_block();

    let encoded = block1.encode();

    let block2 = Block::decode(encoded.to_vec()).unwrap();

    assert_eq!(block2.vertex_count, block1.vertex_count);
    assert_eq!(block2.edge_count, block1.edge_count);

    let vertices1: Vec<_> = block1.get_vertex_iter().to_vec();
    let vertices2: Vec<_> = block2.get_vertex_iter().to_vec();
    assert_eq!(vertices1, vertices2);

    let edges1: Vec<_> = block1.get_edge_iter().to_vec();
    let edges2: Vec<_> = block2.get_edge_iter().to_vec();
    assert_eq!(edges1, edges2);

    for vid in 0..13 {
        let neighbors1: Vec<_> = block1.get_neighbor_iter(vid).unwrap().to_vec();
        let neighbors2: Vec<_> = block2.get_neighbor_iter(vid).unwrap().to_vec();
        assert_eq!(neighbors1, neighbors2, "Vertex {} neighbors mismatch", vid);
    }
}

#[test]
fn test_block_test_iterator_exhaustion() {
    let block = create_test_graph_block();

    let mut vertex_iter = block.get_vertex_iter();

    for _ in 0..13 {
        assert!(vertex_iter.next().is_some());
    }

    assert!(vertex_iter.next().is_none());
    assert!(vertex_iter.next().is_none());
}

#[test]
fn test_get_neighbor_clone() {
    let block = create_test_graph_block();

    let neighbors = block.get_neighbor_clone(1).unwrap();
    assert_eq!(neighbors, vec![0, 2, 3]);

    let neighbors = block.get_neighbor_clone(7).unwrap();
    assert_eq!(neighbors, vec![3, 8, 9]);

    let neighbors = block.get_neighbor_clone(9).unwrap();
    assert_eq!(neighbors, Vec::<u32>::new());

    assert!(block.get_neighbor_clone(13).is_none());
}

#[test]
fn test_neighbor_clone_vs_iterator() {
    let block = create_test_graph_block();

    for vid in 0..13 {
        let from_clone = block.get_neighbor_clone(vid).unwrap();
        let from_iter: Vec<_> = block.get_neighbor_iter(vid).unwrap().to_vec();
        assert_eq!(from_clone, from_iter, "Vertex {} mismatch", vid);
    }
}

#[test]
fn test_block_edge_iterator() {
    let vertex_list = vec![(10, 0), (20, 3), (30, 5)];
    let edge_list = vec![20, 30, 40, 10, 30, 10, 20];

    let block = Block::new(vertex_list, edge_list, 4096);

    let edges: Vec<_> = block.get_edge_iter().to_vec();
    assert_eq!(
        edges,
        vec![
            (10, 20),
            (10, 30),
            (10, 40),
            (20, 10),
            (20, 30),
            (30, 10),
            (30, 20),
        ]
    );
    assert_eq!(block.get_edge_iter().len(), 7);
}

#[test]
fn test_block_edge_iterator_with_empty_vertices() {
    let vertex_list = vec![(0, 0), (1, 0), (2, 0)];
    let edge_list = vec![3, 4];

    let block = Block::new(vertex_list, edge_list, 4096);

    let edges: Vec<_> = block.get_edge_iter().to_vec();
    assert_eq!(edges, vec![(2, 3), (2, 4)]);
    assert_eq!(block.get_edge_iter().len(), 2);
}

#[test]
fn test_block_edge_iterator_empty() {
    let vertex_list = vec![(0, 0), (1, 0)];
    let edge_list = vec![];

    let block = Block::new(vertex_list, edge_list, 4096);

    let edges: Vec<_> = block.get_edge_iter().to_vec();
    assert_eq!(edges, Vec::<(VId, VId)>::new());
    assert_eq!(block.get_edge_iter().len(), 0);
}

#[test]
fn test_block_edge_iterator_single_edge() {
    let vertex_list = vec![(5, 0), (10, 1)];
    let edge_list = vec![10];

    let block = Block::new(vertex_list, edge_list, 4096);

    let edges: Vec<_> = block.get_edge_iter().to_vec();
    assert_eq!(edges, vec![(5, 10)]);
    assert_eq!(block.get_edge_iter().len(), 1);
}

#[test]
fn test_block_layout_bytes() {
    let block = Block::new(vec![(1, 0), (2, 1)], vec![0x01020304], 32);
    assert_eq!(
        &block.data[..24],
        &[0, 2, 0, 1, 0, 0, 0, 1, 0, 0, 0, 0, 0, 0, 0, 2, 0, 0, 0, 1, 1, 2, 3, 4]
    );
    assert!(block.data[24..].iter().all(|b| *b == 0));
}

#[test]
fn test_decode_rejects_bad_bytes() {
    assert_eq!(Block::decode(vec![0, 1]).err(), Some(BlockError::MissingHeader));
    // Announces one vertex and one edge (12 + 4 bytes) but holds only the header.
    assert_eq!(Block::decode(vec![0, 1, 0, 1]).err(), Some(BlockError::Truncated));
    // One vertex whose offset 5 points past the single edge.
    let bytes = vec![0, 1, 0, 1, 0, 0, 0, 7, 0, 0, 0, 5, 0, 0, 0, 9];
    assert_eq!(Block::decode(bytes).err(), Some(BlockError::BadOffsets));
}

#[test]
fn test_neighbor_len_matches_offsets() {
    let block = create_test_graph_block();
    let vertices = block.get_vertex_iter().to_vec();
    for i in 0..vertices.len() {
        let end = if i + 1 < vertices.len() { vertices[i + 1].1 } else { block.edge_count as u32 };
        assert_eq!(block.get_neighbor_iter(i).unwrap().len() as u32, end - vertices[i].1);
    }
}
