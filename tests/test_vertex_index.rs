use lsm_storage::cache::CacheKey;
use lsm_storage::graph::CsrGraph;
use lsm_storage::vertex_index::{IndexError, VertexIndex, VertexIndexItem};

#[test]
fn test_set_normal_components() {
    let mut item = VertexIndexItem::normal(100, 50000, 2048);

    item.set_normal(200, 60000, 3096);
    assert_eq!(item.virtual_comm_id(), 200);
    assert_eq!(item.page_id(), 60000);
    assert_eq!(item.offset(), 3096);
}

#[test]
fn test_set_individual_fields() {
    let mut item = VertexIndexItem::normal(100, 50000, 2048);

    item.set_virtual_comm_id(999);
    assert_eq!(item.virtual_comm_id(), 999);
    assert_eq!(item.page_id(), 50000);
    assert_eq!(item.offset(), 2048);

    item.set_page_id(123456);
    assert_eq!(item.virtual_comm_id(), 999);
    assert_eq!(item.page_id(), 123456);
    assert_eq!(item.offset(), 2048);

    item.set_offset(4095);
    assert_eq!(item.virtual_comm_id(), 999);
    assert_eq!(item.page_id(), 123456);
    assert_eq!(item.offset(), 4095);
}

#[test]
fn test_item_packing_layout() {
    let item = VertexIndexItem::normal(0x7fff, 0xdead_beef, 0x1234);
    assert_eq!(item.0, (0x7fffu64 << 48) | (0xdead_beefu64 << 16) | 0x1234);
    assert!(item.is_normal());
    assert!(!item.is_giant());
    assert_eq!(item.as_normal(), Some((0x7fff, 0xdead_beef, 0x1234)));
    assert_eq!(item.to_cache_key(), Some(CacheKey::new(0x7fff, 0xdead_beef)));
}

#[test]
fn test_giant_item() {
    let item = VertexIndexItem::giant();
    assert!(item.is_giant());
    assert!(!item.is_normal());
    assert_eq!(item.0, 1u64 << 63);
    assert_eq!(item.to_cache_key(), None);
    assert_eq!(item.as_normal(), None);
}

const TINY_GRAPH: &str = "t 13 20
v 0 0 0
v 1 0 0
v 2 0 0
v 3 0 0
v 4 0 1
v 5 0 1
v 6 0 1
v 7 0 2
v 8 0 2
v 9 0 2
v 10 0 2
v 11 0 3
v 12 0 3
e 0 2
e 1 0
e 1 2
e 1 3
e 2 3
e 3 0
e 3 4
e 3 11
e 4 6
e 4 7
e 5 4
e 6 5
e 7 3
e 7 8
e 7 9
e 8 9
e 8 10
e 10 7
e 10 9
e 11 12
";

#[test]
fn test_build_vertex_index_tiny() {
    let mut graph = CsrGraph::from_text(TINY_GRAPH.as_bytes()).unwrap();
    let (index, giants) = VertexIndex::build_from_graph(&mut graph, 3, 64).unwrap();
    // Vertices 1, 3 and 7 have three neighbors.
    assert_eq!(giants, vec![1, 3, 7]);
    assert_eq!(index.vertex_array.len(), 13);
    assert_eq!(index.vertex_degree, vec![1, 3, 1, 3, 2, 1, 1, 3, 2, 0, 2, 1, 0]);
    assert_eq!(index.is_giant(1), Some(true));
    assert_eq!(index.is_giant(0), Some(false));
    assert_eq!(index.is_giant(13), None);
    // Sizes: community 0 holds 0 and 2 (16 bytes), 1 holds 4, 5, 6 (28), 2 holds 8, 9, 10
    // (28), 3 holds 11, 12 (12). Packed first-fit into 64 bytes: {0, 1}, {2, 3}.
    let groups = index.get_virtual_community_list_for_test();
    assert_eq!(groups, vec![vec![0, 2, 4, 5, 6], vec![8, 9, 10, 11, 12]]);
    assert_eq!(index.community_list[1], vec![4, 5, 6]);
}

#[test]
fn test_build_vertex_index_giant_community() {
    let mut graph = CsrGraph::from_text(TINY_GRAPH.as_bytes()).unwrap();
    let (index, giants) = VertexIndex::build_from_graph(&mut graph, 128, 20).unwrap();
    assert!(giants.is_empty());
    // Sizes 48, 28, 44, 12 against 20: three giant communities, then community 3 alone.
    let groups = index.get_virtual_community_list_for_test();
    assert_eq!(groups.len(), 4);
    assert_eq!(groups[0], vec![0, 1, 2, 3]);
    assert_eq!(groups[3], vec![11, 12]);
}

#[test]
fn test_add_giant_vertex() {
    let mut graph = CsrGraph::from_text(TINY_GRAPH.as_bytes()).unwrap();
    let (mut index, _) = VertexIndex::build_from_graph(&mut graph, 128, 1024).unwrap();
    let vid = index.add_giant_vertex().unwrap();
    assert_eq!(vid, 13);
    assert_eq!(index.is_giant(13), Some(true));
    let comm = index.community_map[13] as usize;
    assert_eq!(index.community_list[comm], vec![13]);
}

#[test]
fn test_default_vertex_index() {
    let index = VertexIndex::default();
    assert!(index.vertex_array.is_empty());
    assert_eq!(index.giant_vertex_boundary, 0);
    let _ = IndexError::TooManyVirtualCommunities;
}

#[test]
fn test_warm_up_plan() {
    let mut index = VertexIndex::default();
    index.vertex_array = vec![
        VertexIndexItem::normal(0, 3, 1),
        VertexIndexItem::giant(),
        VertexIndexItem::normal(2, 1, 0),
        VertexIndexItem::normal(0, 5, 0),
        VertexIndexItem::giant(),
    ];
    let (bounds, giants) = index.warm_up_plan();
    assert_eq!(bounds.len(), 0x8000);
    assert_eq!(bounds[0], Some(5));
    assert_eq!(bounds[1], None);
    assert_eq!(bounds[2], Some(1));
    assert_eq!(giants, vec![1, 4]);
}
