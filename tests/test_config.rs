use lsm_storage::config::LsmCommunityStorageOptions;

#[test]
fn test_load_default_config() {
    let config = LsmCommunityStorageOptions::default();
    assert_eq!(config.block_size, 1024 * 4);
    assert_eq!(config.num_mem_graph_limit, 3);
}

#[test]
fn test_default_config_values() {
    let config = LsmCommunityStorageOptions::default();
    assert_eq!(config.min_bucket_size, 8 * 1024 * 1024);
    assert_eq!(config.giant_vertex_boundary, 128);
    assert_eq!(config.graph_name, "");
    assert_eq!(config.work_space_dir, "workspace");
    assert_eq!(config.block_cache_capacity, 1 << 20);
    assert_eq!(config.giant_cache_capacity, 10_000);
}
