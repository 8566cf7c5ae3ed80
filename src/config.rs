use vstd::prelude::*;

verus! {

/// Default block size in bytes.
pub const DEFAULT_BLOCK_SIZE: usize = 4096;

/// Default minimum bucket size in bytes.
pub const DEFAULT_MIN_BUCKET_SIZE: usize = 8388608;

/// Default number of in-memory graph buffers.
pub const DEFAULT_NUM_MEM_GRAPH_LIMIT: usize = 3;

/// Default degree from which a vertex is giant.
pub const DEFAULT_GIANT_VERTEX_BOUNDARY: usize = 128;

/// Default number of cached blocks.
pub const DEFAULT_BLOCK_CACHE_CAPACITY: u64 = 1048576;

/// Default number of cached giant-vertex lists.
pub const DEFAULT_GIANT_CACHE_CAPACITY: u64 = 10000;

/// Settings of a storage instance.
#[derive(Clone, Debug)]
pub struct LsmCommunityStorageOptions {
    pub block_size: usize,
    pub min_bucket_size: usize,
    pub num_mem_graph_limit: usize,
    pub giant_vertex_boundary: usize,
    pub graph_name: String,
    pub work_space_dir: String,
    pub block_cache_capacity: u64,
    pub giant_cache_capacity: u64,
}

impl Default for LsmCommunityStorageOptions {
    fn default() -> (r: Self)
        ensures
            r.block_size == DEFAULT_BLOCK_SIZE,
            r.min_bucket_size == DEFAULT_MIN_BUCKET_SIZE,
            r.num_mem_graph_limit == DEFAULT_NUM_MEM_GRAPH_LIMIT,
            r.giant_vertex_boundary == DEFAULT_GIANT_VERTEX_BOUNDARY,
            r.graph_name@ == Seq::<char>::empty(),
            r.work_space_dir@ == "workspace"@,
            r.block_cache_capacity == DEFAULT_BLOCK_CACHE_CAPACITY,
            r.giant_cache_capacity == DEFAULT_GIANT_CACHE_CAPACITY,
    {
        LsmCommunityStorageOptions {
            block_size: DEFAULT_BLOCK_SIZE,
            min_bucket_size: DEFAULT_MIN_BUCKET_SIZE,
            num_mem_graph_limit: DEFAULT_NUM_MEM_GRAPH_LIMIT,
            giant_vertex_boundary: DEFAULT_GIANT_VERTEX_BOUNDARY,
            graph_name: String::new(),
            work_space_dir: "workspace".to_owned(),
            block_cache_capacity: DEFAULT_BLOCK_CACHE_CAPACITY,
            giant_cache_capacity: DEFAULT_GIANT_CACHE_CAPACITY,
        }
    }
}

/// Reads and writes settings files; the file work itself is done by the caller.
pub struct ConfigManager;

/// Why settings cannot be loaded or saved.
#[derive(Debug, Clone, PartialEq, Eq)]
pub enum ConfigError {
    /// No file at the given path.
    FileNotFound(String),
    /// The file could not be read or written.
    IoError(String),
    /// The file is not valid settings.
    ParseError(String),
    /// The settings could not be written out.
    SerializeError(String),
    /// A file is already at the given path.
    FileAlreadyExists(String),
}

} // verus!
