pub mod types;
pub mod codec;
pub mod block;
pub mod cache;
pub mod vertex_index;
pub mod delta;
pub mod property;
pub mod text;
pub mod graph;
pub mod partition;
pub mod config;
pub mod utils;
pub mod bucket;
pub mod overlay;
pub mod algorithms;
pub mod giant;
pub mod iterator;
pub mod placement;
pub mod bloom;
