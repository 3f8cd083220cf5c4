//! Confidential storage for sandboxed containers: what a pod declares, what the runtime makes of
//! it, and how the guest agent admits, mounts, owns and releases it.

pub mod block;
pub mod cleanup;
pub mod declaration;
pub mod device;
pub mod direct_volume;
pub mod initdata;
pub mod logger;
pub mod mode;
pub mod multi_layer;
pub mod names;
pub mod ownership;
pub mod path;
pub mod plan;
pub mod storage;
pub mod text;
pub mod text_map;
pub mod topology;
pub mod types;
pub mod walk;
