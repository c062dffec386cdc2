//! A verified filesystem-tree scanner core.
//!
//! The library computes recursive directory sizes over a snapshot of a
//! directory graph, breaks symlink loops and hard-link duplicates, streams
//! completed nodes in bounded batches, limits the finished tree to a maximum
//! depth for display, and overlays volume capacity data when the scan root is
//! a storage-volume mount point.

pub mod emitter;
pub mod guard;
pub mod limiter;
pub mod model;
pub mod node;
pub mod session;
pub mod volume;
pub mod walker;
pub mod weights;

pub use emitter::{BatchEmitter, PartialScanResult, BATCH_SIZE};
pub use guard::{CycleGuard, EnterOutcome};
pub use limiter::build_limited_depth_node;
pub use model::{DirNode, EntryKind, EntryMeta, FsSnapshot};
pub use node::FileNode;
pub use session::{scan_directory_streaming, ScanError, MAX_DEPTH};
pub use volume::{get_disk_info, is_root_directory, DiskInfo, DiskRecord};
