//! An in-memory mirror of on-disk directory trees.
//!
//! The library keeps all source text in memory so that analysis never blocks
//! on I/O. It reconciles three sources of truth: the on-disk state reported by
//! a file watcher, unsaved editor buffers ("overlays") that shadow disk
//! content, and an ordered log of changes drained by the host.
//!
//! The crate contains the reconciliation engine only: the root registry, the
//! line-ending normalizer, the event reclassification rules, and the
//! controller that applies I/O results and overlay commands under
//! overlay-wins precedence. Disk reads, directory walks and the platform
//! watcher live with the host, which feeds their results in as plain values.

mod strutil;
mod filter;
mod line_endings;
mod normalize;
mod paths;
mod roots;
mod tasks;
mod vfs;

pub use filter::{Filter, AcceptAll, RustFiles};
pub use line_endings::LineEndings;
pub use normalize::normalize_newlines;
pub use roots::{VfsRoot, FileType, RootEntry, RootData, Roots};
pub use tasks::{TaskResult, VfsTask, ChangeKind, RawEvent, classify_change, bulk_load_root};
pub use vfs::{Vfs, VfsFile, VfsChange, VfsFileData};
