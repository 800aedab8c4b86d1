//! Directory snapshots: walk a tree under exclusion rules, render it as text,
//! and capture the content of every surviving file under a binary-detection
//! and size policy.
//!
//! The filesystem itself is reached by the caller; this library holds the
//! decisions: which paths survive, how the tree is drawn, what content a file
//! gets, and how per-file outcomes are assembled into a result.

pub mod content;
pub mod engine;
pub mod error;
pub mod options;
pub mod output;
pub mod tree;
pub mod tree_order;
pub mod types;

pub use content::{FileRead, ReadAction, ReadEvent};
pub use engine::{
    finish_scan, plan_scan, ScanPlan, SnapcatStream, StreamStep, WalkedPath, Walker,
};
pub use error::SnapcatError;
pub use options::{parse_binary_detection, BinaryDetection, SnapcatBuilder, SnapcatOptions};
pub use tree::build_tree_from_entries;
pub use types::{FileEntry, SnapcatResult};
