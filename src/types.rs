//! The values a scan produces.

use vstd::prelude::*;

verus! {

/// One surviving regular file, with its captured content.
#[derive(Debug, Clone)]
pub struct FileEntry {
    /// The path of the file, as the walker presented it.
    pub path: String,
    /// The file's text, or a fixed placeholder when it is binary or too large.
    pub content: String,
    /// Whether the file was classified binary.
    pub is_binary: bool,
    /// The size of the file in bytes, present only when sizes were requested.
    pub size: Option<u64>,
}

/// The complete result of an eager scan.
#[derive(Debug, Clone)]
pub struct SnapcatResult {
    /// The rendered directory tree.
    pub tree: String,
    /// Every surviving file, in discovery order.
    pub files: Vec<FileEntry>,
}

} // verus!
