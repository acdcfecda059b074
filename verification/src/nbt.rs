//! The tagged-tree format and its two wire profiles.

pub mod tag;
pub mod tree;
pub mod encoding;
pub mod format;
pub mod laws;
pub mod binary;
