//! Verified core of an `ls`-like directory listing tool.
//!
//! The library works on a snapshot of a directory tree — a value of
//! [`models::FsNode`] that the surrounding program fills from the real
//! filesystem — and computes everything with algorithmic content: total
//! subtree sizes (sequentially or with a parallel fan-out over children),
//! name-filtered aggregation that emits one record per matched subtree,
//! and the assembly of a sorted listing of entry records.

pub mod dir_listing;
pub mod dir_listing_v2;
pub mod models;
pub mod sorting;
pub mod text;
pub mod utils;
