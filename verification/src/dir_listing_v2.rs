//! Alternative whole-tree sizing: the subtree's total computed with the
//! parallel fan-out aggregator and rendered in human-readable units.

use crate::dir_listing::node_total_par;
use crate::models::{node_size, FsNode};
use crate::utils::{human_chars, human_readable_size};
use vstd::prelude::*;

verus! {

/// Totals the whole subtree in one parallel walk and renders the result in
/// human-readable units.
pub fn list_directory_v2(root: &FsNode) -> (r: (u64, String))
    requires
        node_size(*root) <= u64::MAX,
    ensures
        r.0 == node_size(*root),
        r.1@ == human_chars(node_size(*root) as nat),
{
    let total = node_total_par(root);
    let rendered = human_readable_size(total);
    (total, rendered)
}

} // verus!
