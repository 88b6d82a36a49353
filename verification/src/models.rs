//! Data model: the configuration bundle, the snapshot of a scanned
//! directory tree, and the entry records of a listing.

use vstd::prelude::*;

verus! {

/// Configuration recognized by the listing operations, as the command-line
/// layer hands it over.
pub struct Cli {
    /// The file or directory to list.
    pub file: String,
    /// Long listing format: one fully populated record per child.
    pub long_format: bool,
    /// Render sizes in binary units (B, KB, MB, GB, TB) instead of a plain
    /// decimal byte count.
    pub human_readable: bool,
    /// Include hidden entries (recognized but not acted on by the core).
    pub all: bool,
    /// Report the running time (handled entirely by the caller).
    pub show_time: bool,
    /// Process the children of every directory with a parallel fan-out.
    pub parallel: bool,
    /// Reorder the final records ascending by size.
    pub sort: bool,
    /// Substring pattern: only directory subtrees whose name contains it
    /// are aggregated and emitted.
    pub name: Option<String>,
    /// Show the full path of each record instead of its last component
    /// (display-only; recognized but not acted on by the core).
    pub full_path: bool,
}

/// How the absolute path of an entry was obtained: either canonicalization
/// succeeded, or the original (non-canonical) path is kept as a fallback.
pub enum PathText {
    /// The canonicalized path string.
    Canonical(String),
    /// The original path string, kept because canonicalization failed.
    Fallback(String),
}

/// A snapshot of one filesystem object, taken at scan time.
pub enum FsNode {
    /// A regular file (or any non-directory object) with its length in bytes.
    File { len: u64 },
    /// A directory whose children could be listed.
    Dir { entries: Vec<TreeEntry> },
    /// A directory whose children could not be listed (permission denied,
    /// vanished mid-scan); it contributes nothing to any total.
    UnlistableDir,
    /// An object whose metadata could not be read; its kind is unknown and
    /// it contributes nothing to any total.
    NoMetadata,
}

/// One scanned child of a directory: its name, its display path, the
/// read-only bit of its permissions, and the snapshot of the object itself.
pub struct TreeEntry {
    /// The entry's own name (the last path component).
    pub name: String,
    /// The path shown for the entry.
    pub path: PathText,
    /// Whether the permissions report the object as read-only.
    pub readonly: bool,
    /// The snapshot of the object.
    pub node: FsNode,
}

/// One row of a long-format listing.
pub struct FileEntry {
    /// `'d'` for a directory, `'-'` for anything else.
    pub file_type: char,
    /// Permission summary: the real read-only flag followed by fixed
    /// placeholders for write and execute.
    pub permissions: String,
    /// The size rendered for display.
    pub size_display: String,
    /// The size in bytes; for a directory, the recursive sum of the lengths
    /// of all files under it.
    pub size_raw: u64,
    /// The canonical path when resolvable, the original path otherwise.
    pub path: String,
}

/// The path string an entry displays, whichever way it was obtained.
pub open spec fn path_chars(p: PathText) -> Seq<char> {
    match p {
        PathText::Canonical(s) => s@,
        PathText::Fallback(s) => s@,
    }
}

/// Total size in bytes of a subtree: the sum of the lengths of all regular
/// files transitively contained in it. Unreadable branches contribute zero.
pub open spec fn node_size(n: FsNode) -> nat
    decreases n,
{
    match n {
        FsNode::File { len } => len as nat,
        FsNode::Dir { entries } => entries_size(entries@),
        FsNode::UnlistableDir => 0,
        FsNode::NoMetadata => 0,
    }
}

/// Sum of the subtree sizes of a sequence of scanned entries.
pub open spec fn entries_size(s: Seq<TreeEntry>) -> nat
    decreases s,
{
    if s.len() == 0 {
        0
    } else {
        entries_size(s.drop_last()) + node_size(s.last().node)
    }
}

/// Extending a prefix of `s` by one entry adds that entry's subtree size.
pub proof fn lemma_entries_size_take_step(s: Seq<TreeEntry>, i: int)
    requires
        0 <= i < s.len(),
    ensures
        entries_size(s.take(i + 1)) == entries_size(s.take(i)) + node_size(s[i].node),
{
    let t = s.take(i + 1);
    assert(t.drop_last() =~= s.take(i));
    assert(t.last() == s[i]);
}

/// The sum over a prefix never exceeds the sum over the whole sequence.
pub proof fn lemma_entries_size_take_le(s: Seq<TreeEntry>, i: int)
    requires
        0 <= i <= s.len(),
    ensures
        entries_size(s.take(i)) <= entries_size(s),
    decreases s.len() - i,
{
    if i == s.len() {
        assert(s.take(i) =~= s);
    } else {
        lemma_entries_size_take_step(s, i);
        lemma_entries_size_take_le(s, i + 1);
    }
}

/// One entry's subtree size never exceeds the sum over the whole sequence.
pub proof fn lemma_entry_size_le(s: Seq<TreeEntry>, i: int)
    requires
        0 <= i < s.len(),
    ensures
        node_size(s[i].node) <= entries_size(s),
{
    lemma_entries_size_take_step(s, i);
    lemma_entries_size_take_le(s, i + 1);
}

/// Sequential size aggregation over a subtree snapshot: returns the sum of
/// the lengths of all files transitively contained in it.
#[verifier::loop_isolation(false)]
pub fn node_total(n: &FsNode) -> (r: u64)
    requires
        node_size(*n) <= u64::MAX,
    ensures
        r == node_size(*n),
    decreases *n,
{
    match n {
        FsNode::File { len } => *len,
        FsNode::UnlistableDir => 0,
        FsNode::NoMetadata => 0,
        FsNode::Dir { entries } => {
            let ghost s = entries@;
            let mut total: u64 = 0;
            let mut i: usize = 0;
            while i < entries.len()
                invariant
                    i <= s.len(),
                    entries@ == s,
                    node_size(*n) == entries_size(s),
                    entries_size(s) <= u64::MAX,
                    total == entries_size(s.take(i as int)),
                decreases s.len() - i,
            {
                proof {
                    lemma_entries_size_take_step(s, i as int);
                    lemma_entries_size_take_le(s, i + 1);
                }
                let child = node_total(&entries[i].node);
                total = total + child;
                i = i + 1;
            }
            proof {
                assert(s.take(s.len() as int) =~= s);
            }
            total
        },
    }
}

} // verus!
