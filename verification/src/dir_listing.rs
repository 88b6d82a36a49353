//! The listing engine: total-size aggregation over a scanned subtree
//! (sequential or with a parallel fan-out over the children of every
//! directory), name-filtered aggregation that emits one record per matched
//! subtree, and the assembly of the long- or short-format listing itself.

use crate::models::{entries_size, lemma_entry_size_le, node_size, node_total, Cli, FileEntry,
    FsNode, PathText, TreeEntry};
use crate::models::path_chars;
use crate::sorting::{insert_ordered, lemma_insert_ordered_split, lemma_sort_ordered_map_multiset,
    lemma_sort_ordered_permutes, lemma_sort_ordered_sorted, sort_ordered};
use crate::text::{contains_pattern, lemma_lex_le_total, lemma_lex_le_trans, lex_le, str_contains,
    str_le};
use crate::utils::{render_size, size_render};
use rayon::iter::{IntoParallelRefIterator, ParallelIterator};
use vstd::prelude::*;
use vstd::relations::{sorted_by, strongly_connected, transitive};

verus! {

// ------------------------------------------------------------------
// The mathematical model of one listing record.
// ------------------------------------------------------------------
/// What one listing record says, stripped of its rendering: the kind, the
/// read-only flag, the size in bytes and the displayed path.
#[verifier::ext_equal]
pub ghost struct EntrySpec {
    /// The record describes a directory.
    pub is_dir: bool,
    /// The permissions report the object as read-only.
    pub readonly: bool,
    /// The size in bytes.
    pub size: nat,
    /// The displayed path.
    pub path: Seq<char>,
}

/// The permission summary the listing shows: the read-only flag is real,
/// write and execute are fixed placeholders.
pub open spec fn perm_chars(readonly: bool) -> Seq<char> {
    if readonly {
        seq!['r', '-', 'w', '-', 'x']
    } else {
        seq![' ', '-', 'w', '-', 'x']
    }
}

/// The record a scanned child gives rise to.
pub open spec fn entry_spec_of(e: TreeEntry) -> EntrySpec {
    EntrySpec {
        is_dir: e.node is Dir || e.node is UnlistableDir,
        readonly: e.readonly,
        size: node_size(e.node),
        path: path_chars(e.path),
    }
}

/// The model a produced record denotes, read back off its fields.
pub open spec fn fe_model(fe: FileEntry) -> EntrySpec {
    EntrySpec {
        is_dir: fe.file_type == 'd',
        readonly: fe.permissions@ == perm_chars(true),
        size: fe.size_raw as nat,
        path: fe.path@,
    }
}

/// `fe_model` as a value, for mapping over sequences.
pub open spec fn fe_model_f() -> spec_fn(FileEntry) -> EntrySpec {
    |fe: FileEntry| fe_model(fe)
}

/// A produced record is well formed: its kind mark, permission summary and
/// size rendering are exactly the forms the listing displays.
pub open spec fn fe_wf(fe: FileEntry, human_readable: bool) -> bool {
    &&& fe.file_type == 'd' || fe.file_type == '-'
    &&& fe.permissions@ == perm_chars(true) || fe.permissions@ == perm_chars(false)
    &&& fe.size_display@ == size_render(fe.size_raw as nat, human_readable)
}

// ------------------------------------------------------------------
// Orderings used by the listing.
// ------------------------------------------------------------------
/// Scanned children are ordered by name.
pub open spec fn name_le(a: TreeEntry, b: TreeEntry) -> bool {
    lex_le(a.name@, b.name@)
}

/// The name ordering as a value.
pub open spec fn name_order() -> spec_fn(TreeEntry, TreeEntry) -> bool {
    |a: TreeEntry, b: TreeEntry| name_le(a, b)
}

/// Records are reordered ascending by size when a size sort is asked for.
pub open spec fn size_le(a: FileEntry, b: FileEntry) -> bool {
    a.size_raw <= b.size_raw
}

/// The size ordering as a value.
pub open spec fn size_order() -> spec_fn(FileEntry, FileEntry) -> bool {
    |a: FileEntry, b: FileEntry| size_le(a, b)
}

/// The name ordering is total and transitive.
pub proof fn lemma_name_order_props()
    ensures
        transitive(name_order()),
        strongly_connected(name_order()),
{
    assert forall|x: TreeEntry, y: TreeEntry, z: TreeEntry|
        #[trigger] (name_order())(x, y) && #[trigger] (name_order())(y, z) implies (name_order())(
        x,
        z,
    ) by {
        lemma_lex_le_trans(x.name@, y.name@, z.name@);
    }
    assert forall|x: TreeEntry, y: TreeEntry| #[trigger]
        (name_order())(x, y) || #[trigger] (name_order())(y, x) by {
        lemma_lex_le_total(x.name@, y.name@);
    }
}

/// The size ordering is total and transitive.
pub proof fn lemma_size_order_props()
    ensures
        transitive(size_order()),
        strongly_connected(size_order()),
{
}

/// The order the listing scans children in is sorted lexicographically by
/// name, and is a permutation of the scanned children.
pub proof fn lemma_scan_order(s: Seq<TreeEntry>)
    ensures
        sorted_by(sort_ordered(s, name_order()), name_order()),
        sort_ordered(s, name_order()).to_multiset() =~= s.to_multiset(),
{
    lemma_name_order_props();
    lemma_sort_ordered_sorted(s, name_order());
    lemma_sort_ordered_permutes(s, name_order());
}

// ------------------------------------------------------------------
// The filtered traversal and the long listing, as specifications.
// ------------------------------------------------------------------
/// The records the name-filtered traversal emits while searching a subtree
/// whose own name did not match: nothing for anything but a listable
/// directory, otherwise the records of its children in order.
pub open spec fn filtered_of_node(n: FsNode, pat: Seq<char>) -> Seq<EntrySpec>
    decreases n,
{
    match n {
        FsNode::Dir { entries } => filtered_of_entries(entries@, pat),
        _ => Seq::empty(),
    }
}

/// The records the filtered traversal emits for a run of children.
pub open spec fn filtered_of_entries(s: Seq<TreeEntry>, pat: Seq<char>) -> Seq<EntrySpec>
    decreases s,
{
    if s.len() == 0 {
        Seq::empty()
    } else {
        filtered_of_entries(s.drop_last(), pat) + filtered_of_entry(s.last(), pat)
    }
}

/// The records the filtered traversal emits for one child: a directory
/// whose name contains the pattern yields exactly one record for its whole
/// subtree; one whose name does not is descended into; anything else is
/// skipped.
pub open spec fn filtered_of_entry(e: TreeEntry, pat: Seq<char>) -> Seq<EntrySpec>
    decreases e,
{
    match e.node {
        FsNode::Dir { entries } => if contains_pattern(e.name@, pat) {
            seq![entry_spec_of(e)]
        } else {
            filtered_of_entries(entries@, pat)
        },
        FsNode::UnlistableDir => if contains_pattern(e.name@, pat) {
            seq![entry_spec_of(e)]
        } else {
            Seq::empty()
        },
        _ => Seq::empty(),
    }
}

/// The name filter, as the character sequence of the configured pattern.
pub open spec fn opt_chars(o: Option<String>) -> Option<Seq<char>> {
    match o {
        Option::None => Option::None,
        Option::Some(s) => Option::Some(s@),
    }
}

/// The records the long listing emits for one immediate child. With no
/// filter, every child whose metadata was readable yields one record. With
/// a filter, only directories take part: a matching one yields its own
/// record, a non-matching one the records of its matched descendants.
pub open spec fn long_of_entry(e: TreeEntry, filter: Option<Seq<char>>) -> Seq<EntrySpec> {
    match filter {
        Option::None => match e.node {
            FsNode::NoMetadata => Seq::empty(),
            _ => seq![entry_spec_of(e)],
        },
        Option::Some(pat) => match e.node {
            FsNode::NoMetadata => Seq::empty(),
            FsNode::File { .. } => Seq::empty(),
            _ => if contains_pattern(e.name@, pat) {
                seq![entry_spec_of(e)]
            } else {
                filtered_of_entry(e, pat)
            },
        },
    }
}

/// The records the long listing emits for a run of immediate children, in
/// scan order.
pub open spec fn long_listing(s: Seq<TreeEntry>, filter: Option<Seq<char>>) -> Seq<EntrySpec>
    decreases s,
{
    if s.len() == 0 {
        Seq::empty()
    } else {
        long_listing(s.drop_last(), filter) + long_of_entry(s.last(), filter)
    }
}

/// The sum of the sizes of a run of records.
pub open spec fn models_total(ms: Seq<EntrySpec>) -> nat
    decreases ms,
{
    if ms.len() == 0 {
        0
    } else {
        models_total(ms.drop_last()) + ms.last().size
    }
}

// ------------------------------------------------------------------
// Lemmas about the specifications above.
// ------------------------------------------------------------------
/// The records' total adds up over concatenation.
pub proof fn lemma_models_total_concat(a: Seq<EntrySpec>, b: Seq<EntrySpec>)
    ensures
        models_total(a + b) == models_total(a) + models_total(b),
    decreases b.len(),
{
    if b.len() == 0 {
        assert(a + b =~= a);
    } else {
        assert((a + b).drop_last() =~= a + b.drop_last());
        assert((a + b).last() == b.last());
        lemma_models_total_concat(a, b.drop_last());
    }
}

/// One record totals its own size.
pub proof fn lemma_models_total_singleton(m: EntrySpec)
    ensures
        models_total(seq![m]) == m.size,
{
    assert(seq![m].drop_last() =~= Seq::<EntrySpec>::empty());
    assert(models_total(Seq::<EntrySpec>::empty()) == 0);
    assert(seq![m].last() == m);
}

/// One child sums to its own subtree size.
pub proof fn lemma_entries_size_singleton(e: TreeEntry)
    ensures
        entries_size(seq![e]) == node_size(e.node),
{
    assert(seq![e].drop_last() =~= Seq::<TreeEntry>::empty());
    assert(entries_size(Seq::<TreeEntry>::empty()) == 0);
    assert(seq![e].last() == e);
}

/// Extending a prefix of the children by one extends the filtered records
/// by that child's records.
pub proof fn lemma_filtered_take_step(s: Seq<TreeEntry>, pat: Seq<char>, i: int)
    requires
        0 <= i < s.len(),
    ensures
        filtered_of_entries(s.take(i + 1), pat) == filtered_of_entries(s.take(i), pat)
            + filtered_of_entry(s[i], pat),
{
    let t = s.take(i + 1);
    assert(t.drop_last() =~= s.take(i));
    assert(t.last() == s[i]);
}

/// Extending a prefix of the children by one extends the long listing by
/// that child's records.
pub proof fn lemma_long_take_step(s: Seq<TreeEntry>, filter: Option<Seq<char>>, i: int)
    requires
        0 <= i < s.len(),
    ensures
        long_listing(s.take(i + 1), filter) == long_listing(s.take(i), filter) + long_of_entry(
            s[i],
            filter,
        ),
{
    let t = s.take(i + 1);
    assert(t.drop_last() =~= s.take(i));
    assert(t.last() == s[i]);
}

/// The filtered records of a subtree never total more than the subtree's
/// own size: each matched directory is emitted once and matched subtrees
/// are disjoint.
pub proof fn lemma_filtered_node_total_le(n: FsNode, pat: Seq<char>)
    ensures
        models_total(filtered_of_node(n, pat)) <= node_size(n),
    decreases n,
{
    match n {
        FsNode::Dir { entries } => {
            lemma_filtered_entries_total_le(entries@, pat);
        },
        _ => {},
    }
}

/// The filtered records of a run of children never total more than the
/// children's summed sizes.
pub proof fn lemma_filtered_entries_total_le(s: Seq<TreeEntry>, pat: Seq<char>)
    ensures
        models_total(filtered_of_entries(s, pat)) <= entries_size(s),
    decreases s,
{
    if s.len() != 0 {
        lemma_filtered_entries_total_le(s.drop_last(), pat);
        lemma_filtered_entry_total_le(s.last(), pat);
        lemma_models_total_concat(
            filtered_of_entries(s.drop_last(), pat),
            filtered_of_entry(s.last(), pat),
        );
    }
}

/// The filtered records of one child never total more than its subtree
/// size.
pub proof fn lemma_filtered_entry_total_le(e: TreeEntry, pat: Seq<char>)
    ensures
        models_total(filtered_of_entry(e, pat)) <= node_size(e.node),
    decreases e,
{
    lemma_models_total_singleton(entry_spec_of(e));
    match e.node {
        FsNode::Dir { entries } => {
            if !contains_pattern(e.name@, pat) {
                lemma_filtered_entries_total_le(entries@, pat);
            }
        },
        _ => {},
    }
}

/// The long listing's records never total more than the children's summed
/// sizes.
pub proof fn lemma_long_total_le(s: Seq<TreeEntry>, filter: Option<Seq<char>>)
    ensures
        models_total(long_listing(s, filter)) <= entries_size(s),
    decreases s,
{
    if s.len() != 0 {
        lemma_long_total_le(s.drop_last(), filter);
        let e = s.last();
        assert(models_total(long_of_entry(e, filter)) <= node_size(e.node)) by {
            lemma_models_total_singleton(entry_spec_of(e));
            match filter {
                Option::Some(pat) => {
                    lemma_filtered_entry_total_le(e, pat);
                },
                Option::None => {},
            }
        }
        lemma_models_total_concat(long_listing(s.drop_last(), filter), long_of_entry(e, filter));
    }
}

/// Like the children themselves, a prefix of the records totals no more
/// than all of them.
pub proof fn lemma_models_total_take_step(ms: Seq<EntrySpec>, i: int)
    requires
        0 <= i < ms.len(),
    ensures
        models_total(ms.take(i + 1)) == models_total(ms.take(i)) + ms[i].size,
{
    let t = ms.take(i + 1);
    assert(t.drop_last() =~= ms.take(i));
    assert(t.last() == ms[i]);
}

/// A prefix of the records totals no more than all of them.
pub proof fn lemma_models_total_take_le(ms: Seq<EntrySpec>, i: int)
    requires
        0 <= i <= ms.len(),
    ensures
        models_total(ms.take(i)) <= models_total(ms),
    decreases ms.len() - i,
{
    if i == ms.len() {
        assert(ms.take(i) =~= ms);
    } else {
        lemma_models_total_take_step(ms, i);
        lemma_models_total_take_le(ms, i + 1);
    }
}

/// Sizes add up over concatenation of children.
pub proof fn lemma_entries_size_concat(a: Seq<TreeEntry>, b: Seq<TreeEntry>)
    ensures
        entries_size(a + b) == entries_size(a) + entries_size(b),
    decreases b.len(),
{
    if b.len() == 0 {
        assert(a + b =~= a);
    } else {
        assert((a + b).drop_last() =~= a + b.drop_last());
        assert((a + b).last() == b.last());
        lemma_entries_size_concat(a, b.drop_last());
    }
}

/// Inserting a child adds exactly its subtree size to the children's sum.
pub proof fn lemma_insert_ordered_entries_size(x: TreeEntry, s: Seq<TreeEntry>)
    ensures
        entries_size(insert_ordered(x, s, name_order())) == node_size(x.node) + entries_size(s),
    decreases s.len(),
{
    let leq = name_order();
    if s.len() > 0 && leq(s[0], x) {
        lemma_insert_ordered_entries_size(x, s.drop_first());
        lemma_entries_size_concat(seq![s[0]], insert_ordered(x, s.drop_first(), leq));
        lemma_entries_size_singleton(s[0]);
        assert(s =~= seq![s[0]] + s.drop_first());
        lemma_entries_size_concat(seq![s[0]], s.drop_first());
    } else {
        lemma_entries_size_concat(seq![x], s);
        lemma_entries_size_singleton(x);
    }
}

/// Reordering the children by name leaves their summed size unchanged.
pub proof fn lemma_sort_ordered_entries_size(s: Seq<TreeEntry>)
    ensures
        entries_size(sort_ordered(s, name_order())) == entries_size(s),
    decreases s.len(),
{
    if s.len() > 0 {
        lemma_sort_ordered_entries_size(s.drop_last());
        lemma_insert_ordered_entries_size(s.last(), sort_ordered(s.drop_last(), name_order()));
    }
}

// ------------------------------------------------------------------
// Size aggregation.
// ------------------------------------------------------------------
/// Relies on rayon's `par_iter`/`map`/`sum` over the children: each child's
/// subtree total is computed by the verified aggregator, and rayon
/// documents `sum` as reducing with `+` (from zero) in unspecified order —
/// addition of `u64` values is associative and commutative, and the overall
/// total is within bounds, so the reduction equals the sequential sum.
#[verifier::external_body]
fn par_entries_total(entries: &Vec<TreeEntry>) -> (r: u64)
    requires
        entries_size(entries@) <= u64::MAX,
    ensures
        r == entries_size(entries@),
{
    entries.par_iter().map(|e| node_total_par(&e.node)).sum::<u64>()
}

/// Size aggregation with parallel fan-out: the children of every directory
/// are mapped across worker threads and reduced by summation; the result is
/// the same total the sequential walk computes.
pub fn node_total_par(n: &FsNode) -> (r: u64)
    requires
        node_size(*n) <= u64::MAX,
    ensures
        r == node_size(*n),
{
    match n {
        FsNode::File { len } => *len,
        FsNode::Dir { entries } => par_entries_total(entries),
        FsNode::UnlistableDir => 0,
        FsNode::NoMetadata => 0,
    }
}

/// Total byte size of a subtree, plus its display rendering. The parallel
/// flag chooses between the sequential walk and the parallel fan-out; both
/// return exactly the subtree's size, so the flag never changes the result.
pub fn calculate_dir_size(n: &FsNode, human_readable: bool, parallel: bool) -> (r: (u64, String))
    requires
        node_size(*n) <= u64::MAX,
    ensures
        r.0 == node_size(*n),
        r.1@ == size_render(node_size(*n) as nat, human_readable),
{
    let total = if parallel {
        node_total_par(n)
    } else {
        node_total(n)
    };
    let converted = render_size(total, human_readable);
    (total, converted)
}

// ------------------------------------------------------------------
// Sorting the scanned children by name and the records by size.
// ------------------------------------------------------------------
/// The position `x` is inserted at: after every leading element ordered no
/// later than it by name.
#[verifier::loop_isolation(false)]
fn find_name_idx(v: &Vec<TreeEntry>, x: &TreeEntry) -> (idx: usize)
    ensures
        idx <= v@.len(),
        forall|k: int| 0 <= k < idx ==> name_le(v@[k], *x),
        idx < v@.len() ==> !name_le(v@[idx as int], *x),
{
    let mut j: usize = 0;
    while j < v.len()
        invariant
            j <= v@.len(),
            forall|k: int| 0 <= k < j ==> name_le(v@[k], *x),
        decreases v@.len() - j,
    {
        if !str_le(v[j].name.as_str(), x.name.as_str()) {
            return j;
        }
        j = j + 1;
    }
    j
}

/// Inserts a scanned child into a run of children, after every leading one
/// ordered no later than it by name.
fn insert_entry_by_name(v: &mut Vec<TreeEntry>, x: TreeEntry)
    ensures
        final(v)@ == insert_ordered(x, old(v)@, name_order()),
{
    let idx = find_name_idx(v, &x);
    proof {
        lemma_insert_ordered_split(x, v@, name_order(), idx as int);
    }
    let ghost pre = v@;
    v.insert(idx, x);
    proof {
        assert(v@ =~= pre.take(idx as int) + seq![x] + pre.skip(idx as int));
    }
}

/// Sorts the scanned children by name: the order the listing scans them in.
#[verifier::loop_isolation(false)]
pub fn sort_entries_by_name(v: &mut Vec<TreeEntry>)
    ensures
        final(v)@ == sort_ordered(old(v)@, name_order()),
{
    let ghost orig = v@;
    let mut out: Vec<TreeEntry> = Vec::new();
    let ghost mut k: int = 0;
    proof {
        assert(orig.take(0) =~= Seq::<TreeEntry>::empty());
        assert(orig.skip(0) =~= orig);
    }
    while v.len() > 0
        invariant
            0 <= k <= orig.len(),
            k + v@.len() == orig.len(),
            v@ == orig.skip(k),
            out@ == sort_ordered(orig.take(k), name_order()),
        decreases v@.len(),
    {
        let x = v.remove(0);
        proof {
            assert(x == orig[k]);
            assert(v@ =~= orig.skip(k + 1));
        }
        insert_entry_by_name(&mut out, x);
        proof {
            assert(orig.take(k + 1).drop_last() =~= orig.take(k));
            assert(orig.take(k + 1).last() == orig[k]);
            k = k + 1;
        }
    }
    proof {
        assert(orig.take(k) =~= orig);
    }
    *v = out;
}

/// The position `x` is inserted at: after every leading record whose size
/// is no larger.
#[verifier::loop_isolation(false)]
fn find_size_idx(v: &Vec<FileEntry>, x: &FileEntry) -> (idx: usize)
    ensures
        idx <= v@.len(),
        forall|k: int| 0 <= k < idx ==> size_le(v@[k], *x),
        idx < v@.len() ==> !size_le(v@[idx as int], *x),
{
    let mut j: usize = 0;
    while j < v.len()
        invariant
            j <= v@.len(),
            forall|k: int| 0 <= k < j ==> size_le(v@[k], *x),
        decreases v@.len() - j,
    {
        if v[j].size_raw > x.size_raw {
            return j;
        }
        j = j + 1;
    }
    j
}

/// Inserts a record into a run of records, after every leading one whose
/// size is no larger (ties keep their scan order).
fn insert_entry_by_size(v: &mut Vec<FileEntry>, x: FileEntry)
    ensures
        final(v)@ == insert_ordered(x, old(v)@, size_order()),
{
    let idx = find_size_idx(v, &x);
    proof {
        lemma_insert_ordered_split(x, v@, size_order(), idx as int);
    }
    let ghost pre = v@;
    v.insert(idx, x);
    proof {
        assert(v@ =~= pre.take(idx as int) + seq![x] + pre.skip(idx as int));
    }
}

/// Sorts the records ascending by raw size, stably.
#[verifier::loop_isolation(false)]
pub fn sort_entries_by_size(v: &mut Vec<FileEntry>)
    ensures
        final(v)@ == sort_ordered(old(v)@, size_order()),
{
    let ghost orig = v@;
    let mut out: Vec<FileEntry> = Vec::new();
    let ghost mut k: int = 0;
    proof {
        assert(orig.take(0) =~= Seq::<FileEntry>::empty());
        assert(orig.skip(0) =~= orig);
    }
    while v.len() > 0
        invariant
            0 <= k <= orig.len(),
            k + v@.len() == orig.len(),
            v@ == orig.skip(k),
            out@ == sort_ordered(orig.take(k), size_order()),
        decreases v@.len(),
    {
        let x = v.remove(0);
        proof {
            assert(x == orig[k]);
            assert(v@ =~= orig.skip(k + 1));
        }
        insert_entry_by_size(&mut out, x);
        proof {
            assert(orig.take(k + 1).drop_last() =~= orig.take(k));
            assert(orig.take(k + 1).last() == orig[k]);
            k = k + 1;
        }
    }
    proof {
        assert(orig.take(k) =~= orig);
    }
    *v = out;
}

// ------------------------------------------------------------------
// Building the records.
// ------------------------------------------------------------------
/// The permission summary string: the real read-only flag, then fixed
/// placeholders for write and execute.
fn permissions_string(readonly: bool) -> (r: String)
    ensures
        r@ == perm_chars(readonly),
{
    if readonly {
        proof {
            reveal_strlit("r-w-x");
        }
        let s = String::from_str("r-w-x");
        proof {
            assert(s@ =~= perm_chars(true));
        }
        s
    } else {
        proof {
            reveal_strlit(" -w-x");
        }
        let s = String::from_str(" -w-x");
        proof {
            assert(s@ =~= perm_chars(false));
        }
        s
    }
}

/// The path string an entry displays, whichever way it was obtained.
fn path_string(p: &PathText) -> (r: String)
    ensures
        r@ == path_chars(*p),
{
    match p {
        PathText::Canonical(s) => s.clone(),
        PathText::Fallback(s) => s.clone(),
    }
}

/// Builds the listing record for one scanned child whose metadata was
/// readable: kind mark, permission summary, total size and its rendering,
/// and the displayed path.
pub fn build_file_entry(e: &TreeEntry, human_readable: bool, parallel: bool) -> (r: FileEntry)
    requires
        node_size(e.node) <= u64::MAX,
        !(e.node is NoMetadata),
    ensures
        fe_model(r) == entry_spec_of(*e),
        fe_wf(r, human_readable),
{
    let is_dir = match &e.node {
        FsNode::Dir { .. } => true,
        FsNode::UnlistableDir => true,
        _ => false,
    };
    let (size_raw, size_display) = calculate_dir_size(&e.node, human_readable, parallel);
    let r = FileEntry {
        file_type: if is_dir {
            'd'
        } else {
            '-'
        },
        permissions: permissions_string(e.readonly),
        size_display,
        size_raw,
        path: path_string(&e.path),
    };
    proof {
        assert(perm_chars(true)[0] == 'r');
        assert(perm_chars(false)[0] == ' ');
        assert(fe_model(r) =~= entry_spec_of(*e));
    }
    r
}

// ------------------------------------------------------------------
// The name-filtered traversal.
// ------------------------------------------------------------------
/// Walks a subtree whose own name did not match, emitting one record for
/// every directory below it whose name contains the pattern; a matching
/// directory's whole subtree is sized as a unit and not descended further,
/// a non-matching one is searched on, and unreadable branches end the
/// search there without touching what was already collected.
#[verifier::loop_isolation(false)]
pub fn calculate_dir_size1(
    node: &FsNode,
    pattern: &str,
    human_readable: bool,
    parallel: bool,
    entries: &mut Vec<FileEntry>,
)
    requires
        node_size(*node) <= u64::MAX,
        forall|k: int| 0 <= k < old(entries)@.len() ==> fe_wf(old(entries)@[k], human_readable),
    ensures
        final(entries)@.len() >= old(entries)@.len(),
        final(entries)@.subrange(0, old(entries)@.len() as int) == old(entries)@,
        final(entries)@.map_values(fe_model_f()) == old(entries)@.map_values(fe_model_f())
            + filtered_of_node(*node, pattern@),
        forall|k: int| 0 <= k < final(entries)@.len() ==> fe_wf(final(entries)@[k], human_readable),
    decreases *node,
{
    match node {
        FsNode::Dir { entries: children } => {
            let ghost s = children@;
            let ghost base = entries@;
            let mut i: usize = 0;
            proof {
                assert(s.take(0) =~= Seq::<TreeEntry>::empty());
                assert(entries@.map_values(fe_model_f()) =~= base.map_values(fe_model_f())
                    + filtered_of_entries(s.take(0), pattern@));
                assert(entries@.subrange(0, base.len() as int) =~= base);
            }
            while i < children.len()
                invariant
                    i <= s.len(),
                    entries@.len() >= base.len(),
                    entries@.subrange(0, base.len() as int) == base,
                    entries@.map_values(fe_model_f()) == base.map_values(fe_model_f())
                        + filtered_of_entries(s.take(i as int), pattern@),
                    forall|k: int| 0 <= k < entries@.len() ==> fe_wf(entries@[k], human_readable),
                decreases s.len() - i,
            {
                proof {
                    lemma_filtered_take_step(s, pattern@, i as int);
                    lemma_entry_size_le(s, i as int);
                }
                let child = &children[i];
                let ghost pre = entries@;
                match &child.node {
                    FsNode::Dir { .. } => {
                        if str_contains(child.name.as_str(), pattern) {
                            let fe = build_file_entry(child, human_readable, parallel);
                            entries.push(fe);
                            proof {
                                assert(entries@ == pre.push(fe));
                                assert(entries@.map_values(fe_model_f()) =~= pre.map_values(
                                    fe_model_f(),
                                ).push(fe_model(fe)));
                                assert(*child == s[i as int]);
                                assert(contains_pattern(child.name@, pattern@));
                                assert(filtered_of_entry(s[i as int], pattern@) == seq![
                                    entry_spec_of(s[i as int]),
                                ]);
                                assert(entries@.map_values(fe_model_f()) =~= base.map_values(
                                    fe_model_f(),
                                ) + filtered_of_entries(s.take(i as int + 1), pattern@));
                                assert(entries@.subrange(0, base.len() as int) =~= base);
                            }
                        } else {
                            calculate_dir_size1(
                                &child.node,
                                pattern,
                                human_readable,
                                parallel,
                                entries,
                            );
                            proof {
                                assert(entries@.map_values(fe_model_f()) =~= base.map_values(
                                    fe_model_f(),
                                ) + filtered_of_entries(s.take(i as int + 1), pattern@));
                                assert forall|k: int| 0 <= k < base.len() implies entries@[k]
                                    == base[k] by {
                                    assert(entries@.subrange(0, pre.len() as int)[k] == pre[k]);
                                    assert(pre.subrange(0, base.len() as int)[k] == base[k]);
                                }
                                assert(entries@.subrange(0, base.len() as int) =~= base);
                            }
                        }
                    },
                    FsNode::UnlistableDir => {
                        if str_contains(child.name.as_str(), pattern) {
                            let fe = build_file_entry(child, human_readable, parallel);
                            entries.push(fe);
                            proof {
                                assert(entries@ == pre.push(fe));
                                assert(entries@.map_values(fe_model_f()) =~= pre.map_values(
                                    fe_model_f(),
                                ).push(fe_model(fe)));
                                assert(*child == s[i as int]);
                                assert(contains_pattern(child.name@, pattern@));
                                assert(filtered_of_entry(s[i as int], pattern@) == seq![
                                    entry_spec_of(s[i as int]),
                                ]);
                                assert(entries@.map_values(fe_model_f()) =~= base.map_values(
                                    fe_model_f(),
                                ) + filtered_of_entries(s.take(i as int + 1), pattern@));
                                assert(entries@.subrange(0, base.len() as int) =~= base);
                            }
                        } else {
                            proof {
                                assert(filtered_of_entry(s[i as int], pattern@)
                                    =~= Seq::<EntrySpec>::empty());
                                assert(entries@.map_values(fe_model_f()) =~= base.map_values(
                                    fe_model_f(),
                                ) + filtered_of_entries(s.take(i as int + 1), pattern@));
                            }
                        }
                    },
                    _ => {
                        proof {
                            assert(filtered_of_entry(s[i as int], pattern@)
                                =~= Seq::<EntrySpec>::empty());
                            assert(entries@.map_values(fe_model_f()) =~= base.map_values(
                                fe_model_f(),
                            ) + filtered_of_entries(s.take(i as int + 1), pattern@));
                        }
                    },
                }
                i = i + 1;
            }
            proof {
                assert(s.take(s.len() as int) =~= s);
            }
        },
        _ => {
            proof {
                assert(filtered_of_node(*node, pattern@) =~= Seq::<EntrySpec>::empty());
                assert(entries@.map_values(fe_model_f()) =~= entries@.map_values(fe_model_f())
                    + filtered_of_node(*node, pattern@));
                assert(entries@.subrange(0, entries@.len() as int) =~= entries@);
            }
        },
    }
}

// ------------------------------------------------------------------
// The listing itself.
// ------------------------------------------------------------------
/// A long-format listing: the records in their final order and the total of
/// their sizes.
pub struct LongListing {
    /// One record per emitted entry.
    pub entries: Vec<FileEntry>,
    /// The sum of the records' raw sizes.
    pub total: u64,
}

/// What a listing call produces: the bare sorted child names in short mode,
/// the populated records in long mode.
pub enum Listing {
    /// Short mode: the children's names in lexicographic order.
    Short(Vec<String>),
    /// Long mode: one record per emitted entry, plus the running total.
    Long(LongListing),
}

/// The records the long listing emits for a scanned set of children under
/// the configured name filter, in scan (name) order.
pub open spec fn listing_models(children: Seq<TreeEntry>, name: Option<String>) -> Seq<EntrySpec> {
    long_listing(sort_ordered(children, name_order()), opt_chars(name))
}

/// Sums the raw sizes of the produced records.
#[verifier::loop_isolation(false)]
fn total_of_entries(v: &Vec<FileEntry>) -> (r: u64)
    requires
        models_total(v@.map_values(fe_model_f())) <= u64::MAX,
    ensures
        r == models_total(v@.map_values(fe_model_f())),
{
    let ghost ms = v@.map_values(fe_model_f());
    let mut total: u64 = 0;
    let mut i: usize = 0;
    proof {
        assert(ms.take(0) =~= Seq::<EntrySpec>::empty());
    }
    while i < v.len()
        invariant
            i <= ms.len(),
            total == models_total(ms.take(i as int)),
        decreases ms.len() - i,
    {
        proof {
            lemma_models_total_take_step(ms, i as int);
            lemma_models_total_take_le(ms, i as int + 1);
            assert(ms[i as int] == fe_model(v@[i as int]));
        }
        total = total + v[i].size_raw;
        i = i + 1;
    }
    proof {
        assert(ms.take(ms.len() as int) =~= ms);
    }
    total
}

/// Produces the listing of a scanned set of immediate children. The
/// children are scanned in name order; short mode yields the bare names,
/// long mode one record per child — sized through the aggregator, with the
/// name filter restricting emission to matched directory subtrees — plus
/// the running total, the records optionally reordered ascending by size.
#[verifier::loop_isolation(false)]
pub fn list_directory(children: Vec<TreeEntry>, args: &Cli) -> (r: Listing)
    requires
        entries_size(children@) <= u64::MAX,
    ensures
        !args.long_format ==> (r matches Listing::Short(names) && names@.len() == sort_ordered(
            children@,
            name_order(),
        ).len() && (forall|k: int|
            0 <= k < names@.len() ==> names@[k]@ == sort_ordered(children@, name_order())[k].name@)),
        args.long_format ==> (r matches Listing::Long(l) && {
            let ms = listing_models(children@, args.name);
            &&& (forall|k: int|
                0 <= k < l.entries@.len() ==> fe_wf(l.entries@[k], args.human_readable))
            &&& l.total == models_total(ms)
            &&& (!args.sort ==> l.entries@.map_values(fe_model_f()) == ms)
            &&& (args.sort ==> l.entries@.map_values(fe_model_f()).to_multiset()
                == ms.to_multiset() && sorted_by(l.entries@, size_order()))
        }),
{
    let ghost orig = children@;
    let mut sorted_children = children;
    sort_entries_by_name(&mut sorted_children);
    let ghost ss = sorted_children@;
    proof {
        lemma_sort_ordered_entries_size(orig);
    }
    if !args.long_format {
        let mut names: Vec<String> = Vec::new();
        let mut i: usize = 0;
        while i < sorted_children.len()
            invariant
                i <= ss.len(),
                names@.len() == i,
                forall|k: int| 0 <= k < i ==> names@[k]@ == ss[k].name@,
            decreases ss.len() - i,
        {
            names.push(sorted_children[i].name.clone());
            i = i + 1;
        }
        return Listing::Short(names);
    }
    let ghost fpat = opt_chars(args.name);
    let mut out: Vec<FileEntry> = Vec::new();
    let mut i: usize = 0;
    proof {
        assert(ss.take(0) =~= Seq::<TreeEntry>::empty());
        assert(out@.map_values(fe_model_f()) =~= long_listing(ss.take(0), fpat));
    }
    while i < sorted_children.len()
        invariant
            i <= ss.len(),
            out@.map_values(fe_model_f()) == long_listing(ss.take(i as int), fpat),
            forall|k: int| 0 <= k < out@.len() ==> fe_wf(out@[k], args.human_readable),
        decreases ss.len() - i,
    {
        proof {
            lemma_long_take_step(ss, fpat, i as int);
            lemma_entry_size_le(ss, i as int);
        }
        let child = &sorted_children[i];
        let ghost pre = out@;
        match &args.name {
            Option::None => {
                match &child.node {
                    FsNode::NoMetadata => {
                        proof {
                            assert(out@.map_values(fe_model_f()) =~= long_listing(
                                ss.take(i as int + 1),
                                fpat,
                            ));
                        }
                    },
                    _ => {
                        let fe = build_file_entry(child, args.human_readable, args.parallel);
                        out.push(fe);
                        proof {
                            assert(out@.map_values(fe_model_f()) =~= long_listing(
                                ss.take(i as int + 1),
                                fpat,
                            ));
                        }
                    },
                }
            },
            Option::Some(pat) => {
                match &child.node {
                    FsNode::NoMetadata => {
                        proof {
                            assert(out@.map_values(fe_model_f()) =~= long_listing(
                                ss.take(i as int + 1),
                                fpat,
                            ));
                        }
                    },
                    FsNode::File { .. } => {
                        proof {
                            assert(out@.map_values(fe_model_f()) =~= long_listing(
                                ss.take(i as int + 1),
                                fpat,
                            ));
                        }
                    },
                    _ => {
                        if str_contains(child.name.as_str(), pat.as_str()) {
                            let fe = build_file_entry(child, args.human_readable, args.parallel);
                            out.push(fe);
                            proof {
                                assert(out@.map_values(fe_model_f()) =~= long_listing(
                                    ss.take(i as int + 1),
                                    fpat,
                                ));
                            }
                        } else {
                            match &child.node {
                                FsNode::Dir { .. } => {
                                    calculate_dir_size1(
                                        &child.node,
                                        pat.as_str(),
                                        args.human_readable,
                                        args.parallel,
                                        &mut out,
                                    );
                                    proof {
                                        assert(filtered_of_node(child.node, pat@)
                                            == filtered_of_entry(ss[i as int], fpat->0));
                                        assert(out@.map_values(fe_model_f()) =~= long_listing(
                                            ss.take(i as int + 1),
                                            fpat,
                                        ));
                                    }
                                },
                                _ => {
                                    proof {
                                        assert(filtered_of_entry(ss[i as int], fpat->0)
                                            =~= Seq::<EntrySpec>::empty());
                                        assert(out@.map_values(fe_model_f()) =~= long_listing(
                                            ss.take(i as int + 1),
                                            fpat,
                                        ));
                                    }
                                },
                            }
                        }
                    },
                }
            },
        }
        i = i + 1;
    }
    proof {
        assert(ss.take(ss.len() as int) =~= ss);
        lemma_long_total_le(ss, fpat);
    }
    let total = total_of_entries(&out);
    if args.sort {
        let ghost pre_sort = out@;
        proof {
            lemma_size_order_props();
            lemma_sort_ordered_sorted(pre_sort, size_order());
            lemma_sort_ordered_map_multiset(pre_sort, size_order(), fe_model_f());
            lemma_sort_ordered_permutes(pre_sort, size_order());
        }
        sort_entries_by_size(&mut out);
        proof {
            broadcast use vstd::seq_lib::group_to_multiset_ensures;

            assert forall|k: int| 0 <= k < out@.len() implies fe_wf(
                out@[k],
                args.human_readable,
            ) by {
                assert(out@.contains(out@[k]));
                assert(pre_sort.to_multiset().count(out@[k]) > 0);
                assert(pre_sort.contains(out@[k]));
            }
        }
    }
    Listing::Long(LongListing { entries: out, total })
}

} // verus!
