//! The tree of directory nodes that a traversal produces.
//!
//! A `Dir` owns its children outright: subdirectories, plain files, and the
//! failures that were absorbed while listing it. Its `size` field aggregates
//! every file size beneath it, which `dir_wf` states and
//! `lemma_size_is_total_files` connects to the transitive sum.

use vstd::prelude::*;

verus! {

/// One non-directory entry: its base name and its size in bytes
/// (zero when the size could not be read).
#[derive(Debug, PartialEq, Eq)]
pub struct File {
    pub name: String,
    pub size: u64,
}

/// One absorbed traversal failure, labelled by the name of what failed:
/// an entry's base name, or, for a failure on the starting directory
/// itself, the full path that was attempted.
#[derive(Debug, PartialEq, Eq)]
pub struct ErrEntry {
    pub name: String,
}

/// One directory: its display name, its subdirectories, its files, the
/// failures absorbed while listing it, and its aggregate size in bytes.
#[derive(Debug, PartialEq, Eq)]
pub struct Dir {
    pub name: String,
    pub dirs: Vec<Dir>,
    pub files: Vec<File>,
    pub errs: Vec<ErrEntry>,
    pub size: u64,
}

/// The names and sizes of a run of files, as plain values.
pub open spec fn files_view(fs: Seq<File>) -> Seq<(Seq<char>, u64)> {
    fs.map_values(|f: File| (f.name@, f.size))
}

/// The labels of a run of absorbed failures, as plain values.
pub open spec fn errs_view(es: Seq<ErrEntry>) -> Seq<Seq<char>> {
    es.map_values(|e: ErrEntry| e.name@)
}

/// The sum of the sizes in a run of file records, given as plain values.
pub open spec fn files_sum(fs: Seq<(Seq<char>, u64)>) -> nat
    decreases fs.len(),
{
    if fs.len() == 0 {
        0
    } else {
        files_sum(fs.drop_last()) + fs.last().1 as nat
    }
}

/// The sum of the aggregate sizes of a run of directories.
pub open spec fn dirs_sum(ds: Seq<Dir>) -> nat
    decreases ds.len(),
{
    if ds.len() == 0 {
        0
    } else {
        dirs_sum(ds.drop_last()) + ds.last().size as nat
    }
}

/// Well-formedness of a built tree: at every node, `size` is the sum of the
/// direct file sizes and the subdirectories' aggregate sizes.
pub open spec fn dir_wf(d: Dir) -> bool
    decreases d,
{
    &&& d.size as nat == files_sum(files_view(d.files@)) + dirs_sum(d.dirs@)
    &&& forall|i: int| 0 <= i < d.dirs@.len() ==> dir_wf(#[trigger] d.dirs@[i])
}

/// The sum of the sizes of every file transitively beneath a node.
pub open spec fn total_files_size(d: Dir) -> nat
    decreases d, 1int,
{
    files_sum(files_view(d.files@)) + dirs_total(d.dirs@)
}

/// The sum of `total_files_size` over a run of directories.
pub open spec fn dirs_total(ds: Seq<Dir>) -> nat
    decreases ds, 0int,
{
    if ds.len() == 0 {
        0
    } else {
        dirs_total(ds.drop_last()) + total_files_size(ds.last())
    }
}

/// Structural equality of two trees: the same names, sizes, file records
/// and failure labels, and structurally equal subdirectories, in order.
pub open spec fn similar(a: Dir, b: Dir) -> bool
    decreases a,
{
    &&& a.name@ == b.name@
    &&& a.size == b.size
    &&& files_view(a.files@) == files_view(b.files@)
    &&& errs_view(a.errs@) == errs_view(b.errs@)
    &&& a.dirs@.len() == b.dirs@.len()
    &&& forall|i: int| 0 <= i < a.dirs@.len() ==> similar(#[trigger] a.dirs@[i], b.dirs@[i])
}

/// The depth of a tree: the longest chain of nested nodes, counting the
/// node itself.
pub open spec fn depth(d: Dir) -> nat
    decreases d, 1int,
{
    1 + dirs_depth(d.dirs@)
}

/// The largest depth among a run of directories, or zero for none.
pub open spec fn dirs_depth(ds: Seq<Dir>) -> nat
    decreases ds, 0int,
{
    if ds.len() == 0 {
        0
    } else if depth(ds.last()) > dirs_depth(ds.drop_last()) {
        depth(ds.last())
    } else {
        dirs_depth(ds.drop_last())
    }
}

/// No member of a run of directories is deeper than the run's depth.
pub proof fn lemma_dirs_depth_elem(ds: Seq<Dir>, i: int)
    requires
        0 <= i < ds.len(),
    ensures
        depth(ds[i]) <= dirs_depth(ds),
    decreases ds.len(),
{
    if i < ds.len() - 1 {
        assert(ds.drop_last()[i] == ds[i]);
        lemma_dirs_depth_elem(ds.drop_last(), i);
    }
}

/// A run of directories, none deeper than `k`, has depth at most `k`.
pub proof fn lemma_dirs_depth_all(ds: Seq<Dir>, k: nat)
    requires
        forall|i: int| 0 <= i < ds.len() ==> depth(#[trigger] ds[i]) <= k,
    ensures
        dirs_depth(ds) <= k,
    decreases ds.len(),
{
    if ds.len() > 0 {
        assert(forall|i: int|
            0 <= i < ds.drop_last().len() ==> depth(#[trigger] ds.drop_last()[i]) <= k);
        lemma_dirs_depth_all(ds.drop_last(), k);
    }
}

impl Dir {
    /// Decides whether the tree nests no deeper than `limit` levels. The
    /// renderer demands a depth bound, so a caller checks this first.
    #[verifier::loop_isolation(false)]
    pub fn depth_within(&self, limit: u32) -> (b: bool)
        ensures
            b == (depth(*self) <= limit as nat),
        decreases *self,
    {
        if limit == 0 {
            return false;
        }
        let mut i: usize = 0;
        while i < self.dirs.len()
            invariant
                i <= self.dirs@.len(),
                forall|k: int| 0 <= k < i as int ==> depth(#[trigger] self.dirs@[k]) <= (limit - 1) as nat,
            decreases self.dirs@.len() - i,
        {
            proof {
                assert(decreases_to!(*self => self.dirs));
                assert(decreases_to!(self.dirs@ => self.dirs@[i as int]));
                assert(decreases_to!(*self => self.dirs@[i as int]));
            }
            if !self.dirs[i].depth_within(limit - 1) {
                proof {
                    lemma_dirs_depth_elem(self.dirs@, i as int);
                }
                return false;
            }
            i = i + 1;
        }
        proof {
            lemma_dirs_depth_all(self.dirs@, (limit - 1) as nat);
        }
        true
    }
}

/// A prefix of a run of file records sums to no more than the whole run.
pub proof fn lemma_files_sum_prefix_le(fs: Seq<(Seq<char>, u64)>, i: int)
    requires
        0 <= i <= fs.len(),
    ensures
        files_sum(fs.subrange(0, i)) <= files_sum(fs),
    decreases fs.len() - i,
{
    if i == fs.len() {
        assert(fs.subrange(0, i) =~= fs);
    } else {
        assert(fs.subrange(0, i + 1).drop_last() =~= fs.subrange(0, i));
        assert(fs.subrange(0, i + 1).last() == fs[i]);
        lemma_files_sum_prefix_le(fs, i + 1);
    }
}

/// A prefix of a run of directories sums to no more than the whole run.
pub proof fn lemma_dirs_sum_prefix_le(ds: Seq<Dir>, i: int)
    requires
        0 <= i <= ds.len(),
    ensures
        dirs_sum(ds.subrange(0, i)) <= dirs_sum(ds),
    decreases ds.len() - i,
{
    if i == ds.len() {
        assert(ds.subrange(0, i) =~= ds);
    } else {
        assert(ds.subrange(0, i + 1).drop_last() =~= ds.subrange(0, i));
        assert(ds.subrange(0, i + 1).last() == ds[i]);
        lemma_dirs_sum_prefix_le(ds, i + 1);
    }
}

/// In a well-formed run of directories, the sum of the `size` fields equals
/// the sum of the transitive file sizes.
pub proof fn lemma_dirs_sum_is_total(ds: Seq<Dir>)
    requires
        forall|i: int| 0 <= i < ds.len() ==> dir_wf(#[trigger] ds[i]),
    ensures
        dirs_sum(ds) == dirs_total(ds),
    decreases ds, 1int,
{
    if ds.len() > 0 {
        assert(dir_wf(ds[ds.len() - 1]));
        lemma_size_is_total_files(ds.last());
        assert(forall|i: int|
            0 <= i < ds.drop_last().len() ==> dir_wf(#[trigger] ds.drop_last()[i]));
        lemma_dirs_sum_is_total(ds.drop_last());
    }
}

/// The aggregation law: in a well-formed tree, every node's `size` equals
/// the sum of all file sizes transitively reachable beneath it.
pub proof fn lemma_size_is_total_files(d: Dir)
    requires
        dir_wf(d),
    ensures
        d.size as nat == total_files_size(d),
    decreases d, 0int,
{
    lemma_dirs_sum_is_total(d.dirs@);
}

} // verus!
