//! Building a directory tree from an observed listing.
//!
//! A `Listing` records what one attempt to enumerate a directory observed,
//! as plain values: either the directory itself could not be listed, or a
//! run of entries in the order the filesystem yielded them. `build` turns a
//! listing into a `Dir`, absorbing every per-entry failure into the owning
//! node's `errs` list; only a failure to list the starting directory itself
//! propagates as an error.

use vstd::prelude::*;
use crate::tree::{Dir, ErrEntry, File, dir_wf, dirs_sum, errs_view, files_sum, files_view,
    lemma_dirs_sum_prefix_le, lemma_files_sum_prefix_le, similar};

verus! {

/// What one attempt to list a directory observed.
#[derive(Debug)]
pub enum Listing {
    /// The directory itself could not be opened or enumerated.
    Unreadable,
    /// The directory's immediate entries, in the order they were yielded.
    Listed(Vec<Entry>),
}

/// What was observed of one directory entry.
#[derive(Debug)]
pub enum Entry {
    /// The raw entry could not be read at all.
    Faulty,
    /// The entry's file-type metadata could not be queried.
    TypeUnknown { name: String },
    /// A non-directory entry; `size` is absent when it could not be read.
    FileFound { name: String, size: Option<u64> },
    /// A directory entry, together with what listing it observed in turn.
    DirFound { name: String, listing: Listing },
}

/// The size a file record contributes: its size, or zero when unreadable.
pub open spec fn size_or_zero(size: Option<u64>) -> u64 {
    match size {
        Option::Some(s) => s,
        Option::None => 0,
    }
}

/// The total size one observed entry will contribute to its parent.
pub open spec fn entry_size(e: Entry) -> nat
    decreases e,
{
    match e {
        Entry::Faulty => 0,
        Entry::TypeUnknown { .. } => 0,
        Entry::FileFound { size, .. } => size_or_zero(size) as nat,
        Entry::DirFound { listing, .. } => listing_size(listing),
    }
}

/// The total size a run of observed entries will contribute.
pub open spec fn entries_size(es: Seq<Entry>) -> nat
    decreases es,
{
    if es.len() == 0 {
        0
    } else {
        entries_size(es.drop_last()) + entry_size(es.last())
    }
}

/// The total size a listing will aggregate to once built.
pub open spec fn listing_size(l: Listing) -> nat
    decreases l,
{
    match l {
        Listing::Unreadable => 0,
        Listing::Listed(v) => entries_size(v@),
    }
}

/// The tree a listing determines: `d` is the node that building from `l`
/// under display name `name` must produce.
pub open spec fn builds_to(name: Seq<char>, l: Listing, d: Dir) -> bool
    decreases l,
{
    match l {
        Listing::Unreadable => false,
        Listing::Listed(v) => {
            &&& d.name@ == name
            &&& entries_build(v@, d.dirs@, files_view(d.files@), errs_view(d.errs@))
            &&& d.size as nat == files_sum(files_view(d.files@)) + dirs_sum(d.dirs@)
        },
    }
}

/// How a run of observed entries determines the three child lists: each
/// entry, in order, appends to exactly one of them. A readable
/// subdirectory appends its built node to `dirs`; an unreadable one, an
/// unreadable entry, and an entry of unknown type each append a label to
/// `errs`; every other entry appends a file record to `files`.
pub open spec fn entries_build(
    es: Seq<Entry>,
    dirs: Seq<Dir>,
    files: Seq<(Seq<char>, u64)>,
    errs: Seq<Seq<char>>,
) -> bool
    decreases es,
{
    if es.len() == 0 {
        dirs.len() == 0 && files.len() == 0 && errs.len() == 0
    } else {
        match es.last() {
            Entry::Faulty => {
                &&& errs.len() > 0
                &&& errs.last() == Seq::<char>::empty()
                &&& entries_build(es.drop_last(), dirs, files, errs.drop_last())
            },
            Entry::TypeUnknown { name } => {
                &&& errs.len() > 0
                &&& errs.last() == name@
                &&& entries_build(es.drop_last(), dirs, files, errs.drop_last())
            },
            Entry::FileFound { name, size } => {
                &&& files.len() > 0
                &&& files.last() == (name@, size_or_zero(size))
                &&& entries_build(es.drop_last(), dirs, files.drop_last(), errs)
            },
            Entry::DirFound { name, listing } => match listing {
                Listing::Unreadable => {
                    &&& errs.len() > 0
                    &&& errs.last() == name@
                    &&& entries_build(es.drop_last(), dirs, files, errs.drop_last())
                },
                Listing::Listed(_) => {
                    &&& dirs.len() > 0
                    &&& builds_to(name@, listing, dirs.last())
                    &&& entries_build(es.drop_last(), dirs.drop_last(), files, errs)
                },
            },
        }
    }
}

/// What recording one observed entry does to the three child lists.
pub open spec fn entry_step(
    e: Entry,
    dirs0: Seq<Dir>,
    files0: Seq<(Seq<char>, u64)>,
    errs0: Seq<Seq<char>>,
    dirs1: Seq<Dir>,
    files1: Seq<(Seq<char>, u64)>,
    errs1: Seq<Seq<char>>,
) -> bool {
    match e {
        Entry::Faulty => {
            &&& dirs1 == dirs0
            &&& files1 == files0
            &&& errs1 == errs0.push(Seq::<char>::empty())
        },
        Entry::TypeUnknown { name } => {
            &&& dirs1 == dirs0
            &&& files1 == files0
            &&& errs1 == errs0.push(name@)
        },
        Entry::FileFound { name, size } => {
            &&& dirs1 == dirs0
            &&& files1 == files0.push((name@, size_or_zero(size)))
            &&& errs1 == errs0
        },
        Entry::DirFound { name, listing } => match listing {
            Listing::Unreadable => {
                &&& dirs1 == dirs0
                &&& files1 == files0
                &&& errs1 == errs0.push(name@)
            },
            Listing::Listed(_) => {
                &&& dirs1.len() == dirs0.len() + 1
                &&& dirs1.drop_last() == dirs0
                &&& builds_to(name@, listing, dirs1.last())
                &&& files1 == files0
                &&& errs1 == errs0
            },
        },
    }
}

/// A prefix of a run of entries contributes no more than the whole run.
pub proof fn lemma_entries_size_prefix_le(es: Seq<Entry>, i: int)
    requires
        0 <= i <= es.len(),
    ensures
        entries_size(es.subrange(0, i)) <= entries_size(es),
    decreases es.len() - i,
{
    if i == es.len() {
        assert(es.subrange(0, i) =~= es);
    } else {
        assert(es.subrange(0, i + 1).drop_last() =~= es.subrange(0, i));
        assert(es.subrange(0, i + 1).last() == es[i]);
        lemma_entries_size_prefix_le(es, i + 1);
    }
}

/// Extending a determined run of entries by one recorded entry keeps it
/// determined.
pub proof fn lemma_entries_build_step(
    es: Seq<Entry>,
    e: Entry,
    dirs0: Seq<Dir>,
    files0: Seq<(Seq<char>, u64)>,
    errs0: Seq<Seq<char>>,
    dirs1: Seq<Dir>,
    files1: Seq<(Seq<char>, u64)>,
    errs1: Seq<Seq<char>>,
)
    requires
        entries_build(es, dirs0, files0, errs0),
        entry_step(e, dirs0, files0, errs0, dirs1, files1, errs1),
    ensures
        entries_build(es.push(e), dirs1, files1, errs1),
{
    assert(es.push(e).drop_last() =~= es);
    assert(es.push(e).last() == e);
    match e {
        Entry::Faulty => {
            assert(errs1.drop_last() =~= errs0);
        },
        Entry::TypeUnknown { name } => {
            assert(errs1.drop_last() =~= errs0);
        },
        Entry::FileFound { name, size } => {
            assert(files1.drop_last() =~= files0);
        },
        Entry::DirFound { name, listing } => {
            match listing {
                Listing::Unreadable => {
                    assert(errs1.drop_last() =~= errs0);
                },
                Listing::Listed(_) => {},
            }
        },
    }
}

/// A built node aggregates exactly the size its listing determines.
pub proof fn lemma_builds_to_size(name: Seq<char>, l: Listing, d: Dir)
    requires
        builds_to(name, l, d),
    ensures
        d.size as nat == listing_size(l),
    decreases l,
{
    match l {
        Listing::Unreadable => {},
        Listing::Listed(v) => {
            lemma_entries_build_sums(v@, d.dirs@, files_view(d.files@), errs_view(d.errs@));
        },
    }
}

/// The file sizes and subdirectory sizes of a determined run of entries
/// sum to exactly what the run contributes.
pub proof fn lemma_entries_build_sums(
    es: Seq<Entry>,
    dirs: Seq<Dir>,
    files: Seq<(Seq<char>, u64)>,
    errs: Seq<Seq<char>>,
)
    requires
        entries_build(es, dirs, files, errs),
    ensures
        files_sum(files) + dirs_sum(dirs) == entries_size(es),
    decreases es,
{
    if es.len() > 0 {
        assert(entries_size(es) == entries_size(es.drop_last()) + entry_size(es.last()));
        match es.last() {
            Entry::Faulty => {
                lemma_entries_build_sums(es.drop_last(), dirs, files, errs.drop_last());
            },
            Entry::TypeUnknown { name } => {
                lemma_entries_build_sums(es.drop_last(), dirs, files, errs.drop_last());
            },
            Entry::FileFound { name, size } => {
                lemma_entries_build_sums(es.drop_last(), dirs, files.drop_last(), errs);
            },
            Entry::DirFound { name, listing } => {
                match listing {
                    Listing::Unreadable => {
                        lemma_entries_build_sums(es.drop_last(), dirs, files, errs.drop_last());
                    },
                    Listing::Listed(_) => {
                        lemma_builds_to_size(name@, listing, dirs.last());
                        lemma_entries_build_sums(es.drop_last(), dirs.drop_last(), files, errs);
                    },
                }
            },
        }
    }
}

/// A built node is well-formed.
pub proof fn lemma_builds_to_wf(name: Seq<char>, l: Listing, d: Dir)
    requires
        builds_to(name, l, d),
    ensures
        dir_wf(d),
    decreases l,
{
    match l {
        Listing::Unreadable => {},
        Listing::Listed(v) => {
            lemma_entries_build_wf(v@, d.dirs@, files_view(d.files@), errs_view(d.errs@));
        },
    }
}

/// Every subdirectory node of a determined run of entries is well-formed.
pub proof fn lemma_entries_build_wf(
    es: Seq<Entry>,
    dirs: Seq<Dir>,
    files: Seq<(Seq<char>, u64)>,
    errs: Seq<Seq<char>>,
)
    requires
        entries_build(es, dirs, files, errs),
    ensures
        forall|i: int| 0 <= i < dirs.len() ==> dir_wf(#[trigger] dirs[i]),
    decreases es,
{
    if es.len() > 0 {
        match es.last() {
            Entry::Faulty => {
                lemma_entries_build_wf(es.drop_last(), dirs, files, errs.drop_last());
            },
            Entry::TypeUnknown { name } => {
                lemma_entries_build_wf(es.drop_last(), dirs, files, errs.drop_last());
            },
            Entry::FileFound { name, size } => {
                lemma_entries_build_wf(es.drop_last(), dirs, files.drop_last(), errs);
            },
            Entry::DirFound { name, listing } => {
                match listing {
                    Listing::Unreadable => {
                        lemma_entries_build_wf(es.drop_last(), dirs, files, errs.drop_last());
                    },
                    Listing::Listed(_) => {
                        lemma_builds_to_wf(name@, listing, dirs.last());
                        lemma_entries_build_wf(es.drop_last(), dirs.drop_last(), files, errs);
                        assert forall|i: int| 0 <= i < dirs.len() implies dir_wf(#[trigger] dirs[i]) by {
                            if i < dirs.len() - 1 {
                                assert(dirs.drop_last()[i] == dirs[i]);
                            }
                        }
                    },
                }
            },
        }
    }
}

/// The idempotence law: one observed listing determines one tree. Two
/// builds from the same listing, under the same name, yield structurally
/// equal trees.
pub proof fn lemma_builds_to_deterministic(name: Seq<char>, l: Listing, d1: Dir, d2: Dir)
    requires
        builds_to(name, l, d1),
        builds_to(name, l, d2),
    ensures
        similar(d1, d2),
    decreases l,
{
    match l {
        Listing::Unreadable => {},
        Listing::Listed(v) => {
            lemma_entries_build_deterministic(
                v@,
                d1.dirs@,
                files_view(d1.files@),
                errs_view(d1.errs@),
                d2.dirs@,
                files_view(d2.files@),
                errs_view(d2.errs@),
            );
            lemma_builds_to_size(name, l, d1);
            lemma_builds_to_size(name, l, d2);
        },
    }
}

/// A run of observed entries determines its three child lists: any two
/// runs it determines agree on the file records, the failure labels, and
/// the subdirectories up to structural equality.
pub proof fn lemma_entries_build_deterministic(
    es: Seq<Entry>,
    ds1: Seq<Dir>,
    fs1: Seq<(Seq<char>, u64)>,
    rs1: Seq<Seq<char>>,
    ds2: Seq<Dir>,
    fs2: Seq<(Seq<char>, u64)>,
    rs2: Seq<Seq<char>>,
)
    requires
        entries_build(es, ds1, fs1, rs1),
        entries_build(es, ds2, fs2, rs2),
    ensures
        fs1 == fs2,
        rs1 == rs2,
        ds1.len() == ds2.len(),
        forall|i: int| 0 <= i < ds1.len() ==> similar(#[trigger] ds1[i], ds2[i]),
    decreases es,
{
    if es.len() == 0 {
        assert(fs1 =~= fs2);
        assert(rs1 =~= rs2);
    } else {
        match es.last() {
            Entry::Faulty => {
                lemma_entries_build_deterministic(
                    es.drop_last(), ds1, fs1, rs1.drop_last(), ds2, fs2, rs2.drop_last());
                assert(rs1 =~= rs1.drop_last().push(rs1.last()));
                assert(rs2 =~= rs2.drop_last().push(rs2.last()));
            },
            Entry::TypeUnknown { name } => {
                lemma_entries_build_deterministic(
                    es.drop_last(), ds1, fs1, rs1.drop_last(), ds2, fs2, rs2.drop_last());
                assert(rs1 =~= rs1.drop_last().push(rs1.last()));
                assert(rs2 =~= rs2.drop_last().push(rs2.last()));
            },
            Entry::FileFound { name, size } => {
                lemma_entries_build_deterministic(
                    es.drop_last(), ds1, fs1.drop_last(), rs1, ds2, fs2.drop_last(), rs2);
                assert(fs1 =~= fs1.drop_last().push(fs1.last()));
                assert(fs2 =~= fs2.drop_last().push(fs2.last()));
            },
            Entry::DirFound { name, listing } => {
                match listing {
                    Listing::Unreadable => {
                        lemma_entries_build_deterministic(
                            es.drop_last(), ds1, fs1, rs1.drop_last(), ds2, fs2, rs2.drop_last());
                        assert(rs1 =~= rs1.drop_last().push(rs1.last()));
                        assert(rs2 =~= rs2.drop_last().push(rs2.last()));
                    },
                    Listing::Listed(_) => {
                        lemma_builds_to_deterministic(name@, listing, ds1.last(), ds2.last());
                        lemma_entries_build_deterministic(
                            es.drop_last(), ds1.drop_last(), fs1, rs1, ds2.drop_last(), fs2, rs2);
                        assert forall|i: int| 0 <= i < ds1.len() implies similar(
                            #[trigger] ds1[i], ds2[i]) by {
                            if i < ds1.len() - 1 {
                                assert(ds1.drop_last()[i] == ds1[i]);
                                assert(ds2.drop_last()[i] == ds2[i]);
                            }
                        }
                    },
                }
            },
        }
    }
}

/// Records what one observed entry contributes to the lists that its
/// parent accumulates: a built subdirectory, a file record, or an absorbed
/// failure, appended to exactly one of the three.
pub fn parse_entry(
    errs: &mut Vec<ErrEntry>,
    dirs: &mut Vec<Dir>,
    files: &mut Vec<File>,
    entry: &Entry,
)
    requires
        entry_size(*entry) <= u64::MAX,
    ensures
        entry_step(
            *entry,
            old(dirs)@,
            files_view(old(files)@),
            errs_view(old(errs)@),
            final(dirs)@,
            files_view(final(files)@),
            errs_view(final(errs)@),
        ),
    decreases *entry,
{
    match entry {
        Entry::Faulty => {
            errs.push(ErrEntry { name: String::new() });
            proof {
                assert(errs_view(errs@) =~= errs_view(old(errs)@).push(Seq::<char>::empty()));
            }
        },
        Entry::TypeUnknown { name } => {
            errs.push(ErrEntry { name: name.clone() });
            proof {
                assert(errs_view(errs@) =~= errs_view(old(errs)@).push(name@));
            }
        },
        Entry::FileFound { name, size } => {
            let file_size: u64 = match size {
                Option::Some(s) => *s,
                Option::None => 0,
            };
            files.push(File { name: name.clone(), size: file_size });
            proof {
                assert(files_view(files@) =~= files_view(old(files)@).push((name@, size_or_zero(*size))));
            }
        },
        Entry::DirFound { name, listing } => {
            let result = build(name.as_str(), name.clone(), listing);
            match result {
                Result::Ok(dir) => {
                    dirs.push(dir);
                    proof {
                        assert(dirs@.drop_last() =~= old(dirs)@);
                    }
                },
                Result::Err(_) => {
                    errs.push(ErrEntry { name: name.clone() });
                    proof {
                        assert(errs_view(errs@) =~= errs_view(old(errs)@).push(name@));
                    }
                },
            }
        },
    }
}

/// Builds the node for one directory from what its listing observed.
///
/// Only the failure to list this directory itself propagates as an error,
/// labelled with the attempted path; every per-entry failure has already
/// been absorbed into the entries and ends up in the node's `errs` list.
#[verifier::loop_isolation(false)]
pub fn build(path: &str, name: String, listing: &Listing) -> (r: Result<Dir, ErrEntry>)
    requires
        listing_size(*listing) <= u64::MAX,
    ensures
        match r {
            Result::Ok(d) => {
                &&& !(*listing is Unreadable)
                &&& builds_to(name@, *listing, d)
                &&& dir_wf(d)
                &&& d.size as nat == listing_size(*listing)
            },
            Result::Err(e) => {
                &&& *listing is Unreadable
                &&& e.name@ == path@
            },
        },
    decreases *listing,
{
    match listing {
        Listing::Unreadable => Result::Err(ErrEntry { name: path.to_owned() }),
        Listing::Listed(v) => {
            let mut errs: Vec<ErrEntry> = Vec::new();
            let mut dirs: Vec<Dir> = Vec::new();
            let mut files: Vec<File> = Vec::new();
            let mut i: usize = 0;
            while i < v.len()
                invariant
                    i <= v.len(),
                    entries_size(v@) <= u64::MAX,
                    entries_build(v@.subrange(0, i as int), dirs@, files_view(files@), errs_view(errs@)),
                decreases v.len() - i,
            {
                let ghost pre = v@.subrange(0, i as int);
                let ghost dirs0 = dirs@;
                let ghost files0 = files_view(files@);
                let ghost errs0 = errs_view(errs@);
                proof {
                    assert(v@.subrange(0, i as int + 1).drop_last() =~= v@.subrange(0, i as int));
                    assert(v@.subrange(0, i as int + 1).last() == v@[i as int]);
                    assert(entries_size(v@.subrange(0, i as int + 1))
                        == entries_size(v@.subrange(0, i as int)) + entry_size(v@[i as int]));
                    lemma_entries_size_prefix_le(v@, i as int + 1);
                    assert(decreases_to!(*listing => listing->Listed_0));
                    assert(decreases_to!(v@ => v@[i as int]));
                    assert(decreases_to!(*listing => v@[i as int]));
                }
                parse_entry(&mut errs, &mut dirs, &mut files, &v[i]);
                proof {
                    lemma_entries_build_step(
                        pre,
                        v@[i as int],
                        dirs0,
                        files0,
                        errs0,
                        dirs@,
                        files_view(files@),
                        errs_view(errs@),
                    );
                    assert(pre.push(v@[i as int]) =~= v@.subrange(0, i as int + 1));
                }
                i = i + 1;
            }
            proof {
                assert(v@.subrange(0, i as int) =~= v@);
                lemma_entries_build_sums(v@, dirs@, files_view(files@), errs_view(errs@));
                lemma_entries_build_wf(v@, dirs@, files_view(files@), errs_view(errs@));
            }
            let mut files_size: u64 = 0;
            let mut k: usize = 0;
            while k < files.len()
                invariant
                    k <= files.len(),
                    files_sum(files_view(files@)) + dirs_sum(dirs@) <= u64::MAX,
                    files_size as nat == files_sum(files_view(files@).subrange(0, k as int)),
                decreases files.len() - k,
            {
                proof {
                    assert(files_view(files@).subrange(0, k as int + 1).drop_last()
                        =~= files_view(files@).subrange(0, k as int));
                    assert(files_view(files@).subrange(0, k as int + 1).last()
                        == (files@[k as int].name@, files@[k as int].size));
                    lemma_files_sum_prefix_le(files_view(files@), k as int + 1);
                }
                files_size = files_size + files[k].size;
                k = k + 1;
            }
            proof {
                assert(files_view(files@).subrange(0, files@.len() as int) =~= files_view(files@));
            }
            let mut dirs_size: u64 = 0;
            let mut j: usize = 0;
            while j < dirs.len()
                invariant
                    j <= dirs.len(),
                    files_size as nat == files_sum(files_view(files@)),
                    files_sum(files_view(files@)) + dirs_sum(dirs@) <= u64::MAX,
                    dirs_size as nat == dirs_sum(dirs@.subrange(0, j as int)),
                decreases dirs.len() - j,
            {
                proof {
                    assert(dirs@.subrange(0, j as int + 1).drop_last()
                        =~= dirs@.subrange(0, j as int));
                    assert(dirs@.subrange(0, j as int + 1).last() == dirs@[j as int]);
                    lemma_dirs_sum_prefix_le(dirs@, j as int + 1);
                }
                dirs_size = dirs_size + dirs[j].size;
                j = j + 1;
            }
            proof {
                assert(dirs@.subrange(0, dirs@.len() as int) =~= dirs@);
            }
            let total_size = files_size + dirs_size;
            Result::Ok(Dir { name, dirs, errs, files, size: total_size })
        },
    }
}

/// Computes the total size a listing will aggregate to, or `None` when
/// that total does not fit in a byte count. A caller checks this before
/// building, since `build` demands a total within machine limits.
#[verifier::loop_isolation(false)]
pub fn listing_total(l: &Listing) -> (r: Option<u64>)
    ensures
        match r {
            Option::Some(t) => t as nat == listing_size(*l),
            Option::None => listing_size(*l) > u64::MAX,
        },
    decreases *l,
{
    match l {
        Listing::Unreadable => Option::Some(0),
        Listing::Listed(v) => {
            let mut acc: u64 = 0;
            let mut i: usize = 0;
            while i < v.len()
                invariant
                    i <= v.len(),
                    acc as nat == entries_size(v@.subrange(0, i as int)),
                decreases v.len() - i,
            {
                proof {
                    assert(v@.subrange(0, i as int + 1).drop_last() =~= v@.subrange(0, i as int));
                    assert(v@.subrange(0, i as int + 1).last() == v@[i as int]);
                    assert(entries_size(v@.subrange(0, i as int + 1))
                        == entries_size(v@.subrange(0, i as int)) + entry_size(v@[i as int]));
                    assert(decreases_to!(*l => l->Listed_0));
                    assert(decreases_to!(v@ => v@[i as int]));
                    assert(decreases_to!(*l => v@[i as int]));
                }
                let step: u64 = match &v[i] {
                    Entry::Faulty => 0,
                    Entry::TypeUnknown { .. } => 0,
                    Entry::FileFound { size, .. } => match size {
                        Option::Some(s) => *s,
                        Option::None => 0,
                    },
                    Entry::DirFound { listing, .. } => match listing_total(listing) {
                        Option::Some(t) => t,
                        Option::None => {
                            proof {
                                lemma_entries_size_prefix_le(v@, i as int + 1);
                            }
                            return Option::None;
                        },
                    },
                };
                if acc > u64::MAX - step {
                    proof {
                        lemma_entries_size_prefix_le(v@, i as int + 1);
                    }
                    return Option::None;
                }
                acc = acc + step;
                i = i + 1;
            }
            proof {
                assert(v@.subrange(0, i as int) =~= v@);
            }
            Option::Some(acc)
        },
    }
}

} // verus!
