//! The bookkeeping of a depth-first walk over a directory tree: which
//! directory to list next, and what a listing adds. The caller lists each
//! directory and reports its entries.
use vstd::prelude::*;
use crate::bytes::{copy_bytes, same_path, spec_same_path};
use crate::remap::{join, spec_join, Roots};

verus! {

/// What `lstat` says an entry is.
#[derive(Debug, Clone, Copy, PartialEq, Eq, Structural)]
pub enum EntryKind {
    Directory,
    /// Anything that is not a directory, symbolic links included.
    NotDirectory,
    /// The entry could not be examined.
    Unknown,
}

/// A walk that collects every non-directory entry below a root, by its
/// path relative to the root, skipping the entry at `exclude` (the same
/// path component by component).
pub struct TreeWalk {
    exclude: Option<Vec<u8>>,
    pending: Vec<(Vec<u8>, Vec<u8>)>,
    files: Vec<Vec<u8>>,
}

/// The path that an optional excluded path holds.
pub open spec fn opt_path(o: Option<Vec<u8>>) -> Option<Seq<u8>> {
    match o {
        Some(v) => Some(v@),
        None => None,
    }
}

/// The entry `name` of the directory `dir` is the excluded path, compared
/// component by component.
pub open spec fn is_excluded(dir: Seq<u8>, name: Seq<u8>, exclude: Option<Seq<u8>>) -> bool {
    exclude matches Some(e) && spec_same_path(e, spec_join(dir, name))
}

/// The directories, as (path, path relative to the root) pairs, that a
/// listing `entries` of `dir` (at `rel` below the root) adds to the walk.
pub open spec fn spec_subdirs(
    dir: Seq<u8>,
    rel: Seq<u8>,
    entries: Seq<(Seq<u8>, EntryKind)>,
    exclude: Option<Seq<u8>>,
) -> Seq<(Seq<u8>, Seq<u8>)>
    decreases entries.len(),
{
    if entries.len() == 0 {
        seq![]
    } else {
        let prev = spec_subdirs(dir, rel, entries.drop_last(), exclude);
        let (name, kind) = entries.last();
        if !is_excluded(dir, name, exclude) && kind == EntryKind::Directory {
            prev.push((spec_join(dir, name), spec_join(rel, name)))
        } else {
            prev
        }
    }
}

/// The files, by path relative to the root, that a listing `entries` of
/// `dir` (at `rel` below the root) adds to the walk.
pub open spec fn spec_subfiles(
    dir: Seq<u8>,
    rel: Seq<u8>,
    entries: Seq<(Seq<u8>, EntryKind)>,
    exclude: Option<Seq<u8>>,
) -> Seq<Seq<u8>>
    decreases entries.len(),
{
    if entries.len() == 0 {
        seq![]
    } else {
        let prev = spec_subfiles(dir, rel, entries.drop_last(), exclude);
        let (name, kind) = entries.last();
        if !is_excluded(dir, name, exclude) && kind == EntryKind::NotDirectory {
            prev.push(spec_join(rel, name))
        } else {
            prev
        }
    }
}

/// The names and kinds of a listing.
pub open spec fn entries_view(entries: Seq<(Vec<u8>, EntryKind)>) -> Seq<(Seq<u8>, EntryKind)> {
    entries.map_values(|e: (Vec<u8>, EntryKind)| (e.0@, e.1))
}

/// The (path, relative path) pairs of a stack of directories.
pub open spec fn pairs_view(ps: Seq<(Vec<u8>, Vec<u8>)>) -> Seq<(Seq<u8>, Seq<u8>)> {
    ps.map_values(|p: (Vec<u8>, Vec<u8>)| (p.0@, p.1@))
}

impl TreeWalk {
    /// The directories still to list, the last one next.
    pub closed spec fn pending_view(&self) -> Seq<(Seq<u8>, Seq<u8>)> {
        pairs_view(self.pending@)
    }

    /// The files found so far, by path relative to the root.
    pub closed spec fn files_view(&self) -> Seq<Seq<u8>> {
        self.files.deep_view()
    }

    /// The excluded path.
    pub closed spec fn exclude_view(&self) -> Option<Seq<u8>> {
        opt_path(self.exclude)
    }

    /// A walk of the tree at `root` that skips the entry at `exclude`.
    pub fn new(root: &[u8], exclude: Option<&[u8]>) -> (w: TreeWalk)
        ensures
            w.pending_view() == seq![(root@, Seq::<u8>::empty())],
            w.files_view() == Seq::<Seq<u8>>::empty(),
            w.exclude_view() == (match exclude {
                Some(e) => Some(e@),
                None => None,
            }),
    {
        let mut pending: Vec<(Vec<u8>, Vec<u8>)> = Vec::new();
        pending.push((copy_bytes(root), Vec::new()));
        let ex = match exclude {
            Some(e) => Some(copy_bytes(e)),
            None => None,
        };
        let w = TreeWalk { exclude: ex, pending, files: Vec::new() };
        assert(w.pending_view() =~= seq![(root@, Seq::<u8>::empty())]);
        assert(w.files_view() =~= Seq::<Seq<u8>>::empty());
        w
    }

    /// The next directory to list, as (path, path relative to the root):
    /// the one pushed last. `None` once the walk is over.
    pub fn next_dir(&mut self) -> (r: Option<(Vec<u8>, Vec<u8>)>)
        ensures
            final(self).files_view() == old(self).files_view(),
            final(self).exclude_view() == old(self).exclude_view(),
            old(self).pending_view().len() == 0 ==> r is None && final(self).pending_view()
                == old(self).pending_view(),
            old(self).pending_view().len() > 0 ==> {
                &&& r matches Some(d)
                &&& (d.0@, d.1@) == old(self).pending_view().last()
                &&& final(self).pending_view() == old(self).pending_view().drop_last()
            },
    {
        let r = self.pending.pop();
        proof {
            if old(self).pending@.len() > 0 {
                assert(pairs_view(self.pending@) =~= pairs_view(old(self).pending@).drop_last());
            }
        }
        r
    }

    /// Take in the listing `entries` (name and kind of each entry) of the
    /// directory `dir`, which lies at `rel` below the root: its directories
    /// join the pending ones, its other entries join the files; the excluded
    /// entry and entries that could not be examined are skipped.
    pub fn visit(&mut self, dir: &[u8], rel: &[u8], entries: &Vec<(Vec<u8>, EntryKind)>)
        ensures
            final(self).exclude_view() == old(self).exclude_view(),
            final(self).pending_view() == old(self).pending_view() + spec_subdirs(
                dir@,
                rel@,
                entries_view(entries@),
                old(self).exclude_view(),
            ),
            final(self).files_view() == old(self).files_view() + spec_subfiles(
                dir@,
                rel@,
                entries_view(entries@),
                old(self).exclude_view(),
            ),
    {
        let ghost pending0 = pairs_view(self.pending@);
        let ghost files0 = self.files.deep_view();
        let ghost ex = opt_path(self.exclude);
        let mut i: usize = 0;
        assert(entries_view(entries@).take(0) =~= Seq::<(Seq<u8>, EntryKind)>::empty());
        assert(pending0 + spec_subdirs(dir@, rel@, Seq::<(Seq<u8>, EntryKind)>::empty(), ex)
            =~= pending0);
        assert(files0 + spec_subfiles(dir@, rel@, Seq::<(Seq<u8>, EntryKind)>::empty(), ex)
            =~= files0);
        while i < entries.len()
            invariant
                i <= entries.len(),
                opt_path(self.exclude) == ex,
                pairs_view(self.pending@) == pending0 + spec_subdirs(
                    dir@,
                    rel@,
                    entries_view(entries@).take(i as int),
                    ex,
                ),
                self.files.deep_view() == files0 + spec_subfiles(
                    dir@,
                    rel@,
                    entries_view(entries@).take(i as int),
                    ex,
                ),
            decreases entries.len() - i,
        {
            let ghost next = entries_view(entries@).take(i + 1);
            assert(next.drop_last() =~= entries_view(entries@).take(i as int));
            assert(next.last() == (entries@[i as int].0@, entries@[i as int].1));
            let name = &entries[i].0;
            let kind = entries[i].1;
            let path = join(dir, name);
            let excluded = match &self.exclude {
                Some(e) => same_path(e, &path),
                None => false,
            };
            assert(excluded == is_excluded(dir@, name@, ex));
            if !excluded {
                match kind {
                    EntryKind::Directory => {
                        let ghost before = self.pending@;
                        let r = join(rel, name);
                        self.pending.push((path, r));
                        assert(pairs_view(self.pending@) =~= pairs_view(before).push(
                            (spec_join(dir@, name@), spec_join(rel@, name@)),
                        ));
                    },
                    EntryKind::NotDirectory => {
                        let ghost before = self.files.deep_view();
                        let ghost before_v = self.files@;
                        let f = join(rel, name);
                        let ghost fv = f@;
                        self.files.push(f);
                        assert(self.files@ == before_v.push(f));
                        assert(self.files.deep_view()[before.len() as int] == fv);
                        assert(forall|k: int|
                            0 <= k < before.len() ==> self.files.deep_view()[k] == before[k]);
                        assert(self.files.deep_view() =~= before.push(
                            spec_join(rel@, name@),
                        ));
                    },
                    EntryKind::Unknown => {},
                }
            }
            i = i + 1;
        }
        assert(entries_view(entries@).take(entries.len() as int) =~= entries_view(entries@));
    }

    /// The files found, by path relative to the root.
    pub fn into_files(self) -> (r: Vec<Vec<u8>>)
        ensures
            r.deep_view() == self.files_view(),
    {
        self.files
    }
}

/// The walks that the audit makes, in order: syshub (not descending into
/// the musl sysroot below it), the musl sysroot, and the zexlib union.
pub fn audit_walks(roots: &Roots) -> (r: Vec<TreeWalk>)
    ensures
        r.len() == 3,
        r@[0].pending_view() == seq![(roots.syshub@, Seq::<u8>::empty())],
        r@[0].exclude_view() == Some(roots.musl_sysdir@),
        r@[1].pending_view() == seq![(roots.musl_sysdir@, Seq::<u8>::empty())],
        r@[1].exclude_view() == Option::<Seq<u8>>::None,
        r@[2].pending_view() == seq![(roots.union@, Seq::<u8>::empty())],
        r@[2].exclude_view() == Option::<Seq<u8>>::None,
        forall|i: int| 0 <= i < 3 ==> r@[i].files_view() == Seq::<Seq<u8>>::empty(),
{
    let mut r: Vec<TreeWalk> = Vec::new();
    r.push(TreeWalk::new(&roots.syshub, Some(roots.musl_sysdir.as_slice())));
    r.push(TreeWalk::new(&roots.musl_sysdir, None));
    r.push(TreeWalk::new(&roots.union, None));
    r
}

} // verus!
