//! Full-tree reachability audit: every real file under the three audited
//! roots should be reachable through its legacy alias `/usr/<relative path>`.
use vstd::prelude::*;
use crate::lits;
use crate::bytes::copy_bytes;
use crate::remap::{join, resolve, spec_candidates, spec_first_present, spec_join, Roots};

verus! {

/// Why a real file is not reachable through its alias.
#[derive(Debug, Clone, Copy, PartialEq, Eq, Structural)]
pub enum MissReason {
    /// Not a resolver bug: the source itself is a dangling symlink.
    SourceIsDanglingSymlink,
    NoAliasResolved,
}

/// A real file that its legacy alias does not reach.
pub struct Miss {
    pub real_path: Vec<u8>,
    pub alias_tried: Vec<u8>,
    pub reason: MissReason,
}

/// The audit of one real root.
pub struct AuditResult {
    pub root_label: &'static str,
    pub checked: usize,
    pub misses: Vec<Miss>,
}

impl Miss {
    /// The real path, the alias tried and the reason, as values.
    pub open spec fn parts(&self) -> (Seq<u8>, Seq<u8>, MissReason) {
        (self.real_path@, self.alias_tried@, self.reason)
    }
}

/// The parts of each miss of `ms`.
pub open spec fn miss_parts(ms: Seq<Miss>) -> Seq<(Seq<u8>, Seq<u8>, MissReason)> {
    ms.map_values(|m: Miss| m.parts())
}

/// The legacy alias under which the file at `rel` below a real root should be
/// reachable: `/usr/<rel>`.
pub open spec fn alias_of(rel: Seq<u8>) -> Seq<u8> {
    spec_join(lits::lit_abs_usr(), rel)
}

/// The misses of an audit of the files `rels` below `root`, given for each
/// file `None` when its alias resolved, else the reason why it did not.
pub open spec fn spec_misses(
    root: Seq<u8>,
    rels: Seq<Seq<u8>>,
    outcomes: Seq<Option<MissReason>>,
) -> Seq<(Seq<u8>, Seq<u8>, MissReason)>
    decreases rels.len(),
{
    if rels.len() == 0 || outcomes.len() == 0 {
        seq![]
    } else {
        let prev = spec_misses(root, rels.drop_last(), outcomes.drop_last());
        match outcomes.last() {
            None => prev,
            Some(reason) => prev.push((spec_join(root, rels.last()), alias_of(rels.last()), reason)),
        }
    }
}

/// The outcome for a file whose alias did (`resolved`) or did not resolve,
/// given whether an entry is reachable at the real path (`reachable`,
/// following links) and whether one is present there (`entry_present`, not
/// following links): no miss when the alias resolved; a dangling symlink at
/// the source when nothing is reachable yet the link is present; otherwise a
/// genuine gap.
pub open spec fn spec_classify(resolved: bool, reachable: bool, entry_present: bool) -> Option<
    MissReason,
> {
    if resolved {
        None
    } else if !reachable && entry_present {
        Some(MissReason::SourceIsDanglingSymlink)
    } else {
        Some(MissReason::NoAliasResolved)
    }
}

/// The outcome for a file, given whether its alias resolved (`resolved`),
/// whether an entry is reachable at its real path (`reachable`) and whether
/// one is present there (`entry_present`); see `spec_classify`.
pub fn classify(resolved: bool, reachable: bool, entry_present: bool) -> (r: Option<MissReason>)
    ensures
        r == spec_classify(resolved, reachable, entry_present),
{
    if resolved {
        None
    } else if !reachable && entry_present {
        Some(MissReason::SourceIsDanglingSymlink)
    } else {
        Some(MissReason::NoAliasResolved)
    }
}

/// The audit of the files `relatives` below `root`, labelled `label`, given
/// for each file the outcome of probing it (`None`: its alias resolved).
pub fn audit_from_outcomes(
    label: &'static str,
    root: &[u8],
    relatives: &Vec<Vec<u8>>,
    outcomes: &Vec<Option<MissReason>>,
) -> (r: AuditResult)
    requires
        relatives.len() == outcomes.len(),
    ensures
        r.root_label == label,
        r.checked == relatives.len(),
        miss_parts(r.misses@) == spec_misses(root@, relatives.deep_view(), outcomes@),
{
    let abs_usr = lits::abs_usr();
    let mut misses: Vec<Miss> = Vec::new();
    let mut i: usize = 0;
    assert(miss_parts(misses@) =~= seq![]);
    while i < relatives.len()
        invariant
            i <= relatives.len(),
            relatives.len() == outcomes.len(),
            abs_usr@ == lits::lit_abs_usr(),
            miss_parts(misses@) == spec_misses(
                root@,
                relatives.deep_view().take(i as int),
                outcomes@.take(i as int),
            ),
        decreases relatives.len() - i,
    {
        let ghost rels_next = relatives.deep_view().take(i + 1);
        let ghost outs_next = outcomes@.take(i + 1);
        assert(rels_next.drop_last() =~= relatives.deep_view().take(i as int));
        assert(outs_next.drop_last() =~= outcomes@.take(i as int));
        assert(rels_next.last() == relatives@[i as int]@);
        assert(outs_next.last() == outcomes@[i as int]);
        match outcomes[i] {
            None => {},
            Some(reason) => {
                let real_path = join(root, &relatives[i]);
                let alias_tried = join(&abs_usr, &relatives[i]);
                let ghost before = misses@;
                misses.push(Miss { real_path, alias_tried, reason });
                assert(miss_parts(misses@) =~= miss_parts(before).push(
                    (real_path@, alias_tried@, reason),
                ));
            },
        }
        i = i + 1;
    }
    assert(relatives.deep_view().take(relatives.len() as int) =~= relatives.deep_view());
    assert(outcomes@.take(outcomes.len() as int) =~= outcomes@);
    AuditResult { root_label: label, checked: relatives.len(), misses }
}

/// A real file below a root, by its path relative to the root, with what
/// the file system answered for it: for each candidate of its alias, in
/// order, whether that candidate is there (`present`); and, when none is,
/// whether an entry is reachable at the real path following links
/// (`reachable`) and whether one is there without following them
/// (`entry_present`).
pub struct ProbedFile {
    pub relative: Vec<u8>,
    pub present: Vec<bool>,
    pub reachable: bool,
    pub entry_present: bool,
}

/// The legacy alias of the file at `rel` below a real root: `/usr/<rel>`.
/// Its candidates are the paths whose presence a `ProbedFile` reports.
pub fn alias_for(rel: &[u8]) -> (r: Vec<u8>)
    ensures
        r@ == alias_of(rel@),
{
    let abs_usr = lits::abs_usr();
    join(&abs_usr, rel)
}

/// The outcome for the file `f`: no miss when a candidate of its alias is
/// present, else the classification of the answers for its real path.
pub open spec fn file_outcome(f: ProbedFile, roots: &Roots) -> Option<MissReason> {
    spec_classify(
        spec_first_present(spec_candidates(alias_of(f.relative@), roots), f.present@) is Some,
        f.reachable,
        f.entry_present,
    )
}

/// The relative paths of `files`.
pub open spec fn relatives_of(files: Seq<ProbedFile>) -> Seq<Seq<u8>> {
    files.map_values(|f: ProbedFile| f.relative@)
}

/// The outcome for each of `files`.
pub open spec fn outcomes_of(files: Seq<ProbedFile>, roots: &Roots) -> Seq<Option<MissReason>> {
    files.map_values(|f: ProbedFile| file_outcome(f, roots))
}

/// `r` is the audit, labelled `label`, of `files` below `root`: it counts
/// every file, and its misses are, in order, the files with a miss as
/// outcome, each with its real path, its alias and the reason.
pub open spec fn is_audit_of(
    r: &AuditResult,
    label: &'static str,
    root: Seq<u8>,
    files: Seq<ProbedFile>,
    roots: &Roots,
) -> bool {
    &&& r.root_label == label
    &&& r.checked == files.len()
    &&& miss_parts(r.misses@) == spec_misses(root, relatives_of(files), outcomes_of(files, roots))
}

/// Audit the files found below the real root `root`, each with the file
/// system's answers for it: each one must be reachable through
/// `/usr/<relative path>`.
pub fn audit_one_root(
    label: &'static str,
    root: &[u8],
    files: &Vec<ProbedFile>,
    roots: &Roots,
) -> (r: AuditResult)
    ensures
        is_audit_of(&r, label, root@, files@, roots),
{
    let mut relatives: Vec<Vec<u8>> = Vec::new();
    let mut outcomes: Vec<Option<MissReason>> = Vec::new();
    let mut i: usize = 0;
    while i < files.len()
        invariant
            i <= files.len(),
            relatives.deep_view() == relatives_of(files@.take(i as int)),
            outcomes@ == outcomes_of(files@.take(i as int), roots),
        decreases files.len() - i,
    {
        let f = &files[i];
        let alias = alias_for(&f.relative);
        let found = resolve(&alias, roots, &f.present);
        let outcome = classify(found.is_some(), f.reachable, f.entry_present);
        let ghost rels0 = relatives.deep_view();
        let ghost before = relatives@;
        let rel = copy_bytes(&f.relative);
        relatives.push(rel);
        assert(relatives@ == before.push(rel));
        assert(relatives.deep_view()[rels0.len() as int] == f.relative@);
        assert(forall|k: int| 0 <= k < rels0.len() ==> relatives.deep_view()[k] == rels0[k]);
        outcomes.push(outcome);
        proof {
            let next = files@.take(i + 1);
            assert(next =~= files@.take(i as int).push(*f));
            assert(relatives.deep_view() =~= rels0.push(f.relative@));
            assert(relatives_of(next) =~= relatives_of(files@.take(i as int)).push(f.relative@));
            assert(outcomes_of(next, roots) =~= outcomes_of(files@.take(i as int), roots).push(
                file_outcome(*f, roots),
            ));
        }
        i = i + 1;
    }
    assert(files@.take(files.len() as int) =~= files@);
    audit_from_outcomes(label, root, &relatives, &outcomes)
}

/// Audit the three real roots, in this order: syshub (its files found
/// without descending into the musl sysroot below it), the musl sysroot,
/// and the zexlib union; each given the files found below it, with the
/// file system's answers for them.
pub fn full_audit(
    roots: &Roots,
    syshub_files: &Vec<ProbedFile>,
    musl_files: &Vec<ProbedFile>,
    union_files: &Vec<ProbedFile>,
) -> (r: Vec<AuditResult>)
    ensures
        r.len() == 3,
        is_audit_of(&r@[0], "syshub", roots.syshub@, syshub_files@, roots),
        is_audit_of(&r@[1], "MUSL_SYSDIR", roots.musl_sysdir@, musl_files@, roots),
        is_audit_of(&r@[2], "zexlib/union", roots.union@, union_files@, roots),
{
    let mut r: Vec<AuditResult> = Vec::new();
    r.push(audit_one_root("syshub", &roots.syshub, syshub_files, roots));
    r.push(audit_one_root("MUSL_SYSDIR", &roots.musl_sysdir, musl_files, roots));
    r.push(audit_one_root("zexlib/union", &roots.union, union_files, roots));
    r
}

} // verus!
