//! What the `sys-resolver` command decides: the outcome of `resolve <path>`
//! and the tallies and verdict of `doctor`.
use vstd::prelude::*;
use crate::audit::{AuditResult, Miss, MissReason};
use crate::bytes::SEP;
use crate::remap::{in_scope, resolve, spec_candidates, spec_first_present, spec_in_scope, Roots};

verus! {

/// The outcome of `sys-resolver resolve <path>`.
pub enum ResolveReport {
    /// The path is not absolute.
    NotAbsolute,
    /// The path resolves to this real path.
    Found(Vec<u8>),
    /// The path is in scope, but no root holds it.
    NotFound,
    /// The path is out of scope and left alone.
    OutOfScope,
}

impl ResolveReport {
    /// The exit status of the command: 2 for a path that is not absolute,
    /// 0 when it resolved, 1 otherwise.
    pub fn exit_code(&self) -> (r: i32)
        ensures
            r == match self {
                ResolveReport::NotAbsolute => 2i32,
                ResolveReport::Found(_) => 0i32,
                _ => 1i32,
            },
    {
        match self {
            ResolveReport::NotAbsolute => 2,
            ResolveReport::Found(_) => 0,
            _ => 1,
        }
    }
}

/// The real path a report names, if any.
pub open spec fn found_path(r: &ResolveReport) -> Option<Seq<u8>> {
    match r {
        ResolveReport::Found(p) => Some(p@),
        _ => None,
    }
}

/// The outcome of `sys-resolver resolve <path>` on the system with `roots`,
/// given `present`, the file system's answer for each candidate of `path`
/// in order (see `resolve`).
pub fn resolve_report(path: &[u8], roots: &Roots, present: &Vec<bool>) -> (r: ResolveReport)
    ensures
        (r is NotAbsolute) <==> !(path@.len() > 0 && path@[0] == SEP),
        !(r is NotAbsolute) ==> found_path(&r) == spec_first_present(
            spec_candidates(path@, roots),
            present@,
        ),
        r is NotFound ==> spec_in_scope(path@),
        r is OutOfScope ==> !spec_in_scope(path@),
{
    if !(path.len() > 0 && path[0] == SEP) {
        return ResolveReport::NotAbsolute;
    }
    match resolve(path, roots, present) {
        Some(p) => ResolveReport::Found(p),
        None => {
            if in_scope(path) {
                ResolveReport::NotFound
            } else {
                ResolveReport::OutOfScope
            }
        },
    }
}

/// How many of `results` are `None`.
pub open spec fn count_none(results: Seq<Option<Vec<u8>>>) -> nat
    decreases results.len(),
{
    if results.len() == 0 {
        0
    } else {
        count_none(results.drop_last()) + if results.last() is None {
            1nat
        } else {
            0nat
        }
    }
}

/// How many of the well-known probes found nothing, given what each one
/// resolved to.
pub fn probe_misses(resolved: &Vec<Option<Vec<u8>>>) -> (r: usize)
    ensures
        r == count_none(resolved@),
{
    let mut n: usize = 0;
    let mut i: usize = 0;
    while i < resolved.len()
        invariant
            i <= resolved.len(),
            n == count_none(resolved@.take(i as int)),
            n <= i,
        decreases resolved.len() - i,
    {
        assert(resolved@.take(i + 1).drop_last() =~= resolved@.take(i as int));
        if resolved[i].is_none() {
            n = n + 1;
        }
        i = i + 1;
    }
    assert(resolved@.take(resolved.len() as int) =~= resolved@);
    n
}

/// The number of misses in `ms` for the reason `reason`.
pub open spec fn count_reason(ms: Seq<Miss>, reason: MissReason) -> nat
    decreases ms.len(),
{
    if ms.len() == 0 {
        0
    } else {
        count_reason(ms.drop_last(), reason) + if ms.last().reason == reason {
            1nat
        } else {
            0nat
        }
    }
}

/// Every miss has one of the two reasons.
pub proof fn lemma_reasons_partition(ms: Seq<Miss>)
    ensures
        count_reason(ms, MissReason::SourceIsDanglingSymlink) + count_reason(
            ms,
            MissReason::NoAliasResolved,
        ) == ms.len(),
    decreases ms.len(),
{
    if ms.len() > 0 {
        lemma_reasons_partition(ms.drop_last());
    }
}

impl AuditResult {
    /// How many misses are dangling symlinks at the source.
    pub fn dangling_count(&self) -> (r: usize)
        ensures
            r == count_reason(self.misses@, MissReason::SourceIsDanglingSymlink),
    {
        let mut n: usize = 0;
        let mut i: usize = 0;
        while i < self.misses.len()
            invariant
                i <= self.misses.len(),
                n == count_reason(self.misses@.take(i as int), MissReason::SourceIsDanglingSymlink),
                n <= i,
            decreases self.misses.len() - i,
        {
            assert(self.misses@.take(i + 1).drop_last() =~= self.misses@.take(i as int));
            if self.misses[i].reason == MissReason::SourceIsDanglingSymlink {
                n = n + 1;
            }
            i = i + 1;
        }
        assert(self.misses@.take(self.misses.len() as int) =~= self.misses@);
        n
    }

    /// How many misses are genuine gaps: a real file that no alias reaches.
    pub fn gap_count(&self) -> (r: usize)
        ensures
            r == count_reason(self.misses@, MissReason::NoAliasResolved),
    {
        let d: usize = self.dangling_count();
        proof {
            lemma_reasons_partition(self.misses@);
        }
        self.misses.len() - d
    }
}

/// The sum of the files checked by `rs`.
pub open spec fn total_checked(rs: Seq<AuditResult>) -> nat
    decreases rs.len(),
{
    if rs.len() == 0 {
        0
    } else {
        total_checked(rs.drop_last()) + rs.last().checked as nat
    }
}

/// The sum of the misses of `rs` for `reason`.
pub open spec fn total_reason(rs: Seq<AuditResult>, reason: MissReason) -> nat
    decreases rs.len(),
{
    if rs.len() == 0 {
        0
    } else {
        total_reason(rs.drop_last(), reason) + count_reason(rs.last().misses@, reason)
    }
}

/// The totals of `doctor` over all audited roots.
pub struct DoctorTotals {
    pub checked: usize,
    pub dangling: usize,
    pub gaps: usize,
}

/// The sums over `results` of the files checked, the dangling symlinks and
/// the genuine gaps.
pub fn doctor_totals(results: &Vec<AuditResult>) -> (r: DoctorTotals)
    requires
        total_checked(results@) <= usize::MAX,
        total_reason(results@, MissReason::SourceIsDanglingSymlink) <= usize::MAX,
        total_reason(results@, MissReason::NoAliasResolved) <= usize::MAX,
    ensures
        r.checked == total_checked(results@),
        r.dangling == total_reason(results@, MissReason::SourceIsDanglingSymlink),
        r.gaps == total_reason(results@, MissReason::NoAliasResolved),
{
    let mut t = DoctorTotals { checked: 0, dangling: 0, gaps: 0 };
    let mut i: usize = 0;
    while i < results.len()
        invariant
            i <= results.len(),
            total_checked(results@) <= usize::MAX,
            total_reason(results@, MissReason::SourceIsDanglingSymlink) <= usize::MAX,
            total_reason(results@, MissReason::NoAliasResolved) <= usize::MAX,
            t.checked == total_checked(results@.take(i as int)),
            t.dangling == total_reason(results@.take(i as int), MissReason::SourceIsDanglingSymlink),
            t.gaps == total_reason(results@.take(i as int), MissReason::NoAliasResolved),
        decreases results.len() - i,
    {
        assert(results@.take(i + 1).drop_last() =~= results@.take(i as int));
        proof {
            lemma_totals_grow(results@, i as int + 1);
        }
        let d: usize = results[i].dangling_count();
        let g: usize = results[i].gap_count();
        t.checked = t.checked + results[i].checked;
        t.dangling = t.dangling + d;
        t.gaps = t.gaps + g;
        i = i + 1;
    }
    assert(results@.take(results.len() as int) =~= results@);
    t
}

/// A prefix's totals stay within the totals of the whole.
proof fn lemma_totals_grow(rs: Seq<AuditResult>, k: int)
    requires
        0 <= k <= rs.len(),
    ensures
        total_checked(rs.take(k)) <= total_checked(rs),
        total_reason(rs.take(k), MissReason::SourceIsDanglingSymlink) <= total_reason(
            rs,
            MissReason::SourceIsDanglingSymlink,
        ),
        total_reason(rs.take(k), MissReason::NoAliasResolved) <= total_reason(
            rs,
            MissReason::NoAliasResolved,
        ),
    decreases rs.len(),
{
    if k < rs.len() {
        assert(rs.drop_last().take(k) =~= rs.take(k));
        lemma_totals_grow(rs.drop_last(), k);
    } else {
        assert(rs.take(k) =~= rs);
    }
}

/// `doctor` fails when a well-known probe is missing or a real file has no
/// working alias.
pub fn doctor_fails(probe_misses: usize, total_gaps: usize) -> (r: bool)
    ensures
        r == (probe_misses > 0 || total_gaps > 0),
{
    probe_misses > 0 || total_gaps > 0
}

/// The short list of well-known paths that `doctor` probes first.
pub fn well_known_probes() -> (r: Vec<&'static str>)
    ensures
        r@ == seq![
            "/usr/bin/env",
            "/bin/sh",
            "/usr/bin/bash",
            "/usr/bin/python3",
            "/usr/bin/gcc",
            "/usr/bin/ld",
            "/usr/lib/libc.a",
        ],
{
    let mut r: Vec<&'static str> = Vec::new();
    r.push("/usr/bin/env");
    r.push("/bin/sh");
    r.push("/usr/bin/bash");
    r.push("/usr/bin/python3");
    r.push("/usr/bin/gcc");
    r.push("/usr/bin/ld");
    r.push("/usr/lib/libc.a");
    r
}

} // verus!
