//! Dynamic FHS-path resolution against syshub, its musl sysroot, the
//! zexlib union and zaisys.
use vstd::prelude::*;
use vstd::utf8::valid_utf8;
use crate::bytes::{
    collapse_separators, collapse_seps, lemma_collapse_seps, no_double_sep, concat_bytes, copy_bytes, has_prefix, lemma_prefix_push, opt_bytes, same_bytes, starts_with,
    sub_bytes, DOT, SEP,
};
use crate::lits;
use crate::host::decode_text;

verus! {

/// Name of the environment variable that holds an alternate system root
/// (for development and tests); the default is `/`.
pub const ZAIROOT_ENV: &'static str = "ZAINIUM_ZAIROOT";

// ---------------------------------------------------------------------------
// Joining paths
// ---------------------------------------------------------------------------

/// `base` joined with `child`, as `PathBuf::push` does on Unix: an absolute
/// `child` replaces `base`; otherwise a separator goes between them unless
/// `base` is empty or already ends with one.
pub open spec fn spec_join(base: Seq<u8>, child: Seq<u8>) -> Seq<u8> {
    if child.len() > 0 && child[0] == SEP {
        child
    } else if base.len() > 0 && base.last() != SEP {
        base.push(SEP) + child
    } else {
        base + child
    }
}

/// `base` joined with `child` (see `spec_join`).
pub fn join(base: &[u8], child: &[u8]) -> (r: Vec<u8>)
    ensures
        r@ == spec_join(base@, child@),
{
    if child.len() > 0 && child[0] == SEP {
        copy_bytes(child)
    } else if base.len() > 0 && base[base.len() - 1] != SEP {
        let mut r = copy_bytes(base);
        r.push(SEP);
        let mut c = copy_bytes(child);
        r.append(&mut c);
        r
    } else {
        concat_bytes(base, child)
    }
}

// ---------------------------------------------------------------------------
// Roots
// ---------------------------------------------------------------------------

/// The four real base roots, probed in this order.
#[derive(Debug, Clone)]
pub struct Roots {
    pub syshub: Vec<u8>,
    pub musl_sysdir: Vec<u8>,
    pub union: Vec<u8>,
    pub zaisys: Vec<u8>,
}

/// `overlayer` under the system root `sysroot`.
pub open spec fn overlayer_of(sysroot: Seq<u8>) -> Seq<u8> {
    spec_join(sysroot, lits::lit_overlayer())
}

/// The system root named by the value of `ZAINIUM_ZAIROOT`, if it was set:
/// that value when it is non-empty, else `/`.
pub open spec fn spec_system_root(value: Option<Seq<u8>>) -> Seq<u8> {
    match value {
        Some(v) => if v.len() > 0 {
            v
        } else {
            lits::lit_sep_only()
        },
        None => lits::lit_sep_only(),
    }
}

impl Roots {
    /// The roots in the order in which they are probed.
    pub open spec fn probe_order(&self) -> Seq<Seq<u8>> {
        seq![self.syshub@, self.musl_sysdir@, self.union@, self.zaisys@]
    }

    /// These are the roots of the system whose root is `sysroot`.
    pub open spec fn lies_under(&self, sysroot: Seq<u8>) -> bool {
        let o = overlayer_of(sysroot);
        &&& self.syshub@ == spec_join(o, lits::lit_syshub())
        &&& self.musl_sysdir@ == spec_join(o, lits::lit_syshub_musl())
        &&& self.union@ == spec_join(o, lits::lit_zexlib_union())
        &&& self.zaisys@ == spec_join(o, lits::lit_zaisys())
    }

    /// The roots of the system whose root is `sysroot`.
    pub fn under(sysroot: &[u8]) -> (r: Roots)
        ensures
            r.lies_under(sysroot@),
    {
        let overlayer = join(sysroot, &lits::overlayer());
        Roots {
            syshub: join(&overlayer, &lits::syshub()),
            musl_sysdir: join(&overlayer, &lits::syshub_musl()),
            union: join(&overlayer, &lits::zexlib_union()),
            zaisys: join(&overlayer, &lits::zaisys()),
        }
    }

    /// The roots of the system named by `zairoot`, the value of
    /// `ZAINIUM_ZAIROOT` as the caller read it from the environment.
    pub fn from_env(zairoot: Option<&[u8]>) -> (r: Roots)
        ensures
            r.lies_under(
                spec_system_root(
                    match zairoot {
                        Some(v) => Some(v@),
                        None => None,
                    },
                ),
            ),
    {
        let root = system_root(zairoot);
        Self::under(&root)
    }
}

/// The system root: the value of `ZAINIUM_ZAIROOT` (`zairoot`, as read from
/// the environment) when it is set and non-empty, else `/`.
pub fn system_root(zairoot: Option<&[u8]>) -> (r: Vec<u8>)
    ensures
        r@ == spec_system_root(
            match zairoot {
                Some(v) => Some(v@),
                None => None,
            },
        ),
{
    match zairoot {
        Some(v) => if v.len() > 0 {
            copy_bytes(v)
        } else {
            lits::sep_only()
        },
        None => lits::sep_only(),
    }
}

// ---------------------------------------------------------------------------
// Scope guard
// ---------------------------------------------------------------------------

/// At index `i` of `s` stands a separator or a `.` component: what Unix path
/// parsing skips on the way to the next real component.
pub open spec fn is_skippable_at(s: Seq<u8>, i: int) -> bool {
    s[i] == SEP || (s[i] == DOT && (i + 1 == s.len() || s[i + 1] == SEP))
}

/// Where the first component at or after index `i` starts, skipping
/// separators and `.` components; `s.len()` if there is none.
pub open spec fn component_start(s: Seq<u8>, i: int) -> int
    decreases s.len() - i,
{
    if i < 0 || i >= s.len() {
        s.len() as int
    } else if is_skippable_at(s, i) {
        component_start(s, i + 1)
    } else {
        i
    }
}

/// Where the component that starts at index `i` ends: the next separator,
/// or the end of `s`.
pub open spec fn component_end(s: Seq<u8>, i: int) -> int
    decreases s.len() - i,
{
    if i < 0 || i >= s.len() || s[i] == SEP {
        i
    } else {
        component_end(s, i + 1)
    }
}

/// The first component after the root of the absolute path `s` (a name, or
/// `..`), if `s` is absolute and has one.
pub open spec fn first_component(s: Seq<u8>) -> Option<Seq<u8>> {
    if s.len() == 0 || s[0] != SEP {
        None
    } else {
        let k: int = component_start(s, 1);
        if k >= s.len() {
            None
        } else {
            Some(s.subrange(k, component_end(s, k)))
        }
    }
}

/// The top-level directories the resolver ever touches. `/home` and `/tmp`
/// are real, already-present directories, and left out on purpose.
pub open spec fn is_scope_name(c: Seq<u8>) -> bool {
    ||| c == lits::lit_bin()
    ||| c == lits::lit_sbin()
    ||| c == lits::lit_lib()
    ||| c == lits::lit_usr()
    ||| c == lits::lit_opt()
    ||| c == lits::lit_var()
    ||| c == lits::lit_etc()
    ||| c == lits::lit_boot()
}

/// The path `s` is absolute and its first component is one of the
/// top-level directories the resolver touches.
pub open spec fn spec_in_scope(s: Seq<u8>) -> bool {
    match first_component(s) {
        Some(c) => is_scope_name(c),
        None => false,
    }
}

/// Whether `c` names one of the top-level directories the resolver touches.
fn is_scope_name_exec(c: &[u8]) -> (r: bool)
    ensures
        r == is_scope_name(c@),
{
    same_bytes(c, &lits::bin()) || same_bytes(c, &lits::sbin()) || same_bytes(c, &lits::lib()) || same_bytes(
        c,
        &lits::usr(),
    ) || same_bytes(c, &lits::opt()) || same_bytes(c, &lits::var()) || same_bytes(c, &lits::etc()) || same_bytes(
        c,
        &lits::boot(),
    )
}

/// Whether `path` is absolute and starts with one of the top-level
/// directories the resolver touches.
pub fn in_scope(path: &[u8]) -> (r: bool)
    ensures
        r == spec_in_scope(path@),
{
    if path.len() == 0 || path[0] != SEP {
        return false;
    }
    let mut k: usize = 1;
    while k < path.len() && (path[k] == SEP || (path[k] == DOT && (k + 1 == path.len() || path[k
        + 1] == SEP)))
        invariant
            1 <= k <= path@.len(),
            component_start(path@, k as int) == component_start(path@, 1),
        decreases path.len() - k,
    {
        assert(is_skippable_at(path@, k as int));
        k = k + 1;
    }
    if k >= path.len() {
        return false;
    }
    assert(!is_skippable_at(path@, k as int));
    assert(component_start(path@, k as int) == k);
    let mut e: usize = k;
    while e < path.len() && path[e] != SEP
        invariant
            k <= e <= path@.len(),
            component_end(path@, e as int) == component_end(path@, k as int),
        decreases path.len() - e,
    {
        e = e + 1;
    }
    assert(component_end(path@, e as int) == e);
    let c = sub_bytes(path, k, e);
    is_scope_name_exec(&c)
}

// ---------------------------------------------------------------------------
// Stripping legacy segments
// ---------------------------------------------------------------------------

/// What follows `dir/` at the start of `s`, if `s` starts with it.
pub open spec fn spec_after_dir(s: Seq<u8>, dir: Seq<u8>) -> Option<Seq<u8>> {
    if has_prefix(s, dir.push(SEP)) {
        Some(s.subrange(dir.len() + 1int, s.len() as int))
    } else {
        None
    }
}

/// `s` with its leading directory `from` renamed to `to`, if `s` is `from`
/// or lies under it.
pub open spec fn spec_rename_top(s: Seq<u8>, from: Seq<u8>, to: Seq<u8>) -> Option<Seq<u8>> {
    if has_prefix(s, from.push(SEP)) {
        Some(to.push(SEP) + s.subrange(from.len() + 1int, s.len() as int))
    } else if s == from {
        Some(to)
    } else {
        None
    }
}

/// `s` without a leading `usr/local/`, else without a leading `usr/`.
pub open spec fn drop_usr(s: Seq<u8>) -> Seq<u8> {
    match spec_after_dir(s, lits::lit_usr_local()) {
        Some(r) => r,
        None => match spec_after_dir(s, lits::lit_usr()) {
            Some(r) => r,
            None => s,
        },
    }
}

/// `lib64` folded into `lib`.
pub open spec fn fold_lib64(s: Seq<u8>) -> Seq<u8> {
    match spec_rename_top(s, lits::lit_lib64(), lits::lit_lib()) {
        Some(r) => r,
        None => s,
    }
}

/// Kernel modules, firmware and the boot directory moved to where this
/// system keeps them: `drivers/modules`, `drivers/hardware/firmwares` and
/// `kernel`.
pub open spec fn relocate(s: Seq<u8>) -> Seq<u8> {
    match spec_rename_top(s, lits::lit_lib_modules(), lits::lit_drivers_modules()) {
        Some(r) => r,
        None => match spec_rename_top(s, lits::lit_lib_firmware(), lits::lit_drivers_firmwares()) {
            Some(r) => r,
            None => match spec_rename_top(s, lits::lit_boot(), lits::lit_kernel()) {
                Some(r) => r,
                None => s,
            },
        },
    }
}

/// `s` does not start with a directory that stripping renames: `lib64`,
/// `lib/modules`, `lib/firmware` or `boot`.
pub open spec fn has_no_renamed_head(s: Seq<u8>) -> bool {
    &&& spec_rename_top(s, lits::lit_lib64(), lits::lit_lib()) is None
    &&& spec_rename_top(s, lits::lit_lib_modules(), lits::lit_drivers_modules()) is None
    &&& spec_rename_top(s, lits::lit_lib_firmware(), lits::lit_drivers_firmwares()) is None
    &&& spec_rename_top(s, lits::lit_boot(), lits::lit_kernel()) is None
}

/// The absolute path `p`, its runs of separators reduced to one, with its
/// root dropped and its legacy segments rewritten.
pub open spec fn legacy_remainder(p: Seq<u8>) -> Seq<u8> {
    let c = collapse_seps(p);
    relocate(fold_lib64(drop_usr(c.subrange(1, c.len() as int))))
}

/// `s` is empty or does not start with a separator.
pub open spec fn is_relative(s: Seq<u8>) -> bool {
    s.len() == 0 || s[0] != SEP
}

/// What follows `dir/` in a byte string without two separators in a row
/// does not start with a separator.
proof fn lemma_after_dir_relative(s: Seq<u8>, dir: Seq<u8>)
    requires
        no_double_sep(s),
        is_relative(s),
    ensures
        spec_after_dir(s, dir) matches Some(r) ==> is_relative(r),
{
    if let Some(r) = spec_after_dir(s, dir) {
        lemma_prefix_push(s, dir, SEP);
        if r.len() > 0 {
            assert(s[dir.len() as int] == SEP);
            assert(r[0] == s[dir.len() + 1int]);
        }
    }
}

/// Renaming a leading directory to one that does not start with a
/// separator keeps a relative path relative.
proof fn lemma_rename_relative(s: Seq<u8>, from: Seq<u8>, to: Seq<u8>)
    requires
        is_relative(s),
        to.len() > 0,
        to[0] != SEP,
    ensures
        spec_rename_top(s, from, to) matches Some(r) ==> is_relative(r),
{
    if has_prefix(s, from.push(SEP)) {
        assert((to.push(SEP) + s.subrange(from.len() + 1int, s.len() as int))[0] == to[0]);
    }
}

/// The remainder of a legacy path never starts with a separator.
pub proof fn lemma_remainder_relative(p: Seq<u8>)
    requires
        p.len() > 0,
        p[0] == SEP,
    ensures
        is_relative(legacy_remainder(p)),
{
    let c = collapse_seps(p);
    lemma_collapse_seps(p);
    let y = c.subrange(1, c.len() as int);
    if y.len() > 0 {
        assert(c[0] == SEP);
        assert(y[0] == c[1]);
    }
    assert forall|i: int| 0 <= i < y.len() - 1 && #[trigger] y[i] == SEP implies y[i + 1] != SEP by {
        assert(c[i + 1] == SEP);
    }
    lemma_after_dir_relative(y, lits::lit_usr_local());
    lemma_after_dir_relative(y, lits::lit_usr());
    let z = drop_usr(y);
    assert(lits::lit_lib()[0] == 108u8);
    lemma_rename_relative(z, lits::lit_lib64(), lits::lit_lib());
    let w = fold_lib64(z);
    assert(lits::lit_drivers_modules()[0] == 100u8);
    assert(lits::lit_drivers_firmwares()[0] == 100u8);
    assert(lits::lit_kernel()[0] == 107u8);
    lemma_rename_relative(w, lits::lit_lib_modules(), lits::lit_drivers_modules());
    lemma_rename_relative(w, lits::lit_lib_firmware(), lits::lit_drivers_firmwares());
    lemma_rename_relative(w, lits::lit_boot(), lits::lit_kernel());
}

/// The relative path under a real root at which the legacy path `p` lives
/// (runs of separators counting as one): defined when `p` is UTF-8 text,
/// absolute, and leaves something once rewritten.
pub open spec fn spec_strip_legacy(p: Seq<u8>) -> Option<Seq<u8>> {
    if valid_utf8(p) && p.len() > 0 && p[0] == SEP && legacy_remainder(p).len() > 0 {
        Some(legacy_remainder(p))
    } else {
        None
    }
}

/// What follows `dir/` at the start of `s`.
fn after_dir(s: &[u8], dir: &[u8]) -> (r: Option<Vec<u8>>)
    ensures
        opt_bytes(r) == spec_after_dir(s@, dir@),
{
    proof {
        lemma_prefix_push(s@, dir@, SEP);
    }
    if starts_with(s, dir) && s.len() > dir.len() && s[dir.len()] == SEP {
        Some(sub_bytes(s, dir.len() + 1, s.len()))
    } else {
        None
    }
}

/// `s` with its leading directory `from` renamed to `to`.
fn rename_top(s: &[u8], from: &[u8], to: &[u8]) -> (r: Option<Vec<u8>>)
    ensures
        opt_bytes(r) == spec_rename_top(s@, from@, to@),
{
    proof {
        lemma_prefix_push(s@, from@, SEP);
    }
    if starts_with(s, from) && s.len() > from.len() && s[from.len()] == SEP {
        let mut head = copy_bytes(to);
        head.push(SEP);
        let mut rest = sub_bytes(s, from.len() + 1, s.len());
        head.append(&mut rest);
        Some(head)
    } else if same_bytes(s, from) {
        Some(copy_bytes(to))
    } else {
        None
    }
}

/// `/usr/bin/foo` -> `bin/foo`, `/lib64/x` -> `lib/x`, `/bin/foo` -> `bin/foo`;
/// `/lib/modules` -> `drivers/modules`, `/lib/firmware` ->
/// `drivers/hardware/firmwares`, `/boot` -> `kernel` (the real locations on
/// this system). Runs of separators count as one, so the result is always
/// relative. `None` for a path that is not UTF-8, not absolute, or `/`.
pub fn strip_legacy(path: &[u8]) -> (r: Option<Vec<u8>>)
    ensures
        opt_bytes(r) == spec_strip_legacy(path@),
        r matches Some(rem) ==> rem@.len() > 0 && rem@[0] != SEP,
{
    if decode_text(path).is_none() {
        return None;
    }
    if path.len() == 0 || path[0] != SEP {
        return None;
    }
    proof {
        lemma_collapse_seps(path@);
        lemma_remainder_relative(path@);
    }
    let c = collapse_separators(path);
    let s0 = sub_bytes(&c, 1, c.len());
    let s1 = match after_dir(&s0, &lits::usr_local()) {
        Some(r) => r,
        None => match after_dir(&s0, &lits::usr()) {
            Some(r) => r,
            None => s0,
        },
    };
    let s2 = match rename_top(&s1, &lits::lib64(), &lits::lib()) {
        Some(r) => r,
        None => s1,
    };
    let s3 = match rename_top(&s2, &lits::lib_modules(), &lits::drivers_modules()) {
        Some(r) => r,
        None => match rename_top(&s2, &lits::lib_firmware(), &lits::drivers_firmwares()) {
            Some(r) => r,
            None => match rename_top(&s2, &lits::boot(), &lits::kernel()) {
                Some(r) => r,
                None => s2,
            },
        },
    };
    if s3.len() == 0 {
        None
    } else {
        Some(s3)
    }
}

// ---------------------------------------------------------------------------
// Candidates and resolution
// ---------------------------------------------------------------------------

/// The ordered places where the legacy path `p` may really live: its
/// stripped (relative) remainder under each root in probe order; none for a
/// path out of scope or with nothing left once stripped.
pub open spec fn spec_candidates(p: Seq<u8>, roots: &Roots) -> Seq<Seq<u8>> {
    if !(p.len() > 0 && p[0] == SEP && spec_in_scope(p)) {
        seq![]
    } else {
        match spec_strip_legacy(p) {
            None => seq![],
            Some(rem) => seq![
                spec_join(roots.syshub@, rem),
                spec_join(roots.musl_sysdir@, rem),
                spec_join(roots.union@, rem),
                spec_join(roots.zaisys@, rem),
            ],
        }
    }
}

/// A relative path joined onto `base` lies under `base`.
pub proof fn lemma_join_under(base: Seq<u8>, rel: Seq<u8>)
    requires
        rel.len() > 0,
        rel[0] != SEP,
    ensures
        has_prefix(spec_join(base, rel), base),
{
    if base.len() > 0 && base.last() != SEP {
        assert(spec_join(base, rel).subrange(0, base.len() as int) =~= base);
    } else {
        assert(spec_join(base, rel).subrange(0, base.len() as int) =~= base);
    }
}

/// Every candidate of `p` starts with its own root, in probe order.
pub proof fn law_candidates_lie_under_their_roots(p: Seq<u8>, roots: &Roots)
    ensures
        forall|i: int|
            0 <= i < spec_candidates(p, roots).len() ==> has_prefix(
                #[trigger] spec_candidates(p, roots)[i],
                roots.probe_order()[i],
            ),
{
    if let Some(rem) = spec_strip_legacy(p) {
        lemma_remainder_relative(p);
        lemma_join_under(roots.syshub@, rem);
        lemma_join_under(roots.musl_sysdir@, rem);
        lemma_join_under(roots.union@, rem);
        lemma_join_under(roots.zaisys@, rem);
    }
}

/// Ordered candidate paths, with no existence check: pure construction.
/// Each candidate starts with its own root.
pub fn candidates(path: &[u8], roots: &Roots) -> (r: Vec<Vec<u8>>)
    ensures
        r.deep_view() == spec_candidates(path@, roots),
        forall|i: int|
            0 <= i < r.len() ==> has_prefix(#[trigger] r.deep_view()[i], roots.probe_order()[i]),
{
    proof {
        law_candidates_lie_under_their_roots(path@, roots);
    }
    let mut out: Vec<Vec<u8>> = Vec::new();
    if !(path.len() > 0 && path[0] == SEP) || !in_scope(path) {
        assert(out.deep_view() =~= seq![]);
        return out;
    }
    match strip_legacy(path) {
        None => {
            assert(out.deep_view() =~= seq![]);
            out
        },
        Some(rem) => {
            out.push(join(&roots.syshub, &rem));
            out.push(join(&roots.musl_sysdir, &rem));
            out.push(join(&roots.union, &rem));
            out.push(join(&roots.zaisys, &rem));
            assert(spec_strip_legacy(path@) == Some(rem@));
            let ghost dv = out.deep_view();
            assert(dv.len() == 4);
            assert(dv[0] == out@[0]@ && dv[1] == out@[1]@ && dv[2] == out@[2]@ && dv[3] == out@[3]@);
            assert(dv =~= spec_candidates(path@, roots));
            out
        },
    }
}

/// The first of `cs` whose entry of `present` is true.
pub open spec fn spec_first_present(cs: Seq<Seq<u8>>, present: Seq<bool>) -> Option<Seq<u8>>
    decreases cs.len(),
{
    if cs.len() == 0 || present.len() == 0 {
        None
    } else if present[0] {
        Some(cs[0])
    } else {
        spec_first_present(cs.drop_first(), present.drop_first())
    }
}

/// The first present candidate is one of the candidates.
pub proof fn lemma_first_present_is_member(cs: Seq<Seq<u8>>, present: Seq<bool>)
    ensures
        spec_first_present(cs, present) matches Some(c) ==> cs.contains(c),
    decreases cs.len(),
{
    if cs.len() > 0 && present.len() > 0 {
        if present[0] {
            assert(cs[0] == cs[0]);
        } else {
            lemma_first_present_is_member(cs.drop_first(), present.drop_first());
            if let Some(c) = spec_first_present(cs.drop_first(), present.drop_first()) {
                let i = choose|i: int| 0 <= i < cs.drop_first().len() && cs.drop_first()[i] == c;
                assert(cs[i + 1] == c);
            }
        }
    }
}

/// The first of `cands` that `present` marks as found.
pub fn first_present(cands: &Vec<Vec<u8>>, present: &Vec<bool>) -> (r: Option<Vec<u8>>)
    requires
        cands.len() == present.len(),
    ensures
        opt_bytes(r) == spec_first_present(cands.deep_view(), present@),
{
    let mut i: usize = 0;
    assert(cands.deep_view().skip(0) =~= cands.deep_view());
    assert(present@.skip(0) =~= present@);
    while i < cands.len()
        invariant
            i <= cands.len(),
            cands.len() == present.len(),
            spec_first_present(cands.deep_view(), present@) == spec_first_present(
                cands.deep_view().skip(i as int),
                present@.skip(i as int),
            ),
        decreases cands.len() - i,
    {
        assert(cands.deep_view().skip(i as int)[0] == cands[i as int]@);
        assert(cands.deep_view().skip(i as int).drop_first() =~= cands.deep_view().skip(i + 1));
        assert(present@.skip(i as int).drop_first() =~= present@.skip(i + 1));
        if present[i] {
            return Some(copy_bytes(&cands[i]));
        }
        i = i + 1;
    }
    None
}

/// Resolve a legacy FHS-shaped path to where it really lives, if anywhere:
/// the first of its candidates (see `candidates`) that the file system
/// has. `present` holds the file system's answer for each candidate, in
/// order; a candidate without an answer counts as absent, and no answer
/// after the first `true` is read.
pub fn resolve(path: &[u8], roots: &Roots, present: &Vec<bool>) -> (r: Option<Vec<u8>>)
    ensures
        opt_bytes(r) == spec_first_present(spec_candidates(path@, roots), present@),
        r matches Some(c) ==> spec_candidates(path@, roots).contains(c@),
{
    let cands = candidates(path, roots);
    let mut answers: Vec<bool> = Vec::new();
    let mut i: usize = 0;
    while i < cands.len()
        invariant
            i <= cands.len(),
            answers.len() == i,
            forall|j: int| 0 <= j < i ==> answers@[j] == (j < present@.len() && present@[j]),
        decreases cands.len() - i,
    {
        let a = i < present.len() && present[i];
        answers.push(a);
        i = i + 1;
    }
    let r = first_present(&cands, &answers);
    proof {
        lemma_first_present_prefix(cands.deep_view(), answers@, present@);
        lemma_first_present_is_member(cands.deep_view(), answers@);
    }
    r
}

/// Answers agree with `present` wherever `present` has one, and are false
/// elsewhere: the first present candidate is the same under both.
proof fn lemma_first_present_prefix(cs: Seq<Seq<u8>>, answers: Seq<bool>, present: Seq<bool>)
    requires
        answers.len() == cs.len(),
        forall|j: int| 0 <= j < cs.len() ==> answers[j] == (j < present.len() && present[j]),
    ensures
        spec_first_present(cs, answers) == spec_first_present(cs, present),
    decreases cs.len(),
{
    if cs.len() > 0 && present.len() > 0 {
        assert(answers[0] == present[0]);
        if !present[0] {
            lemma_first_present_prefix(cs.drop_first(), answers.drop_first(), present.drop_first());
        }
    } else if cs.len() > 0 {
        lemma_first_present_none(cs, answers);
    }
}

/// With no answer true, nothing is present.
proof fn lemma_first_present_none(cs: Seq<Seq<u8>>, answers: Seq<bool>)
    requires
        forall|j: int| 0 <= j < answers.len() ==> !answers[j],
    ensures
        spec_first_present(cs, answers) is None,
    decreases cs.len(),
{
    if cs.len() > 0 && answers.len() > 0 {
        lemma_first_present_none(cs.drop_first(), answers.drop_first());
    }
}

} // verus!
