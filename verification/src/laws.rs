//! Properties of the resolver as a whole: the scope guard, the probe
//! order, the reachability of real files through legacy aliases, how the
//! audit tells a dangling source from a gap, and how paths compare.
use vstd::prelude::*;
use vstd::utf8::{partial_valid_utf8, partial_valid_utf8_extend_ascii_block, valid_utf8, valid_utf8_concat};
use crate::audit::{alias_of, file_outcome, MissReason, ProbedFile};
use crate::execve::{spec_execve_step, ActionView, EventView, PhaseView, StateView};
use crate::preload::{spec_c_candidates, spec_shebang_argv};
use crate::walk::{spec_subdirs, spec_subfiles, EntryKind};
use crate::bytes::{
    close_part, collapse_seps, has_prefix, lemma_collapse_seps_id, lemma_prefix_concat, no_double_sep,
    scan_parts, spec_same_path, SEP,
};
use crate::lits;
use crate::remap::{
    component_end, component_start, first_component, has_no_renamed_head, is_scope_name,
    spec_after_dir, spec_candidates, spec_first_present, spec_in_scope, spec_join, spec_strip_legacy,
    Roots,
};

verus! {

/// A path out of scope has no candidates, so it is never resolved.
pub proof fn law_out_of_scope_has_no_candidates(p: Seq<u8>, roots: &Roots)
    requires
        !spec_in_scope(p),
    ensures
        spec_candidates(p, roots) == Seq::<Seq<u8>>::empty(),
{
}

/// `/home` and `/tmp`, and everything below them, are left alone.
pub proof fn law_home_and_tmp_are_left_alone(p: Seq<u8>, roots: &Roots)
    requires
        first_component(p) == Some(lits::lit_home()) || first_component(p) == Some(lits::lit_tmp()),
    ensures
        !spec_in_scope(p),
        spec_candidates(p, roots).len() == 0,
{
    let c = first_component(p)->0;
    assert(c.len() == 4 ==> c[0] == 104u8);
    assert(c.len() == 3 ==> c[0] == 116u8);
    assert(lits::lit_bin()[0] == 98u8 && lits::lit_sbin()[0] == 115u8 && lits::lit_lib()[0] == 108u8);
    assert(lits::lit_usr()[0] == 117u8 && lits::lit_opt()[0] == 111u8 && lits::lit_var()[0] == 118u8);
    assert(lits::lit_etc()[0] == 101u8 && lits::lit_boot()[0] == 98u8);
    assert(!is_scope_name(c));
}

/// A path has four candidates or none; the four are its stripped
/// remainder under syshub, the musl sysroot, the union and zaisys, in that
/// order.
pub proof fn law_candidates_follow_probe_order(p: Seq<u8>, roots: &Roots)
    ensures
        spec_candidates(p, roots).len() == 0 || {
            &&& spec_candidates(p, roots).len() == 4
            &&& spec_in_scope(p)
            &&& spec_strip_legacy(p) is Some
            &&& forall|i: int|
                0 <= i < 4 ==> #[trigger] spec_candidates(p, roots)[i] == spec_join(
                    roots.probe_order()[i],
                    spec_strip_legacy(p)->0,
                )
        },
{
}

/// Joining anything onto an absolute path gives an absolute path.
pub proof fn law_join_keeps_absolute(base: Seq<u8>, child: Seq<u8>)
    requires
        base.len() > 0,
        base[0] == SEP,
    ensures
        spec_join(base, child).len() > 0,
        spec_join(base, child)[0] == SEP,
{
}

/// When every root is absolute, so is every candidate.
pub proof fn law_candidates_are_absolute(p: Seq<u8>, roots: &Roots)
    requires
        forall|i: int|
            0 <= i < 4 ==> (#[trigger] roots.probe_order()[i]).len() > 0
                && roots.probe_order()[i][0] == SEP,
    ensures
        forall|i: int|
            0 <= i < spec_candidates(p, roots).len() ==> (#[trigger] spec_candidates(p, roots)[i]).len()
                > 0 && spec_candidates(p, roots)[i][0] == SEP,
{
    law_candidates_follow_probe_order(p, roots);
    assert forall|i: int| 0 <= i < spec_candidates(p, roots).len() implies (
    #[trigger] spec_candidates(p, roots)[i]).len() > 0 && spec_candidates(p, roots)[i][0] == SEP by {
        law_join_keeps_absolute(roots.probe_order()[i], spec_strip_legacy(p)->0);
    }
}

/// `/usr/` is UTF-8 text.
proof fn lemma_abs_usr_dir_is_text()
    ensures
        valid_utf8(lits::lit_abs_usr().push(SEP)),
{
    let u = lits::lit_abs_usr().push(SEP);
    assert(u.subrange(0, 0) =~= Seq::<u8>::empty());
    assert(partial_valid_utf8(u, 0));
    partial_valid_utf8_extend_ascii_block(u, 0, 5);
    assert(u.subrange(0, 5) =~= u);
}

/// The legacy alias `/usr/<rel>` of a file found at the relative path `rel`
/// below a real root names that relative path under every root, in probe
/// order, so the file is among its candidates: provided `rel` is UTF-8
/// text, holds no two separators in a row, and starts with none of
/// `local/`, `lib64`, `lib/modules`, `lib/firmware`, `boot`.
pub proof fn law_alias_reaches_file(rel: Seq<u8>, roots: &Roots)
    requires
        valid_utf8(rel),
        rel.len() > 0,
        rel[0] != SEP,
        no_double_sep(rel),
        !has_prefix(rel, lits::lit_local().push(SEP)),
        has_no_renamed_head(rel),
    ensures
        spec_candidates(alias_of(rel), roots) == seq![
            spec_join(roots.syshub@, rel),
            spec_join(roots.musl_sysdir@, rel),
            spec_join(roots.union@, rel),
            spec_join(roots.zaisys@, rel),
        ],
{
    let u = lits::lit_abs_usr().push(SEP);
    let a = alias_of(rel);
    assert(a =~= u + rel);
    // The alias has no two separators in a row, so collapsing keeps it.
    assert forall|i: int| 0 <= i < a.len() - 1 && #[trigger] a[i] == SEP implies a[i + 1] != SEP by {
        if i >= 5 {
            assert(a[i] == rel[i - 5] && a[i + 1] == rel[i - 4]);
        } else if i == 4 {
            assert(a[5] == rel[0]);
        }
    }
    lemma_collapse_seps_id(a);
    assert(collapse_seps(a) == a);
    // The alias is text.
    lemma_abs_usr_dir_is_text();
    valid_utf8_concat(u, rel);
    // Its first component is `usr`.
    assert(a[1] == 117u8 && a[2] == 115u8 && a[3] == 114u8 && a[4] == SEP);
    assert(component_start(a, 1) == 1);
    assert(component_end(a, 4) == 4);
    assert(component_end(a, 3) == 4);
    assert(component_end(a, 2) == 4);
    assert(component_end(a, 1) == 4);
    assert(a.subrange(1, 4) =~= lits::lit_usr());
    assert(first_component(a) == Some(lits::lit_usr()));
    assert(spec_in_scope(a));
    // Stripping drops `/usr/` and nothing else.
    let x = a.subrange(1, a.len() as int);
    let usr_dir = lits::lit_usr().push(SEP);
    assert(x =~= usr_dir + rel);
    assert(lits::lit_usr_local().push(SEP) =~= usr_dir + lits::lit_local().push(SEP));
    lemma_prefix_concat(usr_dir, rel, lits::lit_local().push(SEP));
    assert(spec_after_dir(x, lits::lit_usr_local()) is None);
    assert(x.subrange(0, usr_dir.len() as int) =~= usr_dir);
    assert(x.subrange(4, x.len() as int) =~= rel);
    assert(spec_after_dir(x, lits::lit_usr()) == Some(rel));
    assert(spec_strip_legacy(a) == Some(rel));
}

/// A legacy path `/<rel>` whose remainder starts with no legacy segment
/// (`usr/`, `lib64`, `lib/modules`, `lib/firmware`, `boot`), and holds no
/// separator at its start nor two in a row, strips to that remainder
/// unchanged: `/bin/foo` to `bin/foo`.
pub proof fn law_plain_path_strips_to_itself(rel: Seq<u8>)
    requires
        valid_utf8(rel),
        rel.len() > 0,
        rel[0] != SEP,
        no_double_sep(rel),
        spec_after_dir(rel, lits::lit_usr_local()) is None,
        spec_after_dir(rel, lits::lit_usr()) is None,
        has_no_renamed_head(rel),
    ensures
        spec_strip_legacy(seq![SEP] + rel) == Some(rel),
{
    let s = seq![SEP];
    let p = s + rel;
    assert(s.subrange(0, 0) =~= Seq::<u8>::empty());
    partial_valid_utf8_extend_ascii_block(s, 0, 1);
    assert(s.subrange(0, 1) =~= s);
    valid_utf8_concat(s, rel);
    assert forall|i: int| 0 <= i < p.len() - 1 && #[trigger] p[i] == SEP implies p[i + 1] != SEP by {
        if i >= 1 {
            assert(p[i] == rel[i - 1] && p[i + 1] == rel[i]);
        } else {
            assert(p[1] == rel[0]);
        }
    }
    lemma_collapse_seps_id(p);
    assert(p.subrange(1, p.len() as int) =~= rel);
}

/// A real file that no alias reaches is reported as a dangling symlink
/// exactly when its real path holds an entry (not following links) that
/// leads nowhere (following them); any other such file is a genuine gap.
/// A file that an alias reaches is no miss.
pub proof fn law_dangling_source_is_not_a_gap(f: ProbedFile, roots: &Roots)
    ensures
        spec_first_present(spec_candidates(alias_of(f.relative@), roots), f.present@) is Some
            ==> file_outcome(f, roots) is None,
        spec_first_present(spec_candidates(alias_of(f.relative@), roots), f.present@) is None
            ==> (file_outcome(f, roots) == Some(MissReason::SourceIsDanglingSymlink) <==> (
            !f.reachable && f.entry_present)),
        spec_first_present(spec_candidates(alias_of(f.relative@), roots), f.present@) is None
            ==> (file_outcome(f, roots) == Some(MissReason::NoAliasResolved) <==> !(!f.reachable
            && f.entry_present)),
{
}

/// A trailing separator does not change a non-empty path, compared
/// component by component.
pub proof fn law_trailing_separator_is_the_same_path(p: Seq<u8>)
    requires
        p.len() > 0,
    ensures
        spec_same_path(p, p.push(SEP)),
{
    let q = p.push(SEP);
    assert(q.drop_last() =~= p);
    assert(scan_parts(q) == (close_part(scan_parts(p).0, scan_parts(p).1), Seq::<u8>::empty()));
    assert(q[0] == p[0]);
    if p.len() > 1 {
        assert(q[1] == p[1]);
    }
}

// ---------------------------------------------------------------------------
// Stripping: a leading `usr/` or `usr/local/` is dropped before the rest
// ---------------------------------------------------------------------------

/// A byte string of ASCII bytes is UTF-8 text.
proof fn lemma_ascii_is_text(u: Seq<u8>)
    requires
        forall|i: int| 0 <= i < u.len() ==> #[trigger] u[i] < 128,
    ensures
        valid_utf8(u),
{
    assert(u.subrange(0, 0) =~= Seq::<u8>::empty());
    assert(partial_valid_utf8(u, 0));
    partial_valid_utf8_extend_ascii_block(u, 0, u.len() as int);
    assert(u.subrange(0, u.len() as int) =~= u);
}

/// `head + rel` has no two separators in a row when `head` ends with one,
/// has none in a row itself, and `rel` has none in a row nor at its start.
proof fn lemma_no_double_sep_concat(head: Seq<u8>, rel: Seq<u8>)
    requires
        head.len() > 0,
        head.last() == SEP,
        no_double_sep(head),
        no_double_sep(rel),
        rel.len() == 0 || rel[0] != SEP,
    ensures
        no_double_sep(head + rel),
{
    let a = head + rel;
    let n = head.len() as int;
    assert forall|i: int| 0 <= i < a.len() - 1 && #[trigger] a[i] == SEP implies a[i + 1] != SEP by {
        if i >= n {
            assert(a[i] == rel[i - n] && a[i + 1] == rel[i + 1 - n]);
        } else if i == n - 1 {
            assert(a[i + 1] == rel[0]);
        } else {
            assert(a[i] == head[i] && a[i + 1] == head[i + 1]);
        }
    }
}

/// A relative `rel` that starts with neither `usr/` nor `usr/local/` is
/// left as it is by dropping a leading `usr/` or `usr/local/`.
proof fn lemma_drop_usr_keeps(rel: Seq<u8>)
    requires
        !has_prefix(rel, seq![117u8, 115u8, 114u8, 47u8]),
    ensures
        crate::remap::drop_usr(rel) == rel,
{
    let usr_dir = lits::lit_usr().push(SEP);
    assert(usr_dir =~= seq![117u8, 115u8, 114u8, 47u8]);
    let ul = lits::lit_usr_local().push(SEP);
    if has_prefix(rel, ul) {
        assert(rel.subrange(0, 4) =~= ul.subrange(0, 4));
        assert(ul.subrange(0, 4) =~= usr_dir);
        assert(has_prefix(rel, usr_dir));
    }
}

/// Dropping a leading `usr/` commutes with the rest of stripping: for a
/// relative `rel` (UTF-8 text, no two separators in a row) that starts
/// with neither `usr/` nor `local/`, `/usr/<rel>` strips as `/<rel>` does,
/// so `/usr/lib/modules/..` and `/lib/modules/..` land at the same place.
pub proof fn law_usr_prefix_strips_like_the_plain_path(rel: Seq<u8>)
    requires
        valid_utf8(rel),
        rel.len() == 0 || rel[0] != SEP,
        no_double_sep(rel),
        !has_prefix(rel, seq![117u8, 115u8, 114u8, 47u8]),
        !has_prefix(rel, seq![108u8, 111u8, 99u8, 97u8, 108u8, 47u8]),
    ensures
        spec_strip_legacy(seq![47u8, 117u8, 115u8, 114u8, 47u8] + rel) == spec_strip_legacy(
            seq![47u8] + rel,
        ),
{
    let head = seq![47u8, 117u8, 115u8, 114u8, 47u8];
    let root = seq![47u8];
    let a = head + rel;
    let b = root + rel;
    lemma_ascii_is_text(head);
    lemma_ascii_is_text(root);
    valid_utf8_concat(head, rel);
    valid_utf8_concat(root, rel);
    lemma_no_double_sep_concat(head, rel);
    lemma_no_double_sep_concat(root, rel);
    lemma_collapse_seps_id(a);
    lemma_collapse_seps_id(b);
    let x = a.subrange(1, a.len() as int);
    let y = b.subrange(1, b.len() as int);
    let usr_dir = lits::lit_usr().push(SEP);
    assert(x =~= usr_dir + rel);
    assert(y =~= rel);
    assert(lits::lit_usr_local().push(SEP) =~= usr_dir + lits::lit_local().push(SEP));
    assert(lits::lit_local().push(SEP) =~= seq![108u8, 111u8, 99u8, 97u8, 108u8, 47u8]);
    lemma_prefix_concat(usr_dir, rel, lits::lit_local().push(SEP));
    assert(spec_after_dir(x, lits::lit_usr_local()) is None);
    assert(x.subrange(0, usr_dir.len() as int) =~= usr_dir);
    assert(x.subrange(4, x.len() as int) =~= rel);
    assert(spec_after_dir(x, lits::lit_usr()) == Some(rel));
    assert(crate::remap::drop_usr(x) == rel);
    lemma_drop_usr_keeps(rel);
    assert(crate::remap::legacy_remainder(a) == crate::remap::legacy_remainder(b));
}

/// Dropping a leading `usr/local/` commutes with the rest of stripping:
/// for a relative `rel` (UTF-8 text, no two separators in a row) that does
/// not start with `usr/`, `/usr/local/<rel>` strips as `/<rel>` does.
pub proof fn law_usr_local_prefix_strips_like_the_plain_path(rel: Seq<u8>)
    requires
        valid_utf8(rel),
        rel.len() == 0 || rel[0] != SEP,
        no_double_sep(rel),
        !has_prefix(rel, seq![117u8, 115u8, 114u8, 47u8]),
    ensures
        spec_strip_legacy(
            seq![47u8, 117u8, 115u8, 114u8, 47u8, 108u8, 111u8, 99u8, 97u8, 108u8, 47u8] + rel,
        ) == spec_strip_legacy(seq![47u8] + rel),
{
    let head = seq![47u8, 117u8, 115u8, 114u8, 47u8, 108u8, 111u8, 99u8, 97u8, 108u8, 47u8];
    let root = seq![47u8];
    let a = head + rel;
    let b = root + rel;
    lemma_ascii_is_text(head);
    lemma_ascii_is_text(root);
    valid_utf8_concat(head, rel);
    valid_utf8_concat(root, rel);
    assert(no_double_sep(head)) by {
        assert forall|i: int| 0 <= i < head.len() - 1 && #[trigger] head[i] == SEP implies head[i
            + 1] != SEP by {}
    }
    lemma_no_double_sep_concat(head, rel);
    lemma_no_double_sep_concat(root, rel);
    lemma_collapse_seps_id(a);
    lemma_collapse_seps_id(b);
    let x = a.subrange(1, a.len() as int);
    let y = b.subrange(1, b.len() as int);
    let ul = lits::lit_usr_local().push(SEP);
    assert(x =~= ul + rel);
    assert(y =~= rel);
    assert(x.subrange(0, ul.len() as int) =~= ul);
    assert(x.subrange(10, x.len() as int) =~= rel);
    assert(spec_after_dir(x, lits::lit_usr_local()) == Some(rel));
    assert(crate::remap::drop_usr(x) == rel);
    lemma_drop_usr_keeps(rel);
    assert(crate::remap::legacy_remainder(a) == crate::remap::legacy_remainder(b));
}

/// `x` does not start with `p` when they differ at the index `j` of `p`.
proof fn lemma_no_prefix_at(x: Seq<u8>, p: Seq<u8>, j: int)
    requires
        0 <= j < p.len(),
        j < x.len() ==> x[j] != p[j],
    ensures
        !has_prefix(x, p),
{
    if has_prefix(x, p) {
        assert(x.subrange(0, p.len() as int)[j] == x[j]);
    }
}

/// A legacy path `head + rel`, with `head` an absolute ASCII directory
/// path ending in a separator, is text, and its remainder is the rewriting
/// of `head` without its root, followed by `rel`.
proof fn lemma_remainder_of_plain(head: Seq<u8>, rel: Seq<u8>)
    requires
        head.len() > 1,
        head[0] == SEP,
        head.last() == SEP,
        no_double_sep(head),
        forall|i: int| 0 <= i < head.len() ==> #[trigger] head[i] < 128,
        valid_utf8(rel),
        rel.len() == 0 || rel[0] != SEP,
        no_double_sep(rel),
    ensures
        valid_utf8(head + rel),
        (head + rel)[0] == SEP,
        crate::remap::legacy_remainder(head + rel) == crate::remap::relocate(
            crate::remap::fold_lib64(
                crate::remap::drop_usr(head.subrange(1, head.len() as int) + rel),
            ),
        ),
{
    let a = head + rel;
    lemma_ascii_is_text(head);
    valid_utf8_concat(head, rel);
    lemma_no_double_sep_concat(head, rel);
    lemma_collapse_seps_id(a);
    assert(a.subrange(1, a.len() as int) =~= head.subrange(1, head.len() as int) + rel);
}

/// `/lib64/<rel>` strips as `/lib/<rel>` does, for a relative `rel` (UTF-8
/// text, no two separators in a row): `lib64` is folded into `lib` before
/// anything under `lib` is moved.
pub proof fn law_lib64_strips_like_lib(rel: Seq<u8>)
    requires
        valid_utf8(rel),
        rel.len() == 0 || rel[0] != SEP,
        no_double_sep(rel),
    ensures
        spec_strip_legacy(seq![47u8, 108u8, 105u8, 98u8, 54u8, 52u8, 47u8] + rel)
            == spec_strip_legacy(seq![47u8, 108u8, 105u8, 98u8, 47u8] + rel),
{
    let h1 = seq![47u8, 108u8, 105u8, 98u8, 54u8, 52u8, 47u8];
    let h2 = seq![47u8, 108u8, 105u8, 98u8, 47u8];
    assert(no_double_sep(h1)) by {
        assert forall|i: int| 0 <= i < h1.len() - 1 && #[trigger] h1[i] == SEP implies h1[i + 1]
            != SEP by {}
    }
    assert(no_double_sep(h2)) by {
        assert forall|i: int| 0 <= i < h2.len() - 1 && #[trigger] h2[i] == SEP implies h2[i + 1]
            != SEP by {}
    }
    lemma_remainder_of_plain(h1, rel);
    lemma_remainder_of_plain(h2, rel);
    let x1 = h1.subrange(1, h1.len() as int) + rel;
    let x2 = h2.subrange(1, h2.len() as int) + rel;
    assert(x1[0] == 108u8 && x2[0] == 108u8);
    assert(!has_prefix(x1, seq![117u8, 115u8, 114u8, 47u8]));
    assert(!has_prefix(x2, seq![117u8, 115u8, 114u8, 47u8]));
    lemma_drop_usr_keeps(x1);
    lemma_drop_usr_keeps(x2);
    let l64 = lits::lit_lib64().push(SEP);
    assert(x1.subrange(0, l64.len() as int) =~= l64);
    assert(x1.subrange(6, x1.len() as int) =~= rel);
    assert(lits::lit_lib().push(SEP) + rel =~= x2);
    assert(crate::remap::fold_lib64(x1) == x2);
    assert(x2[3] == SEP);
    lemma_no_prefix_at(x2, l64, 3);
    assert(lits::lit_lib64()[3] == 54u8);
    assert(x2 != lits::lit_lib64());
    assert(crate::remap::fold_lib64(x2) == x2);
}

/// Kernel modules move to `drivers/modules`: `/lib/modules/<rel>` strips to
/// `drivers/modules/<rel>`, for a relative `rel` (UTF-8 text, no two
/// separators in a row).
pub proof fn law_modules_move_to_drivers(rel: Seq<u8>)
    requires
        valid_utf8(rel),
        rel.len() == 0 || rel[0] != SEP,
        no_double_sep(rel),
    ensures
        spec_strip_legacy(
            seq![47u8, 108u8, 105u8, 98u8, 47u8, 109u8, 111u8, 100u8, 117u8, 108u8, 101u8, 115u8, 47u8]
                + rel,
        ) == Some(
            seq![100u8, 114u8, 105u8, 118u8, 101u8, 114u8, 115u8, 47u8, 109u8, 111u8, 100u8, 117u8, 108u8, 101u8, 115u8, 47u8]
                + rel,
        ),
{
    let h = seq![47u8, 108u8, 105u8, 98u8, 47u8, 109u8, 111u8, 100u8, 117u8, 108u8, 101u8, 115u8, 47u8];
    assert(no_double_sep(h)) by {
        assert forall|i: int| 0 <= i < h.len() - 1 && #[trigger] h[i] == SEP implies h[i + 1]
            != SEP by {}
    }
    lemma_remainder_of_plain(h, rel);
    let x = h.subrange(1, h.len() as int) + rel;
    assert(x[0] == 108u8 && x[3] == SEP);
    assert(!has_prefix(x, seq![117u8, 115u8, 114u8, 47u8]));
    lemma_drop_usr_keeps(x);
    lemma_no_prefix_at(x, lits::lit_lib64().push(SEP), 3);
    assert(lits::lit_lib64()[3] == 54u8);
    assert(x != lits::lit_lib64());
    assert(crate::remap::fold_lib64(x) == x);
    let m = lits::lit_lib_modules().push(SEP);
    assert(x.subrange(0, m.len() as int) =~= m);
    assert(x.subrange(12, x.len() as int) =~= rel);
    assert(lits::lit_drivers_modules().push(SEP) + rel =~= seq![100u8, 114u8, 105u8, 118u8, 101u8, 114u8, 115u8, 47u8, 109u8, 111u8, 100u8, 117u8, 108u8, 101u8, 115u8, 47u8] + rel);
}

/// Firmware moves to `drivers/hardware/firmwares`: `/lib/firmware/<rel>`
/// strips to `drivers/hardware/firmwares/<rel>`, for a relative `rel`
/// (UTF-8 text, no two separators in a row).
pub proof fn law_firmware_moves_to_drivers(rel: Seq<u8>)
    requires
        valid_utf8(rel),
        rel.len() == 0 || rel[0] != SEP,
        no_double_sep(rel),
    ensures
        spec_strip_legacy(
            seq![47u8, 108u8, 105u8, 98u8, 47u8, 102u8, 105u8, 114u8, 109u8, 119u8, 97u8, 114u8, 101u8, 47u8]
                + rel,
        ) == Some(
            seq![100u8, 114u8, 105u8, 118u8, 101u8, 114u8, 115u8, 47u8, 104u8, 97u8, 114u8, 100u8, 119u8, 97u8, 114u8, 101u8, 47u8, 102u8, 105u8, 114u8, 109u8, 119u8, 97u8, 114u8, 101u8, 115u8, 47u8]
                + rel,
        ),
{
    let h = seq![47u8, 108u8, 105u8, 98u8, 47u8, 102u8, 105u8, 114u8, 109u8, 119u8, 97u8, 114u8, 101u8, 47u8];
    assert(no_double_sep(h)) by {
        assert forall|i: int| 0 <= i < h.len() - 1 && #[trigger] h[i] == SEP implies h[i + 1]
            != SEP by {}
    }
    lemma_remainder_of_plain(h, rel);
    let x = h.subrange(1, h.len() as int) + rel;
    assert(x[0] == 108u8 && x[3] == SEP && x[4] == 102u8);
    assert(!has_prefix(x, seq![117u8, 115u8, 114u8, 47u8]));
    lemma_drop_usr_keeps(x);
    lemma_no_prefix_at(x, lits::lit_lib64().push(SEP), 3);
    assert(lits::lit_lib64()[3] == 54u8);
    assert(x != lits::lit_lib64());
    assert(crate::remap::fold_lib64(x) == x);
    let m = lits::lit_lib_modules().push(SEP);
    lemma_no_prefix_at(x, m, 4);
    assert(lits::lit_lib_modules()[4] == 109u8);
    assert(x != lits::lit_lib_modules());
    let f = lits::lit_lib_firmware().push(SEP);
    assert(x.subrange(0, f.len() as int) =~= f);
    assert(x.subrange(13, x.len() as int) =~= rel);
    assert(lits::lit_drivers_firmwares().push(SEP) + rel =~= seq![100u8, 114u8, 105u8, 118u8, 101u8, 114u8, 115u8, 47u8, 104u8, 97u8, 114u8, 100u8, 119u8, 97u8, 114u8, 101u8, 47u8, 102u8, 105u8, 114u8, 109u8, 119u8, 97u8, 114u8, 101u8, 115u8, 47u8] + rel);
}

/// The boot directory moves to `kernel`: `/boot/<rel>` strips to
/// `kernel/<rel>`, for a relative `rel` (UTF-8 text, no two separators in
/// a row).
pub proof fn law_boot_moves_to_kernel(rel: Seq<u8>)
    requires
        valid_utf8(rel),
        rel.len() == 0 || rel[0] != SEP,
        no_double_sep(rel),
    ensures
        spec_strip_legacy(seq![47u8, 98u8, 111u8, 111u8, 116u8, 47u8] + rel) == Some(
            seq![107u8, 101u8, 114u8, 110u8, 101u8, 108u8, 47u8] + rel,
        ),
{
    let h = seq![47u8, 98u8, 111u8, 111u8, 116u8, 47u8];
    assert(no_double_sep(h)) by {
        assert forall|i: int| 0 <= i < h.len() - 1 && #[trigger] h[i] == SEP implies h[i + 1]
            != SEP by {}
    }
    lemma_remainder_of_plain(h, rel);
    let x = h.subrange(1, h.len() as int) + rel;
    assert(x[0] == 98u8);
    assert(!has_prefix(x, seq![117u8, 115u8, 114u8, 47u8]));
    lemma_drop_usr_keeps(x);
    lemma_no_prefix_at(x, lits::lit_lib64().push(SEP), 0);
    assert(lits::lit_lib64()[0] == 108u8);
    assert(x != lits::lit_lib64());
    assert(crate::remap::fold_lib64(x) == x);
    lemma_no_prefix_at(x, lits::lit_lib_modules().push(SEP), 0);
    assert(lits::lit_lib_modules()[0] == 108u8);
    assert(x != lits::lit_lib_modules());
    lemma_no_prefix_at(x, lits::lit_lib_firmware().push(SEP), 0);
    assert(lits::lit_lib_firmware()[0] == 108u8);
    assert(x != lits::lit_lib_firmware());
    let b = lits::lit_boot().push(SEP);
    assert(x.subrange(0, b.len() as int) =~= b);
    assert(x.subrange(5, x.len() as int) =~= rel);
    assert(lits::lit_kernel().push(SEP) + rel =~= seq![107u8, 101u8, 114u8, 110u8, 101u8, 108u8, 47u8] + rel);
}

// ---------------------------------------------------------------------------
// Scope and candidates
// ---------------------------------------------------------------------------

/// The scope is exactly the eight top-level directories `bin`, `sbin`,
/// `lib`, `usr`, `opt`, `var`, `etc` and `boot`: a path is in scope when
/// and only when it is absolute and its first component is one of them.
pub proof fn law_scope_is_exactly_eight_names(p: Seq<u8>)
    ensures
        spec_in_scope(p) <==> (first_component(p) matches Some(c) && {
            ||| c == seq![98u8, 105u8, 110u8]
            ||| c == seq![115u8, 98u8, 105u8, 110u8]
            ||| c == seq![108u8, 105u8, 98u8]
            ||| c == seq![117u8, 115u8, 114u8]
            ||| c == seq![111u8, 112u8, 116u8]
            ||| c == seq![118u8, 97u8, 114u8]
            ||| c == seq![101u8, 116u8, 99u8]
            ||| c == seq![98u8, 111u8, 111u8, 116u8]
        }),
        spec_in_scope(p) ==> p.len() > 0 && p[0] == SEP,
{
}

/// Every path in scope that leaves something once stripped has exactly
/// four candidates: its remainder under syshub, the musl sysroot, the
/// union and zaisys, in that order.
pub proof fn law_in_scope_paths_have_four_candidates(p: Seq<u8>, roots: &Roots)
    requires
        spec_in_scope(p),
        spec_strip_legacy(p) is Some,
    ensures
        spec_candidates(p, roots) == seq![
            spec_join(roots.syshub@, spec_strip_legacy(p)->0),
            spec_join(roots.musl_sysdir@, spec_strip_legacy(p)->0),
            spec_join(roots.union@, spec_strip_legacy(p)->0),
            spec_join(roots.zaisys@, spec_strip_legacy(p)->0),
        ],
{
}

// ---------------------------------------------------------------------------
// The walk skips the excluded path and nothing else
// ---------------------------------------------------------------------------

/// One more entry `(name, kind)` in a listing of `dir` adds, to the
/// directories still to walk, `dir/name` (at `rel/name`) when it is a
/// directory that is not the excluded path compared component by
/// component; and to the files `rel/name` when it is anything else that
/// can be examined and is not the excluded path. Nothing else is skipped.
pub proof fn law_walk_skips_only_the_excluded_path(
    dir: Seq<u8>,
    rel: Seq<u8>,
    entries: Seq<(Seq<u8>, EntryKind)>,
    name: Seq<u8>,
    kind: EntryKind,
    exclude: Option<Seq<u8>>,
)
    ensures
        spec_subdirs(dir, rel, entries.push((name, kind)), exclude) == spec_subdirs(
            dir,
            rel,
            entries,
            exclude,
        ) + if kind == EntryKind::Directory && !(exclude matches Some(e) && spec_same_path(
            e,
            spec_join(dir, name),
        )) {
            seq![(spec_join(dir, name), spec_join(rel, name))]
        } else {
            Seq::<(Seq<u8>, Seq<u8>)>::empty()
        },
        spec_subfiles(dir, rel, entries.push((name, kind)), exclude) == spec_subfiles(
            dir,
            rel,
            entries,
            exclude,
        ) + if kind == EntryKind::NotDirectory && !(exclude matches Some(e) && spec_same_path(
            e,
            spec_join(dir, name),
        )) {
            seq![spec_join(rel, name)]
        } else {
            Seq::<Seq<u8>>::empty()
        },
{
    let es = entries.push((name, kind));
    assert(es.drop_last() =~= entries);
    assert(es.last() == (name, kind));
    let d0 = spec_subdirs(dir, rel, entries, exclude);
    let f0 = spec_subfiles(dir, rel, entries, exclude);
    assert(d0 + Seq::<(Seq<u8>, Seq<u8>)>::empty() =~= d0);
    assert(f0 + Seq::<Seq<u8>>::empty() =~= f0);
    assert(d0.push((spec_join(dir, name), spec_join(rel, name))) =~= d0 + seq![
        (spec_join(dir, name), spec_join(rel, name)),
    ]);
    assert(f0.push(spec_join(rel, name)) =~= f0 + seq![spec_join(rel, name)]);
}

// ---------------------------------------------------------------------------
// execve: every candidate is tried in order
// ---------------------------------------------------------------------------

/// The state after answering `n` probes in a row with "does not open".
pub open spec fn after_refusals(s: StateView, n: nat, roots: &Roots) -> StateView
    decreases n,
{
    if n == 0 {
        s
    } else {
        spec_execve_step(after_refusals(s, (n - 1) as nat, roots), EventView::Opens(false), roots).0
    }
}

/// While the interpreter's candidates last, each refusal moves on to the
/// next one.
proof fn lemma_interp_refusals(
    s: StateView,
    eff: Seq<u8>,
    cs: Seq<Seq<u8>>,
    k: int,
    a: Option<Seq<u8>>,
    n: nat,
    roots: &Roots,
)
    requires
        s.phase == PhaseView::TryInterp(eff, cs, k, a),
        0 <= k,
        k + n < cs.len(),
    ensures
        after_refusals(s, n, roots) == (StateView {
            path: s.path,
            rest: s.rest,
            phase: PhaseView::TryInterp(eff, cs, k + n, a),
        }),
    decreases n,
{
    if n > 0 {
        lemma_interp_refusals(s, eff, cs, k, a, (n - 1) as nat, roots);
    }
}

/// The interpreter of a script is looked for through its whole candidate
/// list, in order: from the candidate `cs[k]`, a refusal probes the next
/// candidate while there is one; and whichever candidate `cs[j]` (at or
/// after `k`) is the first to open, the script runs through it, with the
/// interpreter's argument, the script's path and the caller's arguments.
pub proof fn law_interpreter_search_tries_every_candidate(
    s: StateView,
    eff: Seq<u8>,
    cs: Seq<Seq<u8>>,
    k: int,
    a: Option<Seq<u8>>,
    j: int,
    roots: &Roots,
)
    requires
        s.phase == PhaseView::TryInterp(eff, cs, k, a),
        0 <= k <= j < cs.len(),
    ensures
        k + 1 < cs.len() ==> spec_execve_step(s, EventView::Opens(false), roots).1
            == ActionView::Probe(cs[k + 1]),
        k + 1 < cs.len() ==> spec_execve_step(s, EventView::Opens(false), roots).0.phase
            == PhaseView::TryInterp(eff, cs, k + 1, a),
        spec_execve_step(after_refusals(s, (j - k) as nat, roots), EventView::Opens(true), roots).1
            == ActionView::Run(cs[j], Some(spec_shebang_argv(cs[j], a, s.path, s.rest))),
{
    lemma_interp_refusals(s, eff, cs, k, a, (j - k) as nat, roots);
}

/// While the path's candidates last, each refusal moves on to the next
/// one.
proof fn lemma_path_refusals(s: StateView, cs: Seq<Seq<u8>>, k: int, n: nat, roots: &Roots)
    requires
        s.phase == PhaseView::TryCandidate(cs, k),
        0 <= k,
        k + n < cs.len(),
    ensures
        after_refusals(s, n, roots) == (StateView {
            path: s.path,
            rest: s.rest,
            phase: PhaseView::TryCandidate(cs, k + n),
        }),
    decreases n,
{
    if n > 0 {
        lemma_path_refusals(s, cs, k, (n - 1) as nat, roots);
    }
}

/// The path's candidates are tried in order, all of them: from `cs[k]`, a
/// refusal probes the next candidate while there is one; and whichever
/// candidate `cs[j]` is the first to open, it becomes the file that runs
/// (its head is read next).
pub proof fn law_path_search_tries_every_candidate(
    s: StateView,
    cs: Seq<Seq<u8>>,
    k: int,
    j: int,
    roots: &Roots,
)
    requires
        s.phase == PhaseView::TryCandidate(cs, k),
        0 <= k <= j < cs.len(),
    ensures
        k + 1 < cs.len() ==> spec_execve_step(s, EventView::Opens(false), roots).1
            == ActionView::Probe(cs[k + 1]),
        spec_execve_step(after_refusals(s, (j - k) as nat, roots), EventView::Opens(true), roots)
            == ((StateView { path: s.path, rest: s.rest, phase: PhaseView::CheckHead(cs[j]) }, ActionView::Read(cs[j], 2))),
{
    lemma_path_refusals(s, cs, k, (j - k) as nat, roots);
}

/// Each search starts at the first candidate and ends only when the list
/// is used up: a path that does not open has its first candidate probed
/// (the original call when it has none); an interpreter that opens runs the
/// script, and one that does not has its first candidate probed (the file
/// found runs as it is when there is none); once the interpreter's
/// candidates are used up, the file found runs with the caller's arguments
/// (the original call when it is the path itself).
pub proof fn law_searches_start_at_the_first_candidate(s: StateView, roots: &Roots)
    ensures
        s.phase == PhaseView::CheckPath ==> {
            let cs = spec_c_candidates(Some(s.path), roots);
            spec_execve_step(s, EventView::Opens(false), roots).1 == if cs.len() > 0 {
                ActionView::Probe(cs[0])
            } else {
                ActionView::RunOriginal
            }
        },
        s.phase matches PhaseView::CheckInterp(eff, i, a) ==> {
            &&& spec_execve_step(s, EventView::Opens(true), roots).1 == ActionView::Run(
                i,
                Some(spec_shebang_argv(i, a, s.path, s.rest)),
            )
            &&& spec_execve_step(s, EventView::Opens(false), roots).1 == if spec_c_candidates(
                Some(i),
                roots,
            ).len() > 0 {
                ActionView::Probe(spec_c_candidates(Some(i), roots)[0])
            } else if eff == s.path {
                ActionView::RunOriginal
            } else {
                ActionView::Run(eff, None)
            }
        },
        s.phase matches PhaseView::TryInterp(eff, cs, k, a) ==> (0 <= k && k + 1 >= cs.len()
            ==> spec_execve_step(s, EventView::Opens(false), roots).1 == if eff == s.path {
            ActionView::RunOriginal
        } else {
            ActionView::Run(eff, None)
        }),
{
}

} // verus!
