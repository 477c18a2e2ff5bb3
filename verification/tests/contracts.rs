//! Concrete cases of the library's contracts, none of which needs a drive.

use sys_resolver::audit::{alias_for, audit_from_outcomes, audit_one_root, classify, full_audit, MissReason, ProbedFile};
use sys_resolver::bytes::{components, same_path};
use sys_resolver::execve::{execve_start, execve_step, ExecveAction, ExecveEvent, ExecveState};
use sys_resolver::cli::{
    doctor_fails, doctor_totals, probe_misses, resolve_report, well_known_probes, ResolveReport,
};
use sys_resolver::ffi::candidates_reply;
use sys_resolver::preload::{c_candidates, dlopen_fallback, fallback_candidates, shebang_argv};
use sys_resolver::remap::{
    candidates, first_present, in_scope, join, resolve, strip_legacy, system_root, Roots,
};
use sys_resolver::shebang::{is_shebang_head, shebang_line, split_interpreter, trim_text};
use sys_resolver::walk::{EntryKind, TreeWalk};

fn v(s: &str) -> Vec<u8> {
    s.as_bytes().to_vec()
}

fn test_roots() -> Roots {
    Roots::under(b"/nonexistent-sysroot-for-tests")
}

#[test]
fn join_follows_pathbuf_push() {
    assert_eq!(join(b"/a", b"b"), v("/a/b"));
    assert_eq!(join(b"/a/", b"b"), v("/a/b"));
    assert_eq!(join(b"/a", b"/b"), v("/b"));
    assert_eq!(join(b"", b"b"), v("b"));
    assert_eq!(join(b"a", b""), v("a/"));
}

#[test]
fn roots_under_a_system_root() {
    let r = Roots::under(b"/");
    assert_eq!(r.syshub, v("/overlayer/syshub"));
    assert_eq!(r.musl_sysdir, v("/overlayer/syshub/x86_64-zainium-linux-musl"));
    assert_eq!(r.union, v("/overlayer/zexlib/union"));
    assert_eq!(r.zaisys, v("/overlayer/zaisys"));
    let r = Roots::under(b"/mnt/root/");
    assert_eq!(r.syshub, v("/mnt/root/overlayer/syshub"));
}

#[test]
fn system_root_defaults_to_slash() {
    assert_eq!(system_root(None), v("/"));
    assert_eq!(system_root(Some(b"")), v("/"));
    assert_eq!(system_root(Some(b"/alt")), v("/alt"));
    assert_eq!(Roots::from_env(Some(b"")).syshub, v("/overlayer/syshub"));
    assert_eq!(Roots::from_env(Some(b"/alt")).zaisys, v("/alt/overlayer/zaisys"));
}

#[test]
fn scope_follows_the_first_component() {
    for p in ["/bin", "/sbin/x", "/lib/x", "/usr", "/opt/x", "/var/x", "/etc", "/boot/x"] {
        assert!(in_scope(p.as_bytes()), "{p} should be in scope");
    }
    assert!(in_scope(b"//usr/bin"));
    assert!(in_scope(b"/./usr/bin"));
    assert!(in_scope(b"/usr/"));
    for p in ["/home/x", "/tmp", "/proc", "/", "/.", "/..", "/../usr", "usr/bin", "", "/usrx", "/lib64"] {
        assert!(!in_scope(p.as_bytes()), "{p} should be out of scope");
    }
}

#[test]
fn strip_legacy_edge_cases() {
    assert_eq!(strip_legacy(b"/usr/local/bin/x"), Some(v("bin/x")));
    assert_eq!(strip_legacy(b"/usr/bin/foo"), Some(v("bin/foo")));
    assert_eq!(strip_legacy(b"/bin/foo"), Some(v("bin/foo")));
    assert_eq!(strip_legacy(b"/usr"), Some(v("usr")));
    assert_eq!(strip_legacy(b"/lib64"), Some(v("lib")));
    assert_eq!(strip_legacy(b"/lib/modules"), Some(v("drivers/modules")));
    assert_eq!(strip_legacy(b"/lib/firmware"), Some(v("drivers/hardware/firmwares")));
    assert_eq!(strip_legacy(b"/boot"), Some(v("kernel")));
    assert_eq!(strip_legacy(b"/lib64/modules/x"), Some(v("drivers/modules/x")));
    assert_eq!(strip_legacy(b"/"), None);
    assert_eq!(strip_legacy(b"/usr/"), None);
    assert_eq!(strip_legacy(b"usr/bin"), None);
    assert_eq!(strip_legacy(b"/usr/bin/\xff"), None);
}

#[test]
fn candidates_need_scope_and_a_remainder() {
    let roots = test_roots();
    assert_eq!(candidates(b"/home/x", &roots).len(), 0);
    assert_eq!(candidates(b"/usr/", &roots).len(), 0);
    assert_eq!(candidates(b"/usr/bin/\xff", &roots).len(), 0);
    let c = candidates(b"/boot/vmlinuz", &roots);
    assert_eq!(c.len(), 4);
    assert_eq!(c[3], v("/nonexistent-sysroot-for-tests/overlayer/zaisys/kernel/vmlinuz"));
}

#[test]
fn first_present_takes_the_first_found() {
    let cs = vec![v("a"), v("b"), v("c")];
    assert_eq!(first_present(&cs, &vec![false, true, true]), Some(v("b")));
    assert_eq!(first_present(&cs, &vec![false, false, false]), None);
    assert_eq!(first_present(&cs, &vec![true, false, false]), Some(v("a")));
}

#[test]
fn resolve_finds_nothing_where_nothing_exists() {
    assert_eq!(resolve(b"/usr/bin/env", &test_roots(), &vec![false; 4]), None);
    assert_eq!(resolve(b"/usr/bin/env", &test_roots(), &vec![]), None);
}

#[test]
fn resolve_takes_the_first_present_candidate() {
    let roots = test_roots();
    assert_eq!(
        resolve(b"/usr/bin/env", &roots, &vec![false, false, true, true]),
        Some(v("/nonexistent-sysroot-for-tests/overlayer/zexlib/union/bin/env"))
    );
    assert_eq!(
        resolve(b"/bin/env", &roots, &vec![true]),
        Some(v("/nonexistent-sysroot-for-tests/overlayer/syshub/bin/env"))
    );
    // Out of scope: no candidate, so no answer is read.
    assert_eq!(resolve(b"/home/x", &roots, &vec![true, true]), None);
}

#[test]
fn resolve_report_outcomes() {
    let roots = test_roots();
    let none = vec![false; 4];
    let r = resolve_report(b"usr/bin/env", &roots, &none);
    assert!(matches!(r, ResolveReport::NotAbsolute));
    assert_eq!(r.exit_code(), 2);
    let r = resolve_report(b"/usr/bin/env", &roots, &none);
    assert!(matches!(r, ResolveReport::NotFound));
    assert_eq!(r.exit_code(), 1);
    let r = resolve_report(b"/usr/bin/env", &roots, &vec![false, true, false, false]);
    match &r {
        ResolveReport::Found(p) => assert_eq!(
            p,
            &v("/nonexistent-sysroot-for-tests/overlayer/syshub/x86_64-zainium-linux-musl/bin/env")
        ),
        _ => panic!("expected the second candidate"),
    }
    assert_eq!(r.exit_code(), 0);
    let r = resolve_report(b"/home/x", &roots, &none);
    assert!(matches!(r, ResolveReport::OutOfScope));
    assert_eq!(r.exit_code(), 1);
    let r = resolve_report(b"/", &Roots::under(b"/"), &none);
    assert!(matches!(r, ResolveReport::OutOfScope));
    assert_eq!(ResolveReport::Found(v("/x")).exit_code(), 0);
}

#[test]
fn reply_codes_and_records() {
    let roots = test_roots();
    let r = candidates_reply(None, &roots, 4096, false);
    assert_eq!((r.code, r.bytes.len()), (0, 0));
    let r = candidates_reply(Some(b"/usr/bin/env"), &roots, 4096, true);
    assert_eq!((r.code, r.bytes.len()), (-1, 0));
    let r = candidates_reply(Some(b"/usr/bin/env"), &roots, 4096, false);
    assert_eq!(r.code, 4);
    let mut expected = Vec::new();
    for c in candidates(b"/usr/bin/env", &roots) {
        expected.extend_from_slice(&c);
        expected.push(0);
    }
    assert_eq!(r.bytes, expected);
    let exact = candidates_reply(Some(b"/usr/bin/env"), &roots, expected.len(), false);
    assert_eq!(exact.code, 4);
    let short = candidates_reply(Some(b"/usr/bin/env"), &roots, expected.len() - 1, false);
    assert_eq!(short.code, -1);
}

#[test]
fn reply_skips_candidates_that_are_not_text() {
    let roots = Roots::under(b"/r\xff");
    let r = candidates_reply(Some(b"/usr/bin/env"), &roots, 4096, false);
    assert_eq!((r.code, r.bytes.len()), (0, 0));
}

#[test]
fn fallback_only_on_enoent() {
    let roots = test_roots();
    let all = candidates(b"/usr/bin/env", &roots);
    assert_eq!(fallback_candidates(true, 2, Some(b"/usr/bin/env"), &roots), all);
    assert_eq!(fallback_candidates(true, 13, Some(b"/usr/bin/env"), &roots).len(), 0);
    assert_eq!(fallback_candidates(false, 2, Some(b"/usr/bin/env"), &roots).len(), 0);
    assert_eq!(fallback_candidates(true, 2, None, &roots).len(), 0);
    assert_eq!(dlopen_fallback(true, 2, Some(b"/lib/libz.so"), &roots).len(), 4);
    assert_eq!(dlopen_fallback(true, 8, Some(b"/lib/libz.so"), &roots).len(), 0);
    assert_eq!(dlopen_fallback(true, 2, None, &roots).len(), 0);
    assert_eq!(dlopen_fallback(false, 2, Some(b"/lib/libz.so"), &roots).len(), 0);
}

#[test]
fn c_candidates_drop_those_holding_nul() {
    let roots = Roots::under(b"/a\0b");
    assert_eq!(c_candidates(Some(b"/usr/bin/env"), &roots).len(), 0);
    assert_eq!(c_candidates(Some(b"/usr/bin/env"), &test_roots()).len(), 4);
}

#[test]
fn shebang_heads() {
    assert!(is_shebang_head(b"#!"));
    assert!(!is_shebang_head(b"#"));
    assert!(!is_shebang_head(b"!#"));
    assert!(!is_shebang_head(b""));
}

#[test]
fn shebang_lines() {
    assert_eq!(shebang_line(b"#!/bin/sh\necho hi\n"), Some("/bin/sh".to_string()));
    assert_eq!(shebang_line(b"#! /usr/bin/env  python3 \r\nx"), Some("/usr/bin/env  python3".to_string()));
    assert_eq!(shebang_line(b"#!/bin/sh"), Some("/bin/sh".to_string()));
    assert_eq!(shebang_line(b"#!"), None);
    assert_eq!(shebang_line(b"#!\n"), Some(String::new()));
    assert_eq!(shebang_line(b"#!\xff\n"), None);
    assert_eq!(shebang_line(b"#!\xe3\x80\x80/bin/sh\xc2\xa0\n"), Some("/bin/sh".to_string()));
}

#[test]
fn interpreter_splits_once() {
    assert_eq!(
        split_interpreter("/usr/bin/env  python3 -u"),
        Some(("/usr/bin/env".to_string(), Some("python3 -u".to_string())))
    );
    assert_eq!(split_interpreter("/bin/sh"), Some(("/bin/sh".to_string(), None)));
    assert_eq!(split_interpreter(""), None);
    assert_eq!(split_interpreter("/bin/sh\u{3000}-e"), Some(("/bin/sh".to_string(), Some("-e".to_string()))));
    assert_eq!(trim_text("\t a b \u{85}"), "a b".to_string());
}

#[test]
fn shebang_argv_layout() {
    let rest = vec![v("one"), v("two")];
    assert_eq!(
        shebang_argv(b"/i", Some(b"-x"), b"/s", &rest),
        vec![v("/i"), v("-x"), v("/s"), v("one"), v("two")]
    );
    assert_eq!(shebang_argv(b"/i", None, b"/s", &vec![]), vec![v("/i"), v("/s")]);
    assert_eq!(shebang_argv(b"/i", Some(b"a\0b"), b"/s", &vec![]), vec![v("/i"), v("/s")]);
}

#[test]
fn tree_walk_bookkeeping() {
    let mut w = TreeWalk::new(b"/r", Some(b"/r/skip"));
    let (d, rel) = w.next_dir().unwrap();
    assert_eq!((d.clone(), rel.clone()), (v("/r"), v("")));
    w.visit(
        &d,
        &rel,
        &vec![
            (v("a"), EntryKind::NotDirectory),
            (v("sub"), EntryKind::Directory),
            (v("skip"), EntryKind::Directory),
            (v("gone"), EntryKind::Unknown),
        ],
    );
    let (d, rel) = w.next_dir().unwrap();
    assert_eq!((d.clone(), rel.clone()), (v("/r/sub"), v("sub")));
    w.visit(&d, &rel, &vec![(v("b"), EntryKind::NotDirectory)]);
    assert!(w.next_dir().is_none());
    assert_eq!(w.into_files(), vec![v("a"), v("sub/b")]);
}

#[test]
fn tree_walk_excludes_by_components() {
    let mut w = TreeWalk::new(b"/r", Some(b"/r//./skip/"));
    let (d, rel) = w.next_dir().unwrap();
    w.visit(
        &d,
        &rel,
        &vec![(v("skip"), EntryKind::Directory), (v("skipped"), EntryKind::Directory)],
    );
    let (d, _) = w.next_dir().unwrap();
    assert_eq!(d, v("/r/skipped"));
    assert!(w.next_dir().is_none());
}

#[test]
fn paths_compare_by_components() {
    assert!(same_path(b"/a/b", b"/a/b/"));
    assert!(same_path(b"/a//b", b"/a/./b"));
    assert!(same_path(b"./a", b"./a/."));
    assert!(!same_path(b"./a", b"a"));
    assert!(!same_path(b"/a", b"a"));
    assert!(!same_path(b"/a/b", b"/a/c"));
    assert!(!same_path(b"/a/..", b"/"));
    assert_eq!(components(b"//a/./b//c/"), vec![v("a"), v("b"), v("c")]);
    assert_eq!(components(b"."), Vec::<Vec<u8>>::new());
}

fn probed(rel: &str, present: Vec<bool>, reachable: bool, entry_present: bool) -> ProbedFile {
    ProbedFile { relative: v(rel), present, reachable, entry_present }
}

#[test]
fn audit_classifies_each_file_from_its_answers() {
    let roots = test_roots();
    assert_eq!(alias_for(b"bin/env"), v("/usr/bin/env"));
    let files = vec![
        probed("bin/ok", vec![true, false, false, false], true, true),
        probed("bin/dangling", vec![false; 4], false, true),
        probed("bin/gap", vec![false; 4], true, true),
        probed("bin/gone", vec![false; 4], false, false),
    ];
    let r = audit_one_root("syshub", &roots.syshub, &files, &roots);
    assert_eq!(r.checked, 4);
    assert_eq!(r.misses.len(), 3);
    assert_eq!(r.misses[0].real_path, v("/nonexistent-sysroot-for-tests/overlayer/syshub/bin/dangling"));
    assert_eq!(r.misses[0].alias_tried, v("/usr/bin/dangling"));
    assert_eq!(r.misses[0].reason, MissReason::SourceIsDanglingSymlink);
    assert_eq!(r.misses[1].reason, MissReason::NoAliasResolved);
    assert_eq!(r.misses[2].reason, MissReason::NoAliasResolved);
    let all = full_audit(&roots, &files, &vec![], &vec![probed("include/x.h", vec![false, false, true, false], false, false)]);
    assert_eq!(all.len(), 3);
    assert_eq!(all[0].root_label, "syshub");
    assert_eq!(all[1].root_label, "MUSL_SYSDIR");
    assert_eq!(all[1].checked, 0);
    assert_eq!(all[2].root_label, "zexlib/union");
    assert_eq!((all[2].checked, all[2].misses.len()), (1, 0));
}

#[test]
fn probe_misses_counts_the_unresolved() {
    assert_eq!(probe_misses(&vec![Some(v("/x")), None, None]), 2);
    assert_eq!(probe_misses(&vec![]), 0);
}

#[test]
fn audit_records_misses_in_order() {
    let rels = vec![v("bin/a"), v("bin/b"), v("bin/c")];
    let outcomes = vec![None, Some(MissReason::SourceIsDanglingSymlink), Some(MissReason::NoAliasResolved)];
    let r = audit_from_outcomes("syshub", b"/root", &rels, &outcomes);
    assert_eq!(r.root_label, "syshub");
    assert_eq!(r.checked, 3);
    assert_eq!(r.misses.len(), 2);
    assert_eq!(r.misses[0].real_path, v("/root/bin/b"));
    assert_eq!(r.misses[0].alias_tried, v("/usr/bin/b"));
    assert_eq!(r.misses[1].reason, MissReason::NoAliasResolved);
    assert_eq!(r.dangling_count(), 1);
    assert_eq!(r.gap_count(), 1);
    let t = doctor_totals(&vec![r]);
    assert_eq!((t.checked, t.dangling, t.gaps), (3, 1, 1));
    assert!(doctor_fails(0, 1));
    assert!(doctor_fails(1, 0));
    assert!(!doctor_fails(0, 0));
    assert_eq!(well_known_probes().len(), 7);
    assert_eq!(well_known_probes()[0], "/usr/bin/env");
}

#[test]
fn repeated_separators_stay_under_the_roots() {
    assert_eq!(strip_legacy(b"/usr//bin/x"), Some(v("bin/x")));
    assert_eq!(strip_legacy(b"//usr/local//bin/x"), Some(v("bin/x")));
    assert_eq!(strip_legacy(b"/usr//lib64/x"), Some(v("lib/x")));
    let roots = test_roots();
    let c = candidates(b"/usr//bin/x", &roots);
    assert_eq!(c.len(), 4);
    assert_eq!(c[0], v("/nonexistent-sysroot-for-tests/overlayer/syshub/bin/x"));
    assert!(c[3].starts_with(&roots.zaisys));
}

#[test]
fn miss_reasons_follow_the_answers() {
    assert_eq!(classify(true, false, true), None);
    assert_eq!(classify(false, false, true), Some(MissReason::SourceIsDanglingSymlink));
    assert_eq!(classify(false, true, true), Some(MissReason::NoAliasResolved));
    assert_eq!(classify(false, false, false), Some(MissReason::NoAliasResolved));
}

/// Run the `execve` machine, answering its questions from `opens` (the
/// paths that open) and `heads` (the heads of files), until it runs
/// something.
fn drive_execve(
    path: Option<&[u8]>,
    rest: &Vec<Vec<u8>>,
    roots: &Roots,
    opens: &[&str],
    heads: &[(&str, &[u8])],
) -> ExecveAction {
    let (mut state, mut action): (ExecveState, ExecveAction) = execve_start(path, rest);
    loop {
        let event = match &action {
            ExecveAction::Probe(p) => ExecveEvent::Opens(opens.iter().any(|o| o.as_bytes() == p.as_slice())),
            ExecveAction::Read(p, len) => ExecveEvent::Head(
                heads
                    .iter()
                    .find(|(f, _)| f.as_bytes() == p.as_slice())
                    .map(|(_, h)| h[..h.len().min(*len)].to_vec()),
            ),
            _ => return action,
        };
        let (s, a) = execve_step(&state, event, roots);
        state = s;
        action = a;
    }
}

fn run_of(a: &ExecveAction) -> Option<(Vec<u8>, Option<Vec<Vec<u8>>>)> {
    match a {
        ExecveAction::Run(t, argv) => Some((t.clone(), argv.clone())),
        _ => None,
    }
}

#[test]
fn execve_runs_the_path_or_its_first_candidate() {
    let roots = Roots::under(b"/z");
    let rest = vec![v("x")];
    // The path itself opens and is no script: the original call.
    let a = drive_execve(Some(b"/usr/bin/tool"), &rest, &roots, &["/usr/bin/tool"], &[("/usr/bin/tool", b"\x7fELF")]);
    assert!(matches!(a, ExecveAction::RunOriginal));
    // Only the union candidate opens.
    let a = drive_execve(Some(b"/usr/bin/tool"), &rest, &roots, &["/z/overlayer/zexlib/union/bin/tool"], &[]);
    assert_eq!(run_of(&a), Some((v("/z/overlayer/zexlib/union/bin/tool"), None)));
    // Nothing opens: the original call.
    let a = drive_execve(Some(b"/usr/bin/tool"), &rest, &roots, &[], &[]);
    assert!(matches!(a, ExecveAction::RunOriginal));
    // A null path, or one that is not text.
    assert!(matches!(drive_execve(None, &rest, &roots, &[], &[]), ExecveAction::RunOriginal));
    assert!(matches!(drive_execve(Some(b"/usr/\xff"), &rest, &roots, &[], &[]), ExecveAction::RunOriginal));
}

#[test]
fn execve_reroutes_scripts_to_their_interpreter() {
    let roots = Roots::under(b"/z");
    let rest = vec![v("a1"), v("a2")];
    let script: &[u8] = b"#!/usr/bin/env python3\nprint(1)\n";
    let a = drive_execve(
        Some(b"/opt/s.py"),
        &rest,
        &roots,
        &["/opt/s.py", "/z/overlayer/syshub/bin/env"],
        &[("/opt/s.py", script)],
    );
    assert_eq!(
        run_of(&a),
        Some((
            v("/z/overlayer/syshub/bin/env"),
            Some(vec![v("/z/overlayer/syshub/bin/env"), v("python3"), v("/opt/s.py"), v("a1"), v("a2")])
        ))
    );
    // The interpreter opens where it is named.
    let a = drive_execve(Some(b"/opt/s.py"), &rest, &roots, &["/opt/s.py", "/usr/bin/env"], &[("/opt/s.py", script)]);
    assert_eq!(
        run_of(&a),
        Some((v("/usr/bin/env"), Some(vec![v("/usr/bin/env"), v("python3"), v("/opt/s.py"), v("a1"), v("a2")])))
    );
    // No interpreter anywhere: the script found runs as it is.
    let a = drive_execve(
        Some(b"/usr/bin/s"),
        &rest,
        &roots,
        &["/z/overlayer/syshub/bin/s"],
        &[("/z/overlayer/syshub/bin/s", script)],
    );
    assert_eq!(run_of(&a), Some((v("/z/overlayer/syshub/bin/s"), None)));
}
