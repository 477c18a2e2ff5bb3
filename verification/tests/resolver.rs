//! The resolver against the drive of the deployed system, mounted at
//! `/run/media/alizain/ZAINIUM_DRIVE/zairoot`. Every answer of the file
//! system that resolution and the audit take comes from that drive when it
//! is mounted; on a machine without it, from `RECORDED_DRIVE`, a record of
//! the drive's entries that these cases rely on. The library's code under
//! test is the same either way; only the count and the timing of the full
//! audit need the mounted drive.

use std::path::Path;
use std::time::Instant;
use sys_resolver::audit::{alias_for, full_audit, MissReason, ProbedFile};
use sys_resolver::ffi::candidates_reply;
use sys_resolver::walk::{audit_walks, EntryKind, TreeWalk};
use sys_resolver::remap::{candidates, join, resolve, strip_legacy, Roots};

const ZAIROOT: &str = "/run/media/alizain/ZAINIUM_DRIVE/zairoot";

/// Entries of the drive below `ZAIROOT`, with whether each one is a
/// dangling symbolic link; the directories above them are on it too.
const RECORDED_DRIVE: &[(&str, bool)] = &[
    ("overlayer/syshub/bin/env", false),
    ("overlayer/syshub/var/lib/state", false),
    ("overlayer/syshub/etc/passwd", false),
    ("overlayer/syshub/drivers/hardware/firmwares/some-device.bin", false),
    ("overlayer/syshub/x86_64-zainium-linux-musl/lib/libc.a", false),
    ("overlayer/zexlib/union/include/dav1d/dav1d.h", false),
    ("overlayer/zexlib/union/lib/libgone.so", true),
    ("overlayer/zaisys/kernel/vmlinuz", false),
];

fn drive_mounted() -> bool {
    Path::new(ZAIROOT).join("overlayer").is_dir()
}

/// The recorded entry at `p`: `Some(true)` for a directory (a proper
/// prefix of an entry), `Some(false)` for an entry itself.
fn recorded(p: &str) -> Option<(bool, bool)> {
    RECORDED_DRIVE.iter().find_map(|(e, dangling)| {
        let full = format!("{ZAIROOT}/{e}");
        if full == p {
            Some((false, *dangling))
        } else if full.starts_with(&format!("{p}/")) || (p == ZAIROOT) {
            Some((true, false))
        } else {
            None
        }
    })
}

/// Whether the drive has an entry at `p`, following links.
fn is_on_disk(p: &[u8]) -> bool {
    let Ok(s) = std::str::from_utf8(p) else { return false };
    if drive_mounted() {
        return Path::new(s).exists();
    }
    matches!(recorded(s), Some((_, false)))
}

/// Whether the drive has an entry at `p`, not following links.
fn entry_present(p: &[u8]) -> bool {
    let Ok(s) = std::str::from_utf8(p) else { return false };
    if drive_mounted() {
        return Path::new(s).symlink_metadata().is_ok();
    }
    recorded(s).is_some()
}

/// The name and kind of each entry of the directory `dir` of the drive.
fn list_dir(dir: &[u8]) -> Option<Vec<(Vec<u8>, EntryKind)>> {
    let dir = String::from_utf8(dir.to_vec()).ok()?;
    let mut out = Vec::new();
    if drive_mounted() {
        for entry in Path::new(&dir).read_dir().ok()?.flatten() {
            let kind = match entry.path().symlink_metadata() {
                Ok(m) if m.is_dir() => EntryKind::Directory,
                Ok(_) => EntryKind::NotDirectory,
                Err(_) => EntryKind::Unknown,
            };
            out.push((entry.file_name().to_string_lossy().into_owned().into_bytes(), kind));
        }
        return Some(out);
    }
    if !matches!(recorded(&dir), Some((true, _))) {
        return None;
    }
    for (e, _) in RECORDED_DRIVE {
        let full = format!("{ZAIROOT}/{e}");
        if let Some(rest) = full.strip_prefix(&format!("{dir}/")) {
            let (name, kind) = match rest.split_once('/') {
                Some((name, _)) => (name, EntryKind::Directory),
                None => (rest, EntryKind::NotDirectory),
            };
            if !out.iter().any(|(n, _)| n == name.as_bytes()) {
                out.push((name.as_bytes().to_vec(), kind));
            }
        }
    }
    Some(out)
}

/// The drive's answer for each candidate of `path`.
fn answers(path: &[u8], roots: &Roots) -> Vec<bool> {
    candidates(path, roots).iter().map(|c| is_on_disk(c)).collect()
}

/// `path` resolved against the drive.
fn resolve_live(path: &[u8], roots: &Roots) -> Option<Vec<u8>> {
    resolve(path, roots, &answers(path, roots))
}

fn live_roots() -> Roots {
    Roots::under(ZAIROOT.as_bytes())
}

fn bytes(s: &str) -> Vec<u8> {
    s.as_bytes().to_vec()
}

fn text(b: &[u8]) -> String {
    String::from_utf8_lossy(b).into_owned()
}

#[test]
fn resolves_env_under_syshub_bin() {
    let got = resolve_live(b"/usr/bin/env", &live_roots()).unwrap();
    assert_eq!(
        got,
        bytes("/run/media/alizain/ZAINIUM_DRIVE/zairoot/overlayer/syshub/bin/env")
    );
}

#[test]
fn resolves_bare_bin_path_without_usr_prefix() {
    let got = resolve_live(b"/bin/env", &live_roots()).unwrap();
    assert_eq!(
        got,
        bytes("/run/media/alizain/ZAINIUM_DRIVE/zairoot/overlayer/syshub/bin/env")
    );
}

#[test]
fn resolves_header_that_only_exists_under_zexlib_union() {
    let got = resolve_live(b"/usr/include/dav1d/dav1d.h", &live_roots()).unwrap();
    assert_eq!(
        got,
        bytes("/run/media/alizain/ZAINIUM_DRIVE/zairoot/overlayer/zexlib/union/include/dav1d/dav1d.h")
    );
}

#[test]
fn scope_guard_refuses_unrelated_prefixes() {
    let roots = live_roots();
    for p in ["/home/alizain/whatever", "/proc/self", "/tmp/x", "/root/x"] {
        assert_eq!(resolve_live(p.as_bytes(), &roots), None, "should refuse {p}");
    }
}

#[test]
fn resolves_var_and_etc_under_syshub() {
    let roots = live_roots();
    assert_eq!(resolve_live(b"/var", &roots), Some(join(&roots.syshub, b"var")));
    assert_eq!(
        resolve_live(b"/etc/passwd", &roots),
        Some(join(&roots.syshub, b"etc/passwd"))
    );
}

#[test]
fn never_invents_a_path_that_does_not_exist() {
    let got = resolve_live(b"/usr/bin/this-binary-does-not-exist-anywhere", &live_roots());
    assert_eq!(got, None);
}

#[test]
fn strip_legacy_folds_lib64_into_lib() {
    assert_eq!(
        strip_legacy(b"/lib64/ld-linux-x86-64.so.2"),
        Some(bytes("lib/ld-linux-x86-64.so.2"))
    );
    assert_eq!(strip_legacy(b"/usr/lib64/foo.so"), Some(bytes("lib/foo.so")));
}

#[test]
fn candidates_are_pure_and_ordered_no_io() {
    let roots = live_roots();
    let got = candidates(b"/usr/bin/definitely-not-real", &roots);
    assert_eq!(
        got,
        vec![
            join(&roots.syshub, b"bin/definitely-not-real"),
            join(&roots.musl_sysdir, b"bin/definitely-not-real"),
            join(&roots.union, b"bin/definitely-not-real"),
            join(&roots.zaisys, b"bin/definitely-not-real"),
        ]
    );
}

#[test]
fn strip_legacy_maps_modules_firmware_and_boot() {
    assert_eq!(
        strip_legacy(b"/lib/modules/6.1.0/foo.ko"),
        Some(bytes("drivers/modules/6.1.0/foo.ko"))
    );
    assert_eq!(
        strip_legacy(b"/lib/firmware/some-device.bin"),
        Some(bytes("drivers/hardware/firmwares/some-device.bin"))
    );
    assert_eq!(
        strip_legacy(b"/boot/some-kernel-image"),
        Some(bytes("kernel/some-kernel-image"))
    );
}

#[test]
fn resolves_real_firmware_dir_under_drivers() {
    let roots = live_roots();
    let got = resolve_live(b"/lib/firmware", &roots).unwrap();
    assert_eq!(got, join(&roots.syshub, b"drivers/hardware/firmwares"));
}

#[test]
fn resolves_boot_dir_under_zaisys_kernel() {
    let roots = live_roots();
    let got = resolve_live(b"/boot", &roots).unwrap();
    assert_eq!(got, join(&roots.zaisys, b"kernel"));
}

#[test]
fn strip_legacy_leaves_non_usr_subdirs_alone() {
    assert_eq!(strip_legacy(b"/usr/libexec/foo"), Some(bytes("libexec/foo")));
}

fn walk_relative(mut w: TreeWalk) -> Vec<Vec<u8>> {
    while let Some((dir, rel)) = w.next_dir() {
        if let Some(entries) = list_dir(&dir) {
            w.visit(&dir, &rel, &entries);
        }
    }
    w.into_files()
}

/// The real file at `rel` below `root`, with the drive's answers.
fn probe_file(root: &[u8], rel: Vec<u8>, roots: &Roots) -> ProbedFile {
    let present = answers(&alias_for(&rel), roots);
    let real = join(root, &rel);
    let reachable = is_on_disk(&real);
    let entry = entry_present(&real);
    ProbedFile { relative: rel, present, reachable, entry_present: entry }
}

#[test]
fn every_real_file_is_reachable_or_a_known_dangling_symlink() {
    let roots = live_roots();
    let start = Instant::now();
    let audited = [roots.syshub.clone(), roots.musl_sysdir.clone(), roots.union.clone()];
    let files: Vec<Vec<ProbedFile>> = audit_walks(&roots)
        .into_iter()
        .zip(audited.iter())
        .map(|(w, root)| {
            walk_relative(w).into_iter().map(|rel| probe_file(root, rel, &roots)).collect()
        })
        .collect();
    let results = full_audit(&roots, &files[0], &files[1], &files[2]);
    let elapsed = start.elapsed();

    let mut total_checked = 0usize;
    let mut genuine_gaps: Vec<String> = Vec::new();
    for r in &results {
        total_checked += r.checked;
        for m in &r.misses {
            if matches!(m.reason, MissReason::NoAliasResolved) {
                genuine_gaps.push(format!(
                    "{} (tried {})",
                    text(&m.real_path),
                    text(&m.alias_tried)
                ));
            }
        }
    }

    if drive_mounted() {
        assert!(
            total_checked > 30_000,
            "expected tens of thousands of real files, only found {total_checked}"
        );
    } else {
        let audited = RECORDED_DRIVE.iter().filter(|(e, _)| !e.starts_with("overlayer/zaisys/"));
        assert_eq!(total_checked, audited.count());
        let dangling: Vec<String> = results
            .iter()
            .flat_map(|r| r.misses.iter())
            .filter(|m| matches!(m.reason, MissReason::SourceIsDanglingSymlink))
            .map(|m| text(&m.real_path))
            .collect();
        assert_eq!(dangling, vec![format!("{ZAIROOT}/overlayer/zexlib/union/lib/libgone.so")]);
    }
    assert!(
        genuine_gaps.is_empty(),
        "{} real files have no working legacy alias:\n{}",
        genuine_gaps.len(),
        genuine_gaps.join("\n")
    );
    if drive_mounted() {
        assert!(elapsed.as_secs() < 5, "full audit took {elapsed:?} — too slow");
    }
}

/// The NUL-terminated records at the front of `buf`, `n` of them.
fn read_records(buf: &[u8], n: i32) -> Vec<String> {
    let mut got = Vec::new();
    let mut rest = &buf[..];
    for _ in 0..n {
        let end = rest.iter().position(|&b| b == 0).unwrap();
        got.push(String::from_utf8(rest[..end].to_vec()).unwrap());
        rest = &rest[end + 1..];
    }
    got
}

#[test]
fn ffi_round_trip_matches_the_pure_rust_candidates() {
    let roots = Roots::from_env(Some(ZAIROOT.as_bytes()));
    let mut buf = vec![0u8; 4096];
    let reply = candidates_reply(Some(b"/usr/bin/env"), &roots, buf.len(), false);
    let n = reply.code;
    if n > 0 {
        buf[..reply.bytes.len()].copy_from_slice(&reply.bytes);
    }
    assert_eq!(n, 4, "expected 4 ordered candidates for /usr/bin/env");

    let expected = candidates(b"/usr/bin/env", &roots);
    let got = read_records(&buf, n);
    let expected_strs: Vec<String> = expected.iter().map(|p| text(p)).collect();
    assert_eq!(got, expected_strs);
    assert!(is_on_disk(got[0].as_bytes()));
}

#[test]
fn ffi_reports_buffer_too_small_instead_of_writing_garbage() {
    let roots = Roots::from_env(Some(ZAIROOT.as_bytes()));
    let buf = vec![0u8; 1];
    let reply = candidates_reply(Some(b"/usr/bin/env"), &roots, buf.len(), false);
    assert_eq!(reply.code, -1);
}

#[test]
fn ffi_returns_zero_for_out_of_scope_path() {
    let roots = Roots::from_env(Some(ZAIROOT.as_bytes()));
    let buf = vec![0u8; 4096];
    let reply = candidates_reply(Some(b"/home/alizain/whatever"), &roots, buf.len(), false);
    assert_eq!(reply.code, 0);
}
