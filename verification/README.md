# sys_resolver

Dynamic resolution of legacy FHS paths (`/usr/bin/env`, `/lib64/...`,
`/lib/firmware`, `/boot`, ...) on a system whose real trees live under
`overlayer/syshub`, its musl sysroot, `overlayer/zexlib/union` and
`overlayer/zaisys`. Paths are byte strings, as on Unix.

- `src/` — the verified library (Verus):
  - `remap` — path joining, the scope guard, stripping legacy segments,
    the ordered candidates and resolution;
  - `audit`, `walk` — the full-tree reachability audit and the bookkeeping
    of its directory walk;
  - `ffi` — the reply of the C entry point `sys_resolver_candidates`;
  - `preload`, `shebang`, `execve` — the decisions of the `LD_PRELOAD`
    interposition: which paths are retried after `ENOENT`, and the state
    machine of `execve` (which file runs, and how a script's interpreter
    line reroutes it);
  - `cli` — the outcomes of `sys-resolver resolve` and `doctor`;
  - `laws` — properties of the resolver as a whole;
  - `host` — the outside calls (text decoding, `libc`).
- `app/` — the system side: the `sys-resolver` command, the C exports,
  the interposed libc functions, and what the library's decisions take
  from the real file system: the directory walk and the answers of the
  probes (whether an entry is at a path), asked on the raw bytes of each
  path. Resolution and the audit take those answers as arguments.
- `tests/` — concrete cases.
