//! The decisions of the `LD_PRELOAD` interposition of `open`, `openat`,
//! `access`, `faccessat`, `stat`, `lstat`, `fstatat`, `fopen`, `dlopen` and
//! `execve`: the real function is tried first, and only a genuine `ENOENT`
//! lets the resolved candidates be retried, in order.
use vstd::prelude::*;
use crate::bytes::{contains_byte, push_copy, NUL};
use crate::host::enoent;
use crate::remap::{candidates, spec_candidates, Roots};

verus! {

/// Those of `cs` that hold no NUL, that is, that can be handed to C, in
/// order.
pub open spec fn without_nul(cs: Seq<Seq<u8>>) -> Seq<Seq<u8>>
    decreases cs.len(),
{
    if cs.len() == 0 {
        seq![]
    } else {
        let prev = without_nul(cs.drop_last());
        if cs.last().contains(NUL) {
            prev
        } else {
            prev.push(cs.last())
        }
    }
}

/// The candidates, as C strings, for the C path `path` (`None`: a null
/// pointer).
pub open spec fn spec_c_candidates(path: Option<Seq<u8>>, roots: &Roots) -> Seq<Seq<u8>> {
    match path {
        Some(p) => without_nul(spec_candidates(p, roots)),
        None => seq![],
    }
}

/// The optional path as a value.
pub open spec fn opt_seq(path: Option<&[u8]>) -> Option<Seq<u8>> {
    match path {
        Some(p) => Some(p@),
        None => None,
    }
}

/// The candidates of the C path `path` (`None`: a null pointer) that can be
/// handed to C, in order.
pub fn c_candidates(path: Option<&[u8]>, roots: &Roots) -> (r: Vec<Vec<u8>>)
    ensures
        r.deep_view() == spec_c_candidates(opt_seq(path), roots),
{
    let mut out: Vec<Vec<u8>> = Vec::new();
    let p = match path {
        Some(p) => p,
        None => {
            assert(out.deep_view() =~= seq![]);
            return out;
        },
    };
    let cands = candidates(p, roots);
    let mut i: usize = 0;
    assert(cands.deep_view().take(0) =~= Seq::<Seq<u8>>::empty());
    assert(out.deep_view() =~= without_nul(Seq::<Seq<u8>>::empty()));
    while i < cands.len()
        invariant
            i <= cands.len(),
            out.deep_view() == without_nul(cands.deep_view().take(i as int)),
        decreases cands.len() - i,
    {
        let ghost next = cands.deep_view().take(i + 1);
        assert(cands.deep_view()[i as int] == cands@[i as int]@);
        assert(next.drop_last() =~= cands.deep_view().take(i as int));
        assert(next.last() == cands@[i as int]@);
        if !contains_byte(&cands[i], NUL) {
            push_copy(&mut out, &cands[i]);
        }
        i = i + 1;
    }
    assert(cands.deep_view().take(cands.len() as int) =~= cands.deep_view());
    out
}

/// A failed call is retried on the candidates exactly when it failed with
/// `ENOENT`.
pub open spec fn spec_wants_fallback(call_failed: bool, errno: i32) -> bool {
    call_failed && errno == 2
}

/// The paths on which a path-taking call (`open`, `openat`, `access`,
/// `faccessat`, `stat`, `lstat`, `fstatat`, `fopen`) is retried, in order,
/// after its first attempt on `path` (`None`: a null pointer): none unless
/// that attempt failed (`call_failed`) with `errno` equal to `ENOENT`.
pub fn fallback_candidates(call_failed: bool, errno: i32, path: Option<&[u8]>, roots: &Roots) -> (r:
    Vec<Vec<u8>>)
    ensures
        spec_wants_fallback(call_failed, errno) ==> r.deep_view() == spec_c_candidates(
            opt_seq(path),
            roots,
        ),
        !spec_wants_fallback(call_failed, errno) ==> r.len() == 0,
{
    if call_failed && errno == enoent() {
        c_candidates(path, roots)
    } else {
        Vec::new()
    }
}

/// The paths on which `dlopen` is retried, in order, after its first
/// attempt on `path` (`None`: a null pointer): as for every interposed call,
/// none unless that attempt failed (`call_failed`) with `errno` equal to
/// `ENOENT` and a path was given.
pub fn dlopen_fallback(call_failed: bool, errno: i32, path: Option<&[u8]>, roots: &Roots) -> (r:
    Vec<Vec<u8>>)
    ensures
        (spec_wants_fallback(call_failed, errno) && path is Some) ==> r.deep_view()
            == spec_c_candidates(opt_seq(path), roots),
        !(spec_wants_fallback(call_failed, errno) && path is Some) ==> r.len() == 0,
{
    if call_failed && errno == enoent() && path.is_some() {
        c_candidates(path, roots)
    } else {
        Vec::new()
    }
}

/// The argument vector that runs a script through its interpreter: the
/// interpreter, its argument (unless it holds a NUL), the script's path,
/// then the script's own arguments after the first.
pub open spec fn spec_shebang_argv(
    interp: Seq<u8>,
    arg: Option<Seq<u8>>,
    script: Seq<u8>,
    rest: Seq<Seq<u8>>,
) -> Seq<Seq<u8>> {
    let head = match arg {
        Some(a) => if a.contains(NUL) {
            seq![interp]
        } else {
            seq![interp, a]
        },
        None => seq![interp],
    };
    head.push(script) + rest
}

/// The argument vector for `execve` of the resolved interpreter `interp`
/// with the interpreter argument `arg`, the script `script`, and the
/// script's arguments after the first, `rest`.
pub fn shebang_argv(interp: &[u8], arg: Option<&[u8]>, script: &[u8], rest: &Vec<Vec<u8>>) -> (r:
    Vec<Vec<u8>>)
    ensures
        r.deep_view() == spec_shebang_argv(interp@, opt_seq(arg), script@, rest.deep_view()),
{
    let mut out: Vec<Vec<u8>> = Vec::new();
    push_copy(&mut out, interp);
    match arg {
        Some(a) => {
            if !contains_byte(a, NUL) {
                push_copy(&mut out, a);
            }
        },
        None => {},
    }
    push_copy(&mut out, script);
    let ghost head = out.deep_view();
    assert(head =~= spec_shebang_argv(interp@, opt_seq(arg), script@, Seq::<Seq<u8>>::empty()));
    let mut i: usize = 0;
    while i < rest.len()
        invariant
            i <= rest.len(),
            out.deep_view() == head + rest.deep_view().take(i as int),
        decreases rest.len() - i,
    {
        push_copy(&mut out, &rest[i]);
        assert(rest.deep_view()[i as int] == rest@[i as int]@);
        assert(out.deep_view() =~= head + rest.deep_view().take(i + 1));
        i = i + 1;
    }
    assert(rest.deep_view().take(rest.len() as int) =~= rest.deep_view());
    assert(spec_shebang_argv(interp@, opt_seq(arg), script@, rest.deep_view()) =~= head
        + rest.deep_view());
    out
}

} // verus!
