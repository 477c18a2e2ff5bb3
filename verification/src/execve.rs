//! The decisions of the interposed `execve`, as a state machine: the caller
//! performs each action (probe whether a path opens, read the head of a
//! file, run a program) and hands back what it found.
//!
//! The order: run the path itself if it opens, else the first of its
//! candidates that opens, else the original call unchanged. If the file to
//! run starts with `#!`, its interpreter line is read; an interpreter that
//! opens, or else its first candidate that opens, runs the script with the
//! interpreter's argument, the script's path and the script's own arguments.
//! Otherwise the file found runs with the caller's arguments.
use vstd::prelude::*;
use vstd::string::StrSliceExecFns;
use vstd::utf8::{encode_utf8, valid_utf8};
use crate::bytes::{contains_byte, copy_bytes, push_copy, NUL};
use crate::host::decode_text;
use crate::preload::{c_candidates, opt_seq, shebang_argv, spec_c_candidates, spec_shebang_argv};
use crate::remap::Roots;
use crate::shebang::{
    is_shebang_head, shebang_line, spec_is_shebang_head, spec_shebang_line, spec_split_interpreter,
    split_interpreter, SHEBANG_READ_LEN,
};

verus! {

/// Where the machine stands.
pub enum ExecvePhase {
    /// Asked whether the path opens.
    CheckPath,
    /// Asked whether the candidate `cands[next]` of the path opens.
    TryCandidate { cands: Vec<Vec<u8>>, next: usize },
    /// Asked for the first two bytes of the file `effective` that will run.
    CheckHead { effective: Vec<u8> },
    /// Asked for the head of the script `effective`, to read its
    /// interpreter line.
    ReadLine { effective: Vec<u8> },
    /// Asked whether the interpreter `interp` (with argument `arg`) opens.
    CheckInterp { effective: Vec<u8>, interp: Vec<u8>, arg: Option<Vec<u8>> },
    /// Asked whether the candidate `cands[next]` of the interpreter opens.
    TryInterp { effective: Vec<u8>, cands: Vec<Vec<u8>>, next: usize, arg: Option<Vec<u8>> },
    /// Nothing more to ask.
    Done,
}

/// The state of one interposed `execve`: the path it was called with, the
/// arguments after the first, and where the machine stands.
pub struct ExecveState {
    pub path: Vec<u8>,
    pub rest: Vec<Vec<u8>>,
    pub phase: ExecvePhase,
}

/// What the caller found.
pub enum ExecveEvent {
    /// Whether the probed path opens.
    Opens(bool),
    /// The bytes read from the head of the file, `None` if it does not open.
    Head(Option<Vec<u8>>),
}

/// What the caller is to do next.
pub enum ExecveAction {
    /// Probe whether the path opens.
    Probe(Vec<u8>),
    /// Read up to so many bytes from the start of the file.
    Read(Vec<u8>, usize),
    /// Make the original call, with the caller's own path and arguments.
    RunOriginal,
    /// Run the program at the path, with this argument vector, or with the
    /// caller's own when `None`.
    Run(Vec<u8>, Option<Vec<Vec<u8>>>),
}

/// The phase as values.
pub enum PhaseView {
    CheckPath,
    TryCandidate(Seq<Seq<u8>>, int),
    CheckHead(Seq<u8>),
    ReadLine(Seq<u8>),
    CheckInterp(Seq<u8>, Seq<u8>, Option<Seq<u8>>),
    TryInterp(Seq<u8>, Seq<Seq<u8>>, int, Option<Seq<u8>>),
    Done,
}

/// The state as values.
pub struct StateView {
    pub path: Seq<u8>,
    pub rest: Seq<Seq<u8>>,
    pub phase: PhaseView,
}

/// The event as values.
pub enum EventView {
    Opens(bool),
    Head(Option<Seq<u8>>),
}

/// The action as values.
pub enum ActionView {
    Probe(Seq<u8>),
    Read(Seq<u8>, int),
    RunOriginal,
    Run(Seq<u8>, Option<Seq<Seq<u8>>>),
}

/// An optional byte string as a value.
pub open spec fn opt_view(o: Option<Vec<u8>>) -> Option<Seq<u8>> {
    match o {
        Some(v) => Some(v@),
        None => None,
    }
}

impl View for ExecvePhase {
    type V = PhaseView;

    open spec fn view(&self) -> PhaseView {
        match self {
            ExecvePhase::CheckPath => PhaseView::CheckPath,
            ExecvePhase::TryCandidate { cands, next } => PhaseView::TryCandidate(
                cands.deep_view(),
                *next as int,
            ),
            ExecvePhase::CheckHead { effective } => PhaseView::CheckHead(effective@),
            ExecvePhase::ReadLine { effective } => PhaseView::ReadLine(effective@),
            ExecvePhase::CheckInterp { effective, interp, arg } => PhaseView::CheckInterp(
                effective@,
                interp@,
                opt_view(*arg),
            ),
            ExecvePhase::TryInterp { effective, cands, next, arg } => PhaseView::TryInterp(
                effective@,
                cands.deep_view(),
                *next as int,
                opt_view(*arg),
            ),
            ExecvePhase::Done => PhaseView::Done,
        }
    }
}

impl View for ExecveState {
    type V = StateView;

    open spec fn view(&self) -> StateView {
        StateView { path: self.path@, rest: self.rest.deep_view(), phase: self.phase@ }
    }
}

impl View for ExecveEvent {
    type V = EventView;

    open spec fn view(&self) -> EventView {
        match self {
            ExecveEvent::Opens(b) => EventView::Opens(*b),
            ExecveEvent::Head(h) => EventView::Head(opt_view(*h)),
        }
    }
}

impl View for ExecveAction {
    type V = ActionView;

    open spec fn view(&self) -> ActionView {
        match self {
            ExecveAction::Probe(p) => ActionView::Probe(p@),
            ExecveAction::Read(p, n) => ActionView::Read(p@, *n as int),
            ExecveAction::RunOriginal => ActionView::RunOriginal,
            ExecveAction::Run(p, argv) => ActionView::Run(
                p@,
                match argv {
                    Some(a) => Some(a.deep_view()),
                    None => None,
                },
            ),
        }
    }
}

/// `s` in the phase `phase`.
pub open spec fn with_phase(s: StateView, phase: PhaseView) -> StateView {
    StateView { path: s.path, rest: s.rest, phase }
}

/// Stop and make the original call.
pub open spec fn stop_original(s: StateView) -> (StateView, ActionView) {
    (with_phase(s, PhaseView::Done), ActionView::RunOriginal)
}

/// Stop and run the file `effective` with the caller's arguments: the
/// original call when it is the path itself.
pub open spec fn spec_finish(s: StateView, effective: Seq<u8>) -> (StateView, ActionView) {
    (
        with_phase(s, PhaseView::Done),
        if effective == s.path {
            ActionView::RunOriginal
        } else {
            ActionView::Run(effective, None)
        },
    )
}

/// Probe the path's candidate `cs[k]`; when there is none left, make the
/// original call.
pub open spec fn spec_next_candidate(s: StateView, cs: Seq<Seq<u8>>, k: int) -> (
    StateView,
    ActionView,
) {
    if 0 <= k < cs.len() {
        (with_phase(s, PhaseView::TryCandidate(cs, k)), ActionView::Probe(cs[k]))
    } else {
        stop_original(s)
    }
}

/// Probe the interpreter's candidate `cs[k]`; when there is none left,
/// run `effective` with the caller's arguments.
pub open spec fn spec_next_interp(
    s: StateView,
    effective: Seq<u8>,
    cs: Seq<Seq<u8>>,
    k: int,
    arg: Option<Seq<u8>>,
) -> (StateView, ActionView) {
    if 0 <= k < cs.len() {
        (with_phase(s, PhaseView::TryInterp(effective, cs, k, arg)), ActionView::Probe(cs[k]))
    } else {
        spec_finish(s, effective)
    }
}

/// The interpreter and its argument, as bytes, that a script's head names.
pub open spec fn spec_interpreter_of(head: Seq<u8>) -> Option<(Seq<u8>, Option<Seq<u8>>)> {
    match spec_shebang_line(head) {
        Some(line) => match spec_split_interpreter(line) {
            Some((i, a)) => Some(
                (
                    encode_utf8(i),
                    match a {
                        Some(x) => Some(encode_utf8(x)),
                        None => None,
                    },
                ),
            ),
            None => None,
        },
        None => None,
    }
}

/// Running the script through the interpreter at `interp`.
pub open spec fn spec_run_script(s: StateView, interp: Seq<u8>, arg: Option<Seq<u8>>) -> (
    StateView,
    ActionView,
) {
    (
        with_phase(s, PhaseView::Done),
        ActionView::Run(interp, Some(spec_shebang_argv(interp, arg, s.path, s.rest))),
    )
}

/// The first step of an interposed `execve` of `path` (`None`: a null
/// pointer) with the arguments `rest` after the first: probe the path when
/// it is UTF-8 text without a NUL, else make the original call.
pub open spec fn spec_execve_start(path: Option<Seq<u8>>, rest: Seq<Seq<u8>>) -> (
    StateView,
    ActionView,
) {
    match path {
        Some(p) => if valid_utf8(p) && !p.contains(NUL) {
            (StateView { path: p, rest, phase: PhaseView::CheckPath }, ActionView::Probe(p))
        } else {
            stop_original(StateView { path: p, rest, phase: PhaseView::Done })
        },
        None => stop_original(StateView { path: Seq::empty(), rest, phase: PhaseView::Done }),
    }
}

/// The next state and action after the event `e` in the state `s`. An
/// event that does not answer what was asked ends the machine with the
/// original call.
pub open spec fn spec_execve_step(s: StateView, e: EventView, roots: &Roots) -> (
    StateView,
    ActionView,
) {
    match s.phase {
        PhaseView::CheckPath => match e {
            EventView::Opens(true) => (
                with_phase(s, PhaseView::CheckHead(s.path)),
                ActionView::Read(s.path, 2),
            ),
            EventView::Opens(false) => spec_next_candidate(
                s,
                spec_c_candidates(Some(s.path), roots),
                0,
            ),
            _ => stop_original(s),
        },
        PhaseView::TryCandidate(cs, k) => match e {
            EventView::Opens(true) => if 0 <= k < cs.len() {
                (with_phase(s, PhaseView::CheckHead(cs[k])), ActionView::Read(cs[k], 2))
            } else {
                stop_original(s)
            },
            EventView::Opens(false) => spec_next_candidate(s, cs, k + 1),
            _ => stop_original(s),
        },
        PhaseView::CheckHead(eff) => match e {
            EventView::Head(Some(h)) => if spec_is_shebang_head(h) {
                (
                    with_phase(s, PhaseView::ReadLine(eff)),
                    ActionView::Read(eff, SHEBANG_READ_LEN as int),
                )
            } else {
                spec_finish(s, eff)
            },
            EventView::Head(None) => spec_finish(s, eff),
            _ => stop_original(s),
        },
        PhaseView::ReadLine(eff) => match e {
            EventView::Head(Some(h)) => match spec_interpreter_of(h) {
                Some((i, a)) => if i.contains(NUL) {
                    spec_finish(s, eff)
                } else {
                    (with_phase(s, PhaseView::CheckInterp(eff, i, a)), ActionView::Probe(i))
                },
                None => spec_finish(s, eff),
            },
            EventView::Head(None) => spec_finish(s, eff),
            _ => stop_original(s),
        },
        PhaseView::CheckInterp(eff, i, a) => match e {
            EventView::Opens(true) => spec_run_script(s, i, a),
            EventView::Opens(false) => spec_next_interp(
                s,
                eff,
                spec_c_candidates(Some(i), roots),
                0,
                a,
            ),
            _ => stop_original(s),
        },
        PhaseView::TryInterp(eff, cs, k, a) => match e {
            EventView::Opens(true) => if 0 <= k < cs.len() {
                spec_run_script(s, cs[k], a)
            } else {
                spec_finish(s, eff)
            },
            EventView::Opens(false) => spec_next_interp(s, eff, cs, k + 1, a),
            _ => stop_original(s),
        },
        PhaseView::Done => stop_original(s),
    }
}

/// A fresh copy of a list of byte strings.
fn copy_list(v: &Vec<Vec<u8>>) -> (r: Vec<Vec<u8>>)
    ensures
        r.deep_view() == v.deep_view(),
{
    let mut out: Vec<Vec<u8>> = Vec::new();
    let mut i: usize = 0;
    while i < v.len()
        invariant
            i <= v.len(),
            out.deep_view() == v.deep_view().take(i as int),
        decreases v.len() - i,
    {
        push_copy(&mut out, &v[i]);
        assert(v.deep_view()[i as int] == v@[i as int]@);
        assert(out.deep_view() =~= v.deep_view().take(i + 1));
        i = i + 1;
    }
    assert(v.deep_view().take(v.len() as int) =~= v.deep_view());
    out
}

/// A fresh copy of an optional byte string.
fn copy_opt(o: &Option<Vec<u8>>) -> (r: Option<Vec<u8>>)
    ensures
        opt_view(r) == opt_view(*o),
{
    match o {
        Some(v) => Some(copy_bytes(v)),
        None => None,
    }
}

/// `state`, with its path and arguments, in the phase `phase`.
fn in_phase(state: &ExecveState, phase: ExecvePhase) -> (r: ExecveState)
    ensures
        r@ == with_phase(state@, phase@),
{
    ExecveState { path: copy_bytes(&state.path), rest: copy_list(&state.rest), phase }
}

/// Stop and make the original call.
fn stop(state: &ExecveState) -> (r: (ExecveState, ExecveAction))
    ensures
        (r.0@, r.1@) == stop_original(state@),
{
    (in_phase(state, ExecvePhase::Done), ExecveAction::RunOriginal)
}

/// Stop and run `effective` with the caller's arguments.
fn finish(state: &ExecveState, effective: &[u8]) -> (r: (ExecveState, ExecveAction))
    ensures
        (r.0@, r.1@) == spec_finish(state@, effective@),
{
    let action = if crate::bytes::same_bytes(effective, &state.path) {
        ExecveAction::RunOriginal
    } else {
        ExecveAction::Run(copy_bytes(effective), None)
    };
    (in_phase(state, ExecvePhase::Done), action)
}

/// Probe the path's candidate `cands[k]`, if there is one.
fn next_candidate(state: &ExecveState, cands: Vec<Vec<u8>>, k: usize) -> (r: (
    ExecveState,
    ExecveAction,
))
    ensures
        (r.0@, r.1@) == spec_next_candidate(state@, cands.deep_view(), k as int),
{
    if k < cands.len() {
        let probe = copy_bytes(&cands[k]);
        assert(cands.deep_view()[k as int] == cands@[k as int]@);
        (in_phase(state, ExecvePhase::TryCandidate { cands, next: k }), ExecveAction::Probe(probe))
    } else {
        stop(state)
    }
}

/// Probe the interpreter's candidate `cands[k]`, if there is one.
fn next_interp(
    state: &ExecveState,
    effective: &[u8],
    cands: Vec<Vec<u8>>,
    k: usize,
    arg: &Option<Vec<u8>>,
) -> (r: (ExecveState, ExecveAction))
    ensures
        (r.0@, r.1@) == spec_next_interp(
            state@,
            effective@,
            cands.deep_view(),
            k as int,
            opt_view(*arg),
        ),
{
    if k < cands.len() {
        let probe = copy_bytes(&cands[k]);
        assert(cands.deep_view()[k as int] == cands@[k as int]@);
        (
            in_phase(
                state,
                ExecvePhase::TryInterp {
                    effective: copy_bytes(effective),
                    cands,
                    next: k,
                    arg: copy_opt(arg),
                },
            ),
            ExecveAction::Probe(probe),
        )
    } else {
        finish(state, effective)
    }
}

/// Run the script through the interpreter at `interp`.
fn run_script(state: &ExecveState, interp: &[u8], arg: &Option<Vec<u8>>) -> (r: (
    ExecveState,
    ExecveAction,
))
    ensures
        (r.0@, r.1@) == spec_run_script(state@, interp@, opt_view(*arg)),
{
    let a: Option<&[u8]> = match arg {
        Some(v) => Some(v.as_slice()),
        None => None,
    };
    let argv = shebang_argv(interp, a, &state.path, &state.rest);
    (in_phase(state, ExecvePhase::Done), ExecveAction::Run(copy_bytes(interp), Some(argv)))
}

/// The interpreter and its argument, as bytes, that a script's head names.
fn interpreter_of(head: &[u8]) -> (r: Option<(Vec<u8>, Option<Vec<u8>>)>)
    ensures
        match r {
            Some((i, a)) => spec_interpreter_of(head@) == Some((i@, opt_view(a))),
            None => spec_interpreter_of(head@) is None,
        },
{
    match shebang_line(head) {
        Some(line) => match split_interpreter(line.as_str()) {
            Some((interp, arg)) => {
                let i = copy_bytes(interp.as_str().as_bytes());
                let a = match arg {
                    Some(x) => Some(copy_bytes(x.as_str().as_bytes())),
                    None => None,
                };
                Some((i, a))
            },
            None => None,
        },
        None => None,
    }
}

/// The first step of an interposed `execve` of `path` (`None`: a null
/// pointer) with the arguments `rest` after the first.
pub fn execve_start(path: Option<&[u8]>, rest: &Vec<Vec<u8>>) -> (r: (ExecveState, ExecveAction))
    ensures
        (r.0@, r.1@) == spec_execve_start(opt_seq(path), rest.deep_view()),
{
    match path {
        Some(p) => {
            if decode_text(p).is_some() && !contains_byte(p, NUL) {
                (
                    ExecveState {
                        path: copy_bytes(p),
                        rest: copy_list(rest),
                        phase: ExecvePhase::CheckPath,
                    },
                    ExecveAction::Probe(copy_bytes(p)),
                )
            } else {
                (
                    ExecveState { path: copy_bytes(p), rest: copy_list(rest), phase: ExecvePhase::Done },
                    ExecveAction::RunOriginal,
                )
            }
        },
        None => {
            let s = ExecveState { path: Vec::new(), rest: copy_list(rest), phase: ExecvePhase::Done };
            assert(s@.path =~= Seq::<u8>::empty());
            (s, ExecveAction::RunOriginal)
        },
    }
}

/// The next state and action of an interposed `execve` in `state`, after
/// the caller found `event`; see `spec_execve_step`.
pub fn execve_step(state: &ExecveState, event: ExecveEvent, roots: &Roots) -> (r: (
    ExecveState,
    ExecveAction,
))
    ensures
        (r.0@, r.1@) == spec_execve_step(state@, event@, roots),
{
    match &state.phase {
        ExecvePhase::CheckPath => match event {
            ExecveEvent::Opens(true) => (
                in_phase(state, ExecvePhase::CheckHead { effective: copy_bytes(&state.path) }),
                ExecveAction::Read(copy_bytes(&state.path), 2),
            ),
            ExecveEvent::Opens(false) => {
                let cs = c_candidates(Some(state.path.as_slice()), roots);
                next_candidate(state, cs, 0)
            },
            _ => stop(state),
        },
        ExecvePhase::TryCandidate { cands, next } => match event {
            ExecveEvent::Opens(true) => {
                if *next < cands.len() {
                    assert(cands.deep_view()[*next as int] == cands@[*next as int]@);
                    (
                        in_phase(state, ExecvePhase::CheckHead { effective: copy_bytes(&cands[*next]) }),
                        ExecveAction::Read(copy_bytes(&cands[*next]), 2),
                    )
                } else {
                    stop(state)
                }
            },
            ExecveEvent::Opens(false) => {
                if cands.len() > 0 && *next < cands.len() - 1 {
                    next_candidate(state, copy_list(cands), *next + 1)
                } else {
                    stop(state)
                }
            },
            _ => stop(state),
        },
        ExecvePhase::CheckHead { effective } => match event {
            ExecveEvent::Head(Some(h)) => {
                if is_shebang_head(&h) {
                    (
                        in_phase(state, ExecvePhase::ReadLine { effective: copy_bytes(effective) }),
                        ExecveAction::Read(copy_bytes(effective), SHEBANG_READ_LEN),
                    )
                } else {
                    finish(state, effective)
                }
            },
            ExecveEvent::Head(None) => finish(state, effective),
            _ => stop(state),
        },
        ExecvePhase::ReadLine { effective } => match event {
            ExecveEvent::Head(Some(h)) => match interpreter_of(&h) {
                Some((i, a)) => {
                    if contains_byte(&i, NUL) {
                        finish(state, effective)
                    } else {
                        let probe = copy_bytes(&i);
                        (
                            in_phase(
                                state,
                                ExecvePhase::CheckInterp { effective: copy_bytes(effective), interp: i, arg: a },
                            ),
                            ExecveAction::Probe(probe),
                        )
                    }
                },
                None => finish(state, effective),
            },
            ExecveEvent::Head(None) => finish(state, effective),
            _ => stop(state),
        },
        ExecvePhase::CheckInterp { effective, interp, arg } => match event {
            ExecveEvent::Opens(true) => run_script(state, interp, arg),
            ExecveEvent::Opens(false) => {
                let cs = c_candidates(Some(interp.as_slice()), roots);
                next_interp(state, effective, cs, 0, arg)
            },
            _ => stop(state),
        },
        ExecvePhase::TryInterp { effective, cands, next, arg } => match event {
            ExecveEvent::Opens(true) => {
                if *next < cands.len() {
                    assert(cands.deep_view()[*next as int] == cands@[*next as int]@);
                    run_script(state, &cands[*next], arg)
                } else {
                    finish(state, effective)
                }
            },
            ExecveEvent::Opens(false) => {
                if cands.len() > 0 && *next < cands.len() - 1 {
                    next_interp(state, effective, copy_list(cands), *next + 1, arg)
                } else {
                    finish(state, effective)
                }
            },
            _ => stop(state),
        },
        ExecvePhase::Done => stop(state),
    }
}

} // verus!
