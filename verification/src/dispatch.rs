//! The dispatch engine: a small-step machine that sequences the per-request
//! pipeline — before-hooks in registration order, the handler, after-hooks
//! in reverse order (or the on-error chain), the response, and a deferred
//! background task strictly after the response — together with response
//! normalization and the engine's own error responses.
//!
//! The host performs each `Action` (calling into the embedded interpreter
//! or the transport) and reports what happened as the next `Event`.

use vstd::prelude::*;
use crate::jsonio::{json_escape, json_escaped};
use crate::params::{ParamMap, assoc_set};
use crate::response::Response;

verus! {

/// What the host must do next.
#[derive(Clone, PartialEq, Eq, Structural)]
pub enum Action {
    /// Call hook `i`'s before-request callable with the current context.
    RunBeforeHook(usize),
    /// Bind arguments and invoke the handler.
    RunHandler,
    /// Call hook `i`'s after-request callable with the current result.
    RunAfterHook(usize),
    /// Call hook `i`'s on-error callable with the context and error.
    RunErrorHook(usize),
    /// Normalize the current result value and write it to the wire.
    RespondResult,
    /// Translate the held HTTP exception into a response and write it.
    RespondHttpException,
    /// Write the schema-validation failure response.
    RespondValidation,
    /// Write the generic unhandled-error response.
    RespondError,
    /// Run the injected background task (the response is already written).
    RunBackgroundTask,
    /// The request is finished.
    Stop,
}

/// How the handler invocation ended, as the host reports it.
#[derive(Clone, Copy, PartialEq, Eq, Structural)]
pub enum HandlerStatus {
    /// The handler returned a value; `true` when a background task was
    /// injected into its arguments.
    Succeeded(bool),
    /// The handler raised a recognized HTTP exception.
    RaisedHttp,
    /// The handler raised anything else (or argument binding failed).
    RaisedOther,
    /// Body-schema validation rejected the request before the handler.
    ValidationRejected,
}

/// What the host reports back after performing an action.
#[derive(Clone, Copy, PartialEq, Eq, Structural)]
pub enum Event {
    /// Start dispatching.
    Begin,
    /// A before-hook returned; `false` means it raised.
    BeforeReturned(bool),
    /// The handler invocation ended.
    HandlerReturned(HandlerStatus),
    /// An after-hook returned (a failing after-hook leaves the result).
    AfterReturned,
    /// An on-error hook returned; `true` means it produced a response.
    ErrorHookReturned(bool),
    /// The response was written to the wire.
    ResponseWritten,
    /// The background task finished.
    TaskFinished,
}

/// What kind of response the engine is writing.
#[derive(Clone, Copy, PartialEq, Eq, Structural)]
pub enum RespondKind {
    /// A normalized handler (or error-hook) result; a background task may
    /// follow.
    NormalResult,
    /// A recognized HTTP exception, translated directly.
    HttpExceptionResult,
    /// A schema-validation refusal.
    ValidationFailure,
    /// An unhandled error.
    UnhandledError,
}

/// Where the engine stands.
#[derive(Clone, Copy, PartialEq, Eq, Structural)]
pub enum Phase {
    /// Nothing has happened yet.
    Idle,
    /// Before-hook `next` is running.
    Before { next: usize },
    /// The handler is running.
    Invoke,
    /// The after-chain is running; `remaining` hooks have not finished
    /// (the one running now is index `remaining - 1`).
    AfterChain { remaining: usize },
    /// The on-error chain is running at hook `next`; `was_http` remembers
    /// whether the error was a recognized HTTP exception.
    OnError { next: usize, was_http: bool },
    /// The response is being written.
    Respond { kind: RespondKind },
    /// The background task is running.
    TaskPending,
    /// Finished.
    Done,
}

/// The actions of the before-chain, by hook index, in emission order.
pub open spec fn before_trace(h: Seq<Action>) -> Seq<int>
    decreases h.len(),
{
    if h.len() == 0 {
        Seq::empty()
    } else {
        let rest = before_trace(h.drop_last());
        match h.last() {
            Action::RunBeforeHook(i) => rest.push(i as int),
            _ => rest,
        }
    }
}

/// The actions of the after-chain, by hook index, in emission order.
pub open spec fn after_trace(h: Seq<Action>) -> Seq<int>
    decreases h.len(),
{
    if h.len() == 0 {
        Seq::empty()
    } else {
        let rest = after_trace(h.drop_last());
        match h.last() {
            Action::RunAfterHook(i) => rest.push(i as int),
            _ => rest,
        }
    }
}

/// The actions of the on-error chain, by hook index, in emission order.
pub open spec fn error_trace(h: Seq<Action>) -> Seq<int>
    decreases h.len(),
{
    if h.len() == 0 {
        Seq::empty()
    } else {
        let rest = error_trace(h.drop_last());
        match h.last() {
            Action::RunErrorHook(i) => rest.push(i as int),
            _ => rest,
        }
    }
}

pub open spec fn is_respond_action(a: Action) -> bool {
    a == Action::RespondResult || a == Action::RespondHttpException || a
        == Action::RespondValidation || a == Action::RespondError
}

/// A response action stands somewhere in the history.
pub open spec fn responded(h: Seq<Action>) -> bool {
    exists|p: int| 0 <= p < h.len() && is_respond_action(#[trigger] h[p])
}

/// The dispatch engine for one request. `history` records every action
/// emitted, so that the ordering laws are part of the machine's invariant.
pub struct Engine {
    /// How many middleware hooks are registered.
    pub n_hooks: usize,
    /// This dispatch only runs the after-chain over an empty 200 response
    /// (the `OPTIONS` bypass).
    pub options_only: bool,
    /// Whether a background task was injected (learned from the handler).
    pub has_task: bool,
    pub phase: Phase,
    pub history: Ghost<Seq<Action>>,
}

impl Engine {
    /// The ordering laws, as an invariant over the emitted actions:
    /// before-hooks run 0, 1, 2, … in registration order; after-hooks run
    /// n-1, n-2, … in exactly the reverse order; on-error hooks run in
    /// registration order; and a background task runs only after a
    /// response action.
    pub open spec fn wf(&self) -> bool {
        let h = self.history@;
        let n = self.n_hooks as int;
        &&& before_trace(h).len() <= n
        &&& forall|i: int| 0 <= i < before_trace(h).len() ==> before_trace(h)[i] == i
        &&& after_trace(h).len() <= n
        &&& forall|i: int| 0 <= i < after_trace(h).len() ==> after_trace(h)[i] == n - 1 - i
        &&& forall|i: int| 0 <= i < error_trace(h).len() ==> error_trace(h)[i] == i
        &&& forall|p: int|
            0 <= p < h.len() && h[p] == Action::RunBackgroundTask ==> exists|p2: int|
                0 <= p2 < p && is_respond_action(#[trigger] h[p2])
        &&& match self.phase {
            Phase::Idle => h.len() == 0,
            Phase::Before { next } => {
                &&& next < self.n_hooks
                &&& before_trace(h).len() == next + 1
                &&& after_trace(h).len() == 0
                &&& error_trace(h).len() == 0
                &&& !responded(h)
            },
            Phase::Invoke => {
                &&& after_trace(h).len() == 0
                &&& error_trace(h).len() == 0
                &&& !responded(h)
            },
            Phase::AfterChain { remaining } => {
                &&& 0 < self.n_hooks
                &&& 1 <= remaining <= self.n_hooks
                &&& after_trace(h).len() == self.n_hooks - remaining + 1
                &&& !responded(h)
            },
            Phase::OnError { next, was_http } => {
                &&& next < self.n_hooks
                &&& error_trace(h).len() == next + 1
                &&& after_trace(h).len() == 0
                &&& !responded(h)
            },
            Phase::Respond { kind } => {
                &&& h.len() > 0
                &&& is_respond_action(h.last())
            },
            Phase::TaskPending => true,
            Phase::Done => true,
        }
    }

    /// A fresh engine for one request.
    pub fn new(n_hooks: usize, options_only: bool) -> (r: Engine)
        ensures
            r.wf(),
            r.phase == Phase::Idle,
            r.n_hooks == n_hooks,
            r.options_only == options_only,
            r.history@ =~= Seq::<Action>::empty(),
    {
        let r = Engine {
            n_hooks,
            options_only,
            has_task: false,
            phase: Phase::Idle,
            history: Ghost(Seq::empty()),
        };
        proof {
            lemma_traces_empty();
        }
        r
    }

    /// One step of the pipeline: consume the host's event, move to the
    /// next phase and say what to do. An event that does not fit the
    /// current phase stops the dispatch.
    pub fn step(&mut self, event: Event) -> (a: Action)
        requires
            old(self).wf(),
        ensures
            final(self).wf(),
            final(self).n_hooks == old(self).n_hooks,
            final(self).options_only == old(self).options_only,
            final(self).history@ == old(self).history@.push(a),
            (final(self).phase, a) == spec_step(*old(self), event),
            final(self).has_task == (match (old(self).phase, event) {
                (
                    Phase::Invoke,
                    Event::HandlerReturned(HandlerStatus::Succeeded(t)),
                ) => t,
                _ => old(self).has_task,
            }),
    {
        let ghost pre = *self;
        let n = self.n_hooks;
        let (next_phase, action): (Phase, Action) = match (self.phase, event) {
            (Phase::Idle, Event::Begin) => {
                if self.options_only {
                    if n > 0 {
                        (Phase::AfterChain { remaining: n }, Action::RunAfterHook(n - 1))
                    } else {
                        (Phase::Respond { kind: RespondKind::NormalResult }, Action::RespondResult)
                    }
                } else if n > 0 {
                    (Phase::Before { next: 0 }, Action::RunBeforeHook(0))
                } else {
                    (Phase::Invoke, Action::RunHandler)
                }
            }
            (Phase::Before { next }, Event::BeforeReturned(true)) => {
                if next + 1 < n {
                    (Phase::Before { next: next + 1 }, Action::RunBeforeHook(next + 1))
                } else {
                    (Phase::Invoke, Action::RunHandler)
                }
            }
            (Phase::Before { next: _ }, Event::BeforeReturned(false)) => {
                // A failing before-hook is treated as a handler error.
                (Phase::OnError { next: 0, was_http: false }, Action::RunErrorHook(0))
            }
            (Phase::Invoke, Event::HandlerReturned(status)) => {
                match status {
                    HandlerStatus::Succeeded(task) => {
                        self.has_task = task;
                        if n > 0 {
                            (Phase::AfterChain { remaining: n }, Action::RunAfterHook(n - 1))
                        } else {
                            (
                                Phase::Respond { kind: RespondKind::NormalResult },
                                Action::RespondResult,
                            )
                        }
                    }
                    HandlerStatus::RaisedHttp => {
                        if n > 0 {
                            (Phase::OnError { next: 0, was_http: true }, Action::RunErrorHook(0))
                        } else {
                            (
                                Phase::Respond { kind: RespondKind::HttpExceptionResult },
                                Action::RespondHttpException,
                            )
                        }
                    }
                    HandlerStatus::RaisedOther => {
                        if n > 0 {
                            (Phase::OnError { next: 0, was_http: false }, Action::RunErrorHook(0))
                        } else {
                            (
                                Phase::Respond { kind: RespondKind::UnhandledError },
                                Action::RespondError,
                            )
                        }
                    }
                    HandlerStatus::ValidationRejected => {
                        (
                            Phase::Respond { kind: RespondKind::ValidationFailure },
                            Action::RespondValidation,
                        )
                    }
                }
            }
            (Phase::OnError { next, was_http }, Event::ErrorHookReturned(true)) => {
                // The hook's response becomes the result; the after-chain
                // still runs over it.
                (Phase::AfterChain { remaining: n }, Action::RunAfterHook(n - 1))
            }
            (Phase::OnError { next, was_http }, Event::ErrorHookReturned(false)) => {
                if next + 1 < n {
                    (
                        Phase::OnError { next: next + 1, was_http },
                        Action::RunErrorHook(next + 1),
                    )
                } else if was_http {
                    (
                        Phase::Respond { kind: RespondKind::HttpExceptionResult },
                        Action::RespondHttpException,
                    )
                } else {
                    (Phase::Respond { kind: RespondKind::UnhandledError }, Action::RespondError)
                }
            }
            (Phase::AfterChain { remaining }, Event::AfterReturned) => {
                if remaining > 1 {
                    (
                        Phase::AfterChain { remaining: remaining - 1 },
                        Action::RunAfterHook(remaining - 2),
                    )
                } else {
                    (Phase::Respond { kind: RespondKind::NormalResult }, Action::RespondResult)
                }
            }
            (Phase::Respond { kind }, Event::ResponseWritten) => {
                if matches!(kind, RespondKind::NormalResult) && self.has_task {
                    (Phase::TaskPending, Action::RunBackgroundTask)
                } else {
                    (Phase::Done, Action::Stop)
                }
            }
            (Phase::TaskPending, Event::TaskFinished) => (Phase::Done, Action::Stop),
            (_, _) => (Phase::Done, Action::Stop),
        };
        self.phase = next_phase;
        proof {
            let h = pre.history@;
            lemma_traces_snoc(h, action);
            self.history@ = h.push(action);
            assert forall|p: int|
                0 <= p < self.history@.len() && self.history@[p] == Action::RunBackgroundTask
                    implies exists|p2: int|
                    0 <= p2 < p && is_respond_action(#[trigger] self.history@[p2]) by {
                if p < h.len() {
                    assert(h[p] == Action::RunBackgroundTask);
                    let w = choose|p2: int| 0 <= p2 < p && is_respond_action(#[trigger] h[p2]);
                    assert(self.history@[w] == h[w]);
                    assert(is_respond_action(self.history@[w]));
                } else {
                    assert(action == Action::RunBackgroundTask);
                    assert(pre.phase matches Phase::Respond { .. });
                    assert(is_respond_action(h.last()));
                    assert(self.history@[h.len() - 1] == h.last());
                }
            }
            if pre.phase matches Phase::Respond { kind } {
                assert(responded(self.history@)) by {
                    assert(is_respond_action(self.history@[h.len() - 1]));
                }
            }
            if is_respond_action(action) {
                assert(responded(self.history@)) by {
                    assert(is_respond_action(self.history@[h.len() as int]));
                }
            }
            assert forall|p: int|
                0 <= p < h.len() implies self.history@[p] == h[p] by {}
            if !responded(h) && !is_respond_action(action) {
                assert(!responded(self.history@)) by {
                    if responded(self.history@) {
                        let w = choose|p: int|
                            0 <= p < self.history@.len() && is_respond_action(
                                #[trigger] self.history@[p],
                            );
                        if w < h.len() {
                            assert(is_respond_action(h[w]));
                        } else {
                            assert(self.history@[w] == action);
                        }
                    }
                }
            }
        }
        action
    }
}

/// The machine's transition function, in full: what `step` does.
pub open spec fn spec_step(m: Engine, event: Event) -> (Phase, Action) {
    let n = m.n_hooks;
    match (m.phase, event) {
        (Phase::Idle, Event::Begin) => if m.options_only {
            if n > 0 {
                (Phase::AfterChain { remaining: n }, Action::RunAfterHook((n - 1) as usize))
            } else {
                (Phase::Respond { kind: RespondKind::NormalResult }, Action::RespondResult)
            }
        } else if n > 0 {
            (Phase::Before { next: 0 }, Action::RunBeforeHook(0))
        } else {
            (Phase::Invoke, Action::RunHandler)
        },
        (Phase::Before { next }, Event::BeforeReturned(true)) => if next + 1 < n {
            (Phase::Before { next: (next + 1) as usize }, Action::RunBeforeHook((next + 1) as usize))
        } else {
            (Phase::Invoke, Action::RunHandler)
        },
        (Phase::Before { next }, Event::BeforeReturned(false)) => (
            Phase::OnError { next: 0, was_http: false },
            Action::RunErrorHook(0),
        ),
        (Phase::Invoke, Event::HandlerReturned(status)) => match status {
            HandlerStatus::Succeeded(task) => if n > 0 {
                (Phase::AfterChain { remaining: n }, Action::RunAfterHook((n - 1) as usize))
            } else {
                (Phase::Respond { kind: RespondKind::NormalResult }, Action::RespondResult)
            },
            HandlerStatus::RaisedHttp => if n > 0 {
                (Phase::OnError { next: 0, was_http: true }, Action::RunErrorHook(0))
            } else {
                (
                    Phase::Respond { kind: RespondKind::HttpExceptionResult },
                    Action::RespondHttpException,
                )
            },
            HandlerStatus::RaisedOther => if n > 0 {
                (Phase::OnError { next: 0, was_http: false }, Action::RunErrorHook(0))
            } else {
                (Phase::Respond { kind: RespondKind::UnhandledError }, Action::RespondError)
            },
            HandlerStatus::ValidationRejected => (
                Phase::Respond { kind: RespondKind::ValidationFailure },
                Action::RespondValidation,
            ),
        },
        (Phase::OnError { next, was_http }, Event::ErrorHookReturned(true)) => (
            Phase::AfterChain { remaining: n },
            Action::RunAfterHook((n - 1) as usize),
        ),
        (Phase::OnError { next, was_http }, Event::ErrorHookReturned(false)) => if next + 1 < n {
            (
                Phase::OnError { next: (next + 1) as usize, was_http },
                Action::RunErrorHook((next + 1) as usize),
            )
        } else if was_http {
            (
                Phase::Respond { kind: RespondKind::HttpExceptionResult },
                Action::RespondHttpException,
            )
        } else {
            (Phase::Respond { kind: RespondKind::UnhandledError }, Action::RespondError)
        },
        (Phase::AfterChain { remaining }, Event::AfterReturned) => if remaining > 1 {
            (
                Phase::AfterChain { remaining: (remaining - 1) as usize },
                Action::RunAfterHook((remaining - 2) as usize),
            )
        } else {
            (Phase::Respond { kind: RespondKind::NormalResult }, Action::RespondResult)
        },
        (Phase::Respond { kind }, Event::ResponseWritten) => if kind == RespondKind::NormalResult
            && m.has_task {
            (Phase::TaskPending, Action::RunBackgroundTask)
        } else {
            (Phase::Done, Action::Stop)
        },
        (Phase::TaskPending, Event::TaskFinished) => (Phase::Done, Action::Stop),
        (_, _) => (Phase::Done, Action::Stop),
    }
}

proof fn lemma_traces_empty()
    ensures
        before_trace(Seq::<Action>::empty()) =~= Seq::<int>::empty(),
        after_trace(Seq::<Action>::empty()) =~= Seq::<int>::empty(),
        error_trace(Seq::<Action>::empty()) =~= Seq::<int>::empty(),
{
}

/// Appending one action extends each trace by at most that action.
proof fn lemma_traces_snoc(h: Seq<Action>, a: Action)
    ensures
        before_trace(h.push(a)) == (match a {
            Action::RunBeforeHook(i) => before_trace(h).push(i as int),
            _ => before_trace(h),
        }),
        after_trace(h.push(a)) == (match a {
            Action::RunAfterHook(i) => after_trace(h).push(i as int),
            _ => after_trace(h),
        }),
        error_trace(h.push(a)) == (match a {
            Action::RunErrorHook(i) => error_trace(h).push(i as int),
            _ => error_trace(h),
        }),
{
    assert(h.push(a).drop_last() =~= h);
    assert(h.push(a).last() == a);
}

/// The ordering laws of the middleware chain (the engine's invariant,
/// restated over any reachable history): before-hooks run in registration
/// order 0, 1, 2, …; after-hooks run in exactly the reverse order
/// n-1, n-2, …; on-error hooks run in registration order — on every path,
/// including error paths.
pub proof fn lemma_hook_order(m: Engine)
    requires
        m.wf(),
    ensures
        forall|i: int|
            0 <= i < before_trace(m.history@).len() ==> before_trace(m.history@)[i] == i,
        forall|i: int|
            0 <= i < after_trace(m.history@).len() ==> after_trace(m.history@)[i] == m.n_hooks - 1
                - i,
        forall|i: int| 0 <= i < error_trace(m.history@).len() ==> error_trace(m.history@)[i] == i,
{
}

/// The background task runs only after the response: wherever the history
/// holds a task action, a response action stands earlier in it.
pub proof fn lemma_task_after_response(m: Engine)
    requires
        m.wf(),
    ensures
        forall|p: int|
            0 <= p < m.history@.len() && m.history@[p] == Action::RunBackgroundTask
                ==> exists|p2: int| 0 <= p2 < p && is_respond_action(#[trigger] m.history@[p2]),
{
}


/// An ASCII whitespace character (what leading-trim skips).
pub open spec fn is_ascii_ws(c: char) -> bool {
    c == ' ' || c == '\t' || c == '\n' || c == '\r' || c == '\u{000B}' || c == '\u{000C}'
}

/// The sequence with its leading whitespace removed.
pub open spec fn skip_ws(s: Seq<char>) -> Seq<char>
    decreases s.len(),
{
    if s.len() > 0 && is_ascii_ws(s[0]) {
        skip_ws(s.drop_first())
    } else {
        s
    }
}

/// Text is served as HTML exactly when its first non-whitespace character
/// is `<`.
pub open spec fn spec_text_is_html(s: Seq<char>) -> bool {
    skip_ws(s).len() > 0 && skip_ws(s)[0] == '<'
}

/// Whether the text begins with `<` after leading-whitespace trim.
pub fn text_is_html(s: &str) -> (r: bool)
    ensures
        r == spec_text_is_html(s@),
{
    let n = s.unicode_len();
    proof {
        assert(s@.skip(0) =~= s@);
    }
    let mut i: usize = 0;
    while i < n
        invariant
            n == s@.len(),
            i <= n,
            skip_ws(s@) == skip_ws(s@.skip(i as int)),
        decreases n - i,
    {
        let c = s.get_char(i);
        proof {
            assert(s@.skip(i as int)[0] == s@[i as int]);
            assert(s@.skip(i as int).drop_first() =~= s@.skip(i as int + 1));
        }
        if c == ' ' || c == '\t' || c == '\n' || c == '\r' || c == '\u{000B}' || c == '\u{000C}' {
            i += 1;
        } else {
            return c == '<';
        }
    }
    proof {
        assert(s@.skip(n as int) =~= Seq::<char>::empty());
    }
    false
}

/// `base` with every binding of `add` written over it, in `add`'s order.
pub open spec fn merged(
    base: Seq<(Seq<char>, Seq<char>)>,
    add: Seq<(Seq<char>, Seq<char>)>,
) -> Seq<(Seq<char>, Seq<char>)>
    decreases add.len(),
{
    if add.len() == 0 {
        base
    } else {
        assoc_set(merged(base, add.drop_last()), add.last().0, add.last().1)
    }
}

/// Merge `add` into `base`, later bindings overwriting earlier ones.
pub fn merge_headers(base: ParamMap, add: &ParamMap) -> (r: ParamMap)
    requires
        base.wf(),
    ensures
        r.wf(),
        r@ == merged(base@, add@),
{
    let ghost base0 = base@;
    let mut out = base;
    let n = add.len();
    let mut i: usize = 0;
    while i < n
        invariant
            n == add@.len(),
            i <= n,
            out.wf(),
            out@ == merged(base0, add@.take(i as int)),
        decreases n - i,
    {
        let (k, v) = add.entry_at(i);
        proof {
            assert(add@.take(i as int + 1).drop_last() =~= add@.take(i as int));
            assert(add@.take(i as int + 1).last() == add@[i as int]);
            assert(add@[i as int] == (k@, v@));
        }
        out.insert(k.clone(), v.clone());
        i += 1;
    }
    proof {
        assert(add@.take(n as int) =~= add@);
    }
    out
}

/// A handler's return value, classified by the host. Structured values
/// (mappings, sequences, booleans, numbers) arrive with the JSON encoding
/// the host's encoder produced for them; a renderable value arrives with
/// its declared content type, status, rendered body and headers; anything
/// else arrives as its textual representation.
pub enum HandlerValue {
    Structured(String),
    Text(String),
    Renderable(String, u16, String, ParamMap),
    Other(String),
}

/// A handler's whole result: a bare value, or a pair or triple carrying a
/// status code and header overrides.
pub enum HandlerResult {
    Plain(HandlerValue),
    WithStatus(HandlerValue, u16),
    WithStatusHeaders(HandlerValue, u16, ParamMap),
}

impl HandlerResult {
    pub open spec fn spec_value(&self) -> &HandlerValue {
        match self {
            HandlerResult::Plain(v) => v,
            HandlerResult::WithStatus(v, _) => v,
            HandlerResult::WithStatusHeaders(v, _, _) => v,
        }
    }

    pub open spec fn spec_status(&self) -> u16 {
        match self {
            HandlerResult::Plain(_) => 200u16,
            HandlerResult::WithStatus(_, s) => *s,
            HandlerResult::WithStatusHeaders(_, s, _) => *s,
        }
    }

    pub open spec fn spec_headers(&self) -> Seq<(Seq<char>, Seq<char>)> {
        match self {
            HandlerResult::WithStatusHeaders(_, _, h) => h@,
            _ => Seq::empty(),
        }
    }

    pub open spec fn wf(&self) -> bool {
        match self {
            HandlerResult::WithStatusHeaders(v, _, h) => h.wf() && v.wf(),
            HandlerResult::Plain(v) => v.wf(),
            HandlerResult::WithStatus(v, _) => v.wf(),
        }
    }
}

impl HandlerValue {
    pub open spec fn wf(&self) -> bool {
        match self {
            HandlerValue::Renderable(_, _, _, h) => h.wf(),
            _ => true,
        }
    }
}

/// The normalized body of a plain text value: in strict mode the JSON
/// string literal, otherwise the text itself.
pub open spec fn spec_text_body(s: Seq<char>, strict: bool) -> Seq<char> {
    if strict {
        seq!['"'] + json_escaped(s) + seq!['"']
    } else {
        s
    }
}

/// The content type of a plain text value: JSON in strict mode, else HTML
/// or plain text by the leading-`<` rule.
pub open spec fn spec_text_content_type(s: Seq<char>, strict: bool) -> Seq<char> {
    if strict {
        "application/json"@
    } else if spec_text_is_html(s) {
        "text/html; charset=utf-8"@
    } else {
        "text/plain; charset=utf-8"@
    }
}

/// Normalize a handler result into a wire response. `strict_json_strings`
/// chooses how a plain non-HTML string body is served — as plain text or
/// re-encoded as a JSON string literal (the two behaviours observed in the
/// wild; the host must pick one deliberately).
pub fn normalize_result(result: HandlerResult, strict_json_strings: bool) -> (r: Response)
    requires
        result.wf(),
    ensures
        r.headers.wf(),
        match result.spec_value() {
            HandlerValue::Renderable(ct, sc, body, rh) => {
                &&& r.status_code == sc
                &&& r.body@ == body@
                &&& r.headers@ == assoc_set(
                    if rh@.len() == 0 {
                        result.spec_headers()
                    } else {
                        merged(result.spec_headers(), rh@)
                    },
                    "content-type"@,
                    ct@,
                )
            },
            HandlerValue::Structured(encoded) => {
                &&& r.status_code == result.spec_status()
                &&& r.body@ == encoded@
                &&& r.headers@ == assoc_set(result.spec_headers(), "content-type"@, "application/json"@)
            },
            HandlerValue::Text(s) => {
                &&& r.status_code == result.spec_status()
                &&& r.body@ == spec_text_body(s@, strict_json_strings)
                &&& r.headers@ == assoc_set(
                    result.spec_headers(),
                    "content-type"@,
                    spec_text_content_type(s@, strict_json_strings),
                )
            },
            HandlerValue::Other(s) => {
                &&& r.status_code == result.spec_status()
                &&& r.body@ == s@
                &&& r.headers@ == assoc_set(
                    result.spec_headers(),
                    "content-type"@,
                    "text/plain; charset=utf-8"@,
                )
            },
        },
{
    let (value, status, tuple_headers): (HandlerValue, u16, ParamMap) = match result {
        HandlerResult::Plain(v) => (v, 200, ParamMap::new()),
        HandlerResult::WithStatus(v, s) => (v, s, ParamMap::new()),
        HandlerResult::WithStatusHeaders(v, s, h) => (v, s, h),
    };
    match value {
        HandlerValue::Renderable(ct, sc, body, rh) => {
            let mut headers = if rh.is_empty() {
                tuple_headers
            } else {
                merge_headers(tuple_headers, &rh)
            };
            headers.insert(String::from_str("content-type"), ct);
            Response { status_code: sc, headers, body }
        }
        HandlerValue::Structured(encoded) => {
            let mut headers = tuple_headers;
            headers.insert(
                String::from_str("content-type"),
                String::from_str("application/json"),
            );
            Response { status_code: status, headers, body: encoded }
        }
        HandlerValue::Text(s) => {
            let mut headers = tuple_headers;
            if strict_json_strings {
                headers.insert(
                    String::from_str("content-type"),
                    String::from_str("application/json"),
                );
                let mut body = String::from_str("\"");
                body.append(json_escape(s.as_str()).as_str());
                body.append("\"");
                proof {
                    reveal_strlit("\"");
                    assert(body@ =~= spec_text_body(s@, true));
                }
                Response { status_code: status, headers, body }
            } else {
                let ct = if text_is_html(s.as_str()) {
                    String::from_str("text/html; charset=utf-8")
                } else {
                    String::from_str("text/plain; charset=utf-8")
                };
                headers.insert(String::from_str("content-type"), ct);
                Response { status_code: status, headers, body: s }
            }
        }
        HandlerValue::Other(s) => {
            let mut headers = tuple_headers;
            headers.insert(
                String::from_str("content-type"),
                String::from_str("text/plain; charset=utf-8"),
            );
            Response { status_code: status, headers, body: s }
        }
    }
}

/// The response for a path no route matches.
pub fn not_found_response() -> (r: Response)
    ensures
        r.status_code == 404,
        r.headers.wf(),
        r.headers@ =~= seq![("content-type"@, "application/json"@)],
        r.body@ == "{\"detail\":\"No route found\",\"error\":\"Not Found\"}"@,
{
    Response::json(
        String::from_str("{\"detail\":\"No route found\",\"error\":\"Not Found\"}"),
        Some(404),
    )
}

/// The generic response for an error nothing handled.
pub fn internal_error_response(detail: &str) -> (r: Response)
    ensures
        r.status_code == 500,
        r.headers.wf(),
        r.headers@ =~= seq![("content-type"@, "application/json"@)],
        r.body@ == "{\"detail\":\""@ + json_escaped(detail@)
            + "\",\"error\":\"Internal Server Error\"}"@,
{
    let mut body = String::from_str("{\"detail\":\"");
    body.append(json_escape(detail).as_str());
    body.append("\",\"error\":\"Internal Server Error\"}");
    Response::json(body, Some(500))
}

/// The response for a body the schema validator refused: a 422 whose JSON
/// body carries the validator's structured error list under `detail`.
pub fn validation_failed_response(detail_json: &str) -> (r: Response)
    ensures
        r.status_code == 422,
        r.headers.wf(),
        r.headers@ =~= seq![("content-type"@, "application/json"@)],
        r.body@ == "{\"error\": \"Validation failed\", \"detail\": "@ + detail_json@ + "}"@,
{
    let mut body = String::from_str("{\"error\": \"Validation failed\", \"detail\": ");
    body.append(detail_json);
    body.append("}");
    Response::json(body, Some(422))
}

/// The response for a recognized HTTP exception: its status, its detail in
/// a JSON body, and its header overrides.
pub fn http_exception_response(status: u16, detail: &str, headers: Option<ParamMap>) -> (r:
    Response)
    requires
        headers is Some ==> headers.unwrap().wf(),
    ensures
        r.status_code == status,
        r.headers.wf(),
        r.body@ == "{\"detail\":\""@ + json_escaped(detail@) + "\"}"@,
        match headers {
            Some(h) => r.headers@ == if crate::params::assoc_get(h@, "content-type"@) is Some {
                h@
            } else {
                assoc_set(h@, "content-type"@, "application/json"@)
            },
            None => r.headers@ == assoc_set(
                Seq::<(Seq<char>, Seq<char>)>::empty(),
                "content-type"@,
                "application/json"@,
            ),
        },
{
    let mut body = String::from_str("{\"detail\":\"");
    body.append(json_escape(detail).as_str());
    body.append("\"}");
    Response::new(body, status, headers)
}

/// The response of the `OPTIONS` bypass: 200 over an empty plain-text
/// body, with any header overrides the after-chain produced.
pub fn options_response(custom_headers: Option<ParamMap>) -> (r: Response)
    requires
        custom_headers is Some ==> custom_headers.unwrap().wf(),
    ensures
        r.status_code == 200,
        r.headers.wf(),
        r.body@ == Seq::<char>::empty(),
        match custom_headers {
            Some(h) => r.headers@ == merged(seq![("content-type"@, "text/plain"@)], h@),
            None => r.headers@ =~= seq![("content-type"@, "text/plain"@)],
        },
{
    let mut headers = ParamMap::new();
    headers.insert(String::from_str("content-type"), String::from_str("text/plain"));
    let headers = match custom_headers {
        Some(h) => merge_headers(headers, &h),
        None => headers,
    };
    let body = String::new();
    proof {
        reveal_strlit("");
    }
    Response { status_code: 200, headers, body }
}

/// The identification header every response carries.
pub fn server_header() -> (r: (&'static str, &'static str))
    ensures
        r.0@ == "server"@,
        r.1@ == "Ignyx/1.0.3"@,
{
    ("server", "Ignyx/1.0.3")
}

} // verus!
