//! A foreign process — one we did not spawn and do not reap — and the
//! decisions of its shutdown operations.
//!
//! Each operation is a small machine: it names the next piece of outside
//! work (an identity-bound signal, a non-reaping wait, an identity-walk
//! sweep of the tree), is told how that work went, and decides what follows,
//! until it finishes with the operation's result. Lone operations surface
//! real failures; tree operations are best-effort sweeps.

use std::time::Duration;

use vstd::prelude::*;

use crate::containment::treewalk::{
    children_of_with, descendants_with, is_children, is_descendant_walk, ALLOW_EQUAL_TOKEN,
};
use crate::containment::Signal;
use crate::error::Error;
use crate::identity::{ProcessId, RawPid};

verus! {

/// A foreign process, by its identity.
#[derive(Debug, Clone, Copy, PartialEq, Eq, Hash, Structural)]
pub struct Process {
    id: ProcessId,
}

/// Whether a children query descends below the direct children.
#[derive(Debug, Clone, Copy, PartialEq, Eq, Structural)]
pub enum Recursive {
    /// Direct children only.
    No,
    /// Every genuine descendant.
    Yes,
}

/// The identities of a sequence of processes.
pub open spec fn ids_of(ps: Seq<Process>) -> Seq<ProcessId> {
    ps.map_values(|p: Process| p.spec_id())
}

/// The next piece of outside work.
#[derive(Debug, Clone, Copy)]
pub enum Action {
    /// Send `signal` to exactly `target` (identity-bound: never a recycled pid).
    Signal { target: ProcessId, signal: Signal },
    /// Block until `target` exits or `grace` elapses, without reaping it.
    WaitExit { target: ProcessId, grace: Duration },
    /// Signal the tree rooted at `root` by identity walk: the root, then each
    /// genuine descendant of a fresh snapshot.
    Sweep { root: ProcessId, signal: Signal },
}

/// How the outside work went.
#[derive(Debug)]
pub enum Event {
    /// The outcome of a [`Action::Signal`]: already-dead is `Ok`.
    Signaled(Result<(), Error>),
    /// The outcome of a [`Action::WaitExit`]: `Ok(true)` = exited, `Ok(false)` =
    /// still alive when the grace elapsed.
    Waited(Result<bool, Error>),
    /// A [`Action::Sweep`] was carried out (best-effort: it reports no failure).
    Swept,
}

/// Where a shutdown operation stands: which outcome it awaits.
#[derive(Debug, Clone, Copy)]
pub enum Shutdown {
    /// Awaiting the lone `SIGTERM`; with a grace, a wait and an escalation follow.
    LoneTerm { target: ProcessId, grace: Option<Duration> },
    /// Awaiting the lone grace wait; a `SIGKILL` follows if it timed out.
    LoneWait { target: ProcessId },
    /// Awaiting the lone `SIGKILL`.
    LoneKill { target: ProcessId },
    /// Awaiting the `SIGTERM` sweep; with a grace, a wait on the root and a
    /// hard sweep follow.
    TreeTerm { target: ProcessId, grace: Option<Duration> },
    /// Awaiting the grace wait on the root; the hard sweep follows either way.
    TreeWait { target: ProcessId },
    /// Awaiting the hard sweep.
    TreeKill { target: ProcessId },
}

/// What a shutdown does after an event.
#[derive(Debug)]
pub enum Step {
    /// Carry out `Action`, then report to the new state.
    Next(Shutdown, Action),
    /// The operation is over, with this result.
    Done(Result<(), Error>),
}

impl Shutdown {
    /// The event kind this state awaits.
    pub open spec fn expects(self, ev: Event) -> bool {
        match self {
            Shutdown::LoneTerm { .. } | Shutdown::LoneKill { .. } => ev is Signaled,
            Shutdown::LoneWait { .. } | Shutdown::TreeWait { .. } => ev is Waited,
            Shutdown::TreeTerm { .. } | Shutdown::TreeKill { .. } => ev is Swept,
        }
    }

    /// `a` is the work whose outcome this state awaits.
    pub open spec fn awaits(self, a: Action) -> bool {
        match self {
            Shutdown::LoneTerm { .. } | Shutdown::LoneKill { .. } => a is Signal,
            Shutdown::LoneWait { .. } | Shutdown::TreeWait { .. } => a is WaitExit,
            Shutdown::TreeTerm { .. } | Shutdown::TreeKill { .. } => a is Sweep,
        }
    }

    /// An upper bound on the actions still to come after the awaited one.
    pub open spec fn budget(self) -> nat {
        match self {
            Shutdown::LoneTerm { grace, .. } => if grace is Some {
                2
            } else {
                0
            },
            Shutdown::LoneWait { .. } => 1,
            Shutdown::LoneKill { .. } => 0,
            Shutdown::TreeTerm { grace, .. } => if grace is Some {
                2
            } else {
                0
            },
            Shutdown::TreeWait { .. } => 1,
            Shutdown::TreeKill { .. } => 0,
        }
    }

    /// The identity the operation acts on.
    pub open spec fn target(self) -> ProcessId {
        match self {
            Shutdown::LoneTerm { target, .. } => target,
            Shutdown::LoneWait { target } => target,
            Shutdown::LoneKill { target } => target,
            Shutdown::TreeTerm { target, .. } => target,
            Shutdown::TreeWait { target } => target,
            Shutdown::TreeKill { target } => target,
        }
    }

    /// The decision after `ev`, the outcome of the awaited work:
    /// - a lone `SIGTERM` that failed ends with its error; one that was sent
    ///   ends `Ok` with no grace, else the grace wait follows;
    /// - the lone wait: exited ⇒ `Ok`, timed out ⇒ `SIGKILL` (escalation
    ///   proceeds even if `SIGTERM` was ignored), failed ⇒ its error;
    /// - the lone `SIGKILL` ends with its outcome;
    /// - the `SIGTERM` sweep ends `Ok` with no grace, else the grace wait on
    ///   the root follows;
    /// - the tree wait: failed ⇒ its error, otherwise (exited or not) the hard
    ///   sweep follows;
    /// - the hard sweep ends `Ok`.
    pub fn advance(self, ev: Event) -> (r: Step)
        requires
            self.expects(ev),
        ensures
            r matches Step::Next(s, a) ==> s.budget() < self.budget() && s.target()
                == self.target() && s.awaits(a),
            match self {
                Shutdown::LoneTerm { target, grace } => match ev {
                    Event::Signaled(Err(e)) => r == Step::Done(Err(e)),
                    Event::Signaled(Ok(())) => match grace {
                        None => r == Step::Done(Ok(())),
                        Some(g) => r == Step::Next(
                            Shutdown::LoneWait { target },
                            Action::WaitExit { target, grace: g },
                        ),
                    },
                    _ => false,
                },
                Shutdown::LoneWait { target } => match ev {
                    Event::Waited(Err(e)) => r == Step::Done(Err(e)),
                    Event::Waited(Ok(true)) => r == Step::Done(Ok(())),
                    Event::Waited(Ok(false)) => r == Step::Next(
                        Shutdown::LoneKill { target },
                        Action::Signal { target, signal: Signal::Kill },
                    ),
                    _ => false,
                },
                Shutdown::LoneKill { .. } => match ev {
                    Event::Signaled(res) => r == Step::Done(res),
                    _ => false,
                },
                Shutdown::TreeTerm { target, grace } => match grace {
                    None => r == Step::Done(Ok(())),
                    Some(g) => r == Step::Next(
                        Shutdown::TreeWait { target },
                        Action::WaitExit { target, grace: g },
                    ),
                },
                Shutdown::TreeWait { target } => match ev {
                    Event::Waited(Err(e)) => r == Step::Done(Err(e)),
                    Event::Waited(Ok(_)) => r == Step::Next(
                        Shutdown::TreeKill { target },
                        Action::Sweep { root: target, signal: Signal::Kill },
                    ),
                    _ => false,
                },
                Shutdown::TreeKill { .. } => r == Step::Done(Ok(())),
            },
    {
        match self {
            Shutdown::LoneTerm { target, grace } => match ev {
                Event::Signaled(Err(e)) => Step::Done(Err(e)),
                Event::Signaled(Ok(())) => match grace {
                    None => Step::Done(Ok(())),
                    Some(g) => Step::Next(
                        Shutdown::LoneWait { target },
                        Action::WaitExit { target, grace: g },
                    ),
                },
                Event::Waited(_) | Event::Swept => Step::Done(Ok(())),
            },
            Shutdown::LoneWait { target } => match ev {
                Event::Waited(Err(e)) => Step::Done(Err(e)),
                Event::Waited(Ok(exited)) => {
                    if exited {
                        Step::Done(Ok(()))
                    } else {
                        Step::Next(
                            Shutdown::LoneKill { target },
                            Action::Signal { target, signal: Signal::Kill },
                        )
                    }
                },
                Event::Signaled(_) | Event::Swept => Step::Done(Ok(())),
            },
            Shutdown::LoneKill { .. } => match ev {
                Event::Signaled(res) => Step::Done(res),
                Event::Waited(_) | Event::Swept => Step::Done(Ok(())),
            },
            Shutdown::TreeTerm { target, grace } => match grace {
                None => Step::Done(Ok(())),
                Some(g) => Step::Next(
                    Shutdown::TreeWait { target },
                    Action::WaitExit { target, grace: g },
                ),
            },
            Shutdown::TreeWait { target } => match ev {
                Event::Waited(Err(e)) => Step::Done(Err(e)),
                Event::Waited(Ok(_)) => Step::Next(
                    Shutdown::TreeKill { target },
                    Action::Sweep { root: target, signal: Signal::Kill },
                ),
                Event::Signaled(_) | Event::Swept => Step::Done(Ok(())),
            },
            Shutdown::TreeKill { .. } => Step::Done(Ok(())),
        }
    }
}

impl Process {
    /// The identity of this process.
    pub fn id(&self) -> (r: ProcessId)
        ensures
            r == self.spec_id(),
    {
        self.id
    }

    /// The spec view of [`Process::id`].
    pub closed spec fn spec_id(self) -> ProcessId {
        self.id
    }

    /// The process with identity `id`, given the identity its pid resolves to
    /// now (`current`): `Some` only when that is still exactly `id` — a
    /// recycled pid (another start token) or a vanished one does not resolve.
    pub fn from_id(id: ProcessId, current: Option<ProcessId>) -> (r: Option<Process>)
        ensures
            r matches Some(p) ==> p.spec_id() == id,
            r is Some <==> current == Some(id),
    {
        match current {
            Some(c) => {
                if c == id {
                    Some(Process { id })
                } else {
                    None
                }
            },
            None => None,
        }
    }

    /// Send `SIGTERM` to the process — a cooperative request to exit,
    /// identity-bound. The operation ends with the signal's outcome
    /// (already-dead ⇒ `Ok`).
    pub fn terminate(&self) -> (r: (Shutdown, Action))
        ensures
            r.0 == (Shutdown::LoneTerm { target: self.spec_id(), grace: None }),
            r.1 == (Action::Signal { target: self.spec_id(), signal: Signal::Term }),
            r.0.awaits(r.1),
    {
        (
            Shutdown::LoneTerm { target: self.id, grace: None },
            Action::Signal { target: self.id, signal: Signal::Term },
        )
    }

    /// Cooperative-then-forced lone shutdown: `SIGTERM`, wait up to `grace`
    /// for the exit, then `SIGKILL` if it has not happened. No exit status —
    /// only the real parent gets that.
    pub fn graceful_shutdown(&self, grace: Duration) -> (r: (Shutdown, Action))
        ensures
            r.0 == (Shutdown::LoneTerm { target: self.spec_id(), grace: Some(grace) }),
            r.1 == (Action::Signal { target: self.spec_id(), signal: Signal::Term }),
            r.0.awaits(r.1),
    {
        (
            Shutdown::LoneTerm { target: self.id, grace: Some(grace) },
            Action::Signal { target: self.id, signal: Signal::Term },
        )
    }

    /// Best-effort hard sweep of the process's tree by identity walk (root,
    /// then descendants); it always ends `Ok`.
    pub fn kill_tree(&self) -> (r: (Shutdown, Action))
        ensures
            r.0 == (Shutdown::TreeKill { target: self.spec_id() }),
            r.1 == (Action::Sweep { root: self.spec_id(), signal: Signal::Kill }),
            r.0.awaits(r.1),
    {
        (
            Shutdown::TreeKill { target: self.id },
            Action::Sweep { root: self.id, signal: Signal::Kill },
        )
    }

    /// Best-effort graceful (`SIGTERM`) sweep of the process's tree by
    /// identity walk; it always ends `Ok`.
    pub fn terminate_tree(&self) -> (r: (Shutdown, Action))
        ensures
            r.0 == (Shutdown::TreeTerm { target: self.spec_id(), grace: None }),
            r.1 == (Action::Sweep { root: self.spec_id(), signal: Signal::Term }),
            r.0.awaits(r.1),
    {
        (
            Shutdown::TreeTerm { target: self.id, grace: None },
            Action::Sweep { root: self.id, signal: Signal::Term },
        )
    }

    /// Cooperative-then-forced shutdown of the tree: a `SIGTERM` sweep, a
    /// wait of up to `grace` for the root, then a hard sweep.
    pub fn graceful_shutdown_tree(&self, grace: Duration) -> (r: (Shutdown, Action))
        ensures
            r.0 == (Shutdown::TreeTerm { target: self.spec_id(), grace: Some(grace) }),
            r.1 == (Action::Sweep { root: self.spec_id(), signal: Signal::Term }),
            r.0.awaits(r.1),
    {
        (
            Shutdown::TreeTerm { target: self.id, grace: Some(grace) },
            Action::Sweep { root: self.id, signal: Signal::Term },
        )
    }
}

impl Process {
    /// The genuine children of this process in the snapshot `parents`
    /// (`(pid, ppid)` pairs), resolving candidates with `resolve`: the direct
    /// children, or with [`Recursive::Yes`] every genuine descendant (the
    /// identity walk under this host's token rule).
    pub fn children<F: Fn(RawPid) -> Option<ProcessId>>(
        &self,
        recursive: Recursive,
        parents: &[(RawPid, RawPid)],
        resolve: F,
    ) -> (r: Vec<Process>)
        requires
            forall|q: RawPid| #[trigger] call_requires(resolve, (q,)),
        ensures
            recursive == Recursive::No ==> exists|ps: Seq<RawPid>|
                #[trigger] is_children(
                    self.spec_id(),
                    parents@,
                    ALLOW_EQUAL_TOKEN,
                    resolve,
                    ps,
                    ids_of(r@),
                ),
            recursive == Recursive::Yes ==> exists|ps: Seq<RawPid>|
                #[trigger] is_descendant_walk(
                    self.spec_id(),
                    parents@,
                    ALLOW_EQUAL_TOKEN,
                    resolve,
                    ps,
                    ids_of(r@),
                ),
    {
        let ids = match recursive {
            Recursive::No => children_of_with(self.id, parents, ALLOW_EQUAL_TOKEN, resolve),
            Recursive::Yes => descendants_with(self.id, parents, ALLOW_EQUAL_TOKEN, resolve),
        };
        let mut out: Vec<Process> = Vec::new();
        let mut i: usize = 0;
        while i < ids.len()
            invariant
                i <= ids.len(),
                ids_of(out@) == ids@.take(i as int),
            decreases ids.len() - i,
        {
            let ghost before = out@;
            out.push(Process { id: ids[i] });
            proof {
                assert(ids_of(before).len() == before.len());
                assert forall|k: int| 0 <= k < out@.len() implies #[trigger] ids_of(out@)[k]
                    == ids@.take(i + 1)[k] by {
                    if k < before.len() {
                        assert(out@[k] == before[k]);
                        assert(ids_of(before)[k] == ids@.take(i as int)[k]);
                    }
                }
                assert(ids_of(out@) =~= ids@.take(i + 1));
            }
            i += 1;
        }
        assert(ids@.take(ids.len() as int) =~= ids@);
        proof {
            if recursive == Recursive::No {
                let ps = choose|ps: Seq<RawPid>|
                    #[trigger] is_children(self.id, parents@, ALLOW_EQUAL_TOKEN, resolve, ps, ids@);
                assert(is_children(
                    self.spec_id(),
                    parents@,
                    ALLOW_EQUAL_TOKEN,
                    resolve,
                    ps,
                    ids_of(out@),
                ));
            } else {
                let ps = choose|ps: Seq<RawPid>|
                    #[trigger] is_descendant_walk(
                        self.id,
                        parents@,
                        ALLOW_EQUAL_TOKEN,
                        resolve,
                        ps,
                        ids@,
                    );
                assert(is_descendant_walk(
                    self.spec_id(),
                    parents@,
                    ALLOW_EQUAL_TOKEN,
                    resolve,
                    ps,
                    ids_of(out@),
                ));
            }
        }
        out
    }
}

/// An event reports on the work `a`: a signal's outcome, a wait's, or a sweep.
pub open spec fn reports_on(ev: Event, a: Action) -> bool {
    match a {
        Action::Signal { .. } => ev is Signaled,
        Action::WaitExit { .. } => ev is Waited,
        Action::Sweep { .. } => ev is Swept,
    }
}

/// Reporting how the named work went is always an event the state accepts:
/// a state awaiting `a`, told about `a`, can always advance.
pub proof fn lemma_report_is_expected(s: Shutdown, a: Action, ev: Event)
    requires
        s.awaits(a),
        reports_on(ev, a),
    ensures
        s.expects(ev),
{
}


} // verus!
