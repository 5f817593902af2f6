//! The decisions of an owned child's lifecycle: the graceful shutdown of the
//! lone child, what dropping the handle does, and how a tree kill reports.
//!
//! As for foreign processes, each operation names the outside work (a
//! signal, a bounded wait, a kill, a reap) and is told how it went. `S` is the
//! exit status that reaping yields.

use std::time::Duration;

use vstd::prelude::*;

use crate::containment::{Attached, Signal, Teardown};
use crate::error::Error;

verus! {

/// The next piece of outside work on the child.
#[derive(Debug, Clone, Copy)]
pub enum ChildAction {
    /// `SIGTERM` to the child (identity-bound, signal-only).
    Terminate,
    /// Wait up to `grace` for the child to exit, reaping it if it does.
    WaitFor(Duration),
    /// `SIGKILL` to the child through its handle.
    Kill,
    /// Wait for the child to exit and reap it.
    Reap,
}

/// How the outside work on the child went.
#[derive(Debug)]
pub enum ChildEvent<S> {
    /// The outcome of [`ChildAction::Terminate`].
    Terminated(Result<(), Error>),
    /// The outcome of [`ChildAction::WaitFor`]: `Some` = exited (and reaped).
    Waited(Result<Option<S>, Error>),
    /// The outcome of [`ChildAction::Kill`].
    Killed(Result<(), Error>),
    /// The outcome of [`ChildAction::Reap`].
    Reaped(Result<S, Error>),
}

/// Where a graceful shutdown of the child stands: which outcome it awaits.
#[derive(Debug, Clone, Copy)]
pub enum ChildShutdown {
    AwaitTerm { grace: Duration },
    AwaitWait,
    AwaitKill,
    AwaitReap,
}

/// What a child shutdown does after an event.
#[derive(Debug)]
pub enum ChildStep<S> {
    /// Carry out the action, then report to the new state.
    Next(ChildShutdown, ChildAction),
    /// The shutdown is over, with the child's exit status or an error.
    Done(Result<S, Error>),
}

/// An event reports on the work `a`.
pub open spec fn reports_on<S>(ev: ChildEvent<S>, a: ChildAction) -> bool {
    match a {
        ChildAction::Terminate => ev is Terminated,
        ChildAction::WaitFor(_) => ev is Waited,
        ChildAction::Kill => ev is Killed,
        ChildAction::Reap => ev is Reaped,
    }
}

impl ChildShutdown {
    /// `a` is the work whose outcome this state awaits.
    pub open spec fn awaits(self, a: ChildAction) -> bool {
        match self {
            ChildShutdown::AwaitTerm { .. } => a is Terminate,
            ChildShutdown::AwaitWait => a is WaitFor,
            ChildShutdown::AwaitKill => a is Kill,
            ChildShutdown::AwaitReap => a is Reap,
        }
    }

    /// The event kind this state accepts.
    pub open spec fn expects<S>(self, ev: ChildEvent<S>) -> bool {
        match self {
            ChildShutdown::AwaitTerm { .. } => ev is Terminated,
            ChildShutdown::AwaitWait => ev is Waited,
            ChildShutdown::AwaitKill => ev is Killed,
            ChildShutdown::AwaitReap => ev is Reaped,
        }
    }

    /// An upper bound on the actions still to come after the awaited one.
    pub open spec fn budget(self) -> nat {
        match self {
            ChildShutdown::AwaitTerm { .. } => 3,
            ChildShutdown::AwaitWait => 2,
            ChildShutdown::AwaitKill => 1,
            ChildShutdown::AwaitReap => 0,
        }
    }

    /// Start a cooperative-then-forced shutdown of the lone child: `SIGTERM`,
    /// wait up to `grace`, then `SIGKILL` and reap if it has not exited.
    pub fn graceful(grace: Duration) -> (r: (ChildShutdown, ChildAction))
        ensures
            r.0 == (ChildShutdown::AwaitTerm { grace }),
            r.1 == ChildAction::Terminate,
            r.0.awaits(r.1),
    {
        (ChildShutdown::AwaitTerm { grace }, ChildAction::Terminate)
    }

    /// The decision after `ev`, the outcome of the awaited work:
    /// - a failed `SIGTERM` ends with its error, a sent one is followed by the
    ///   grace wait;
    /// - the wait: exited ⇒ its status; still running ⇒ `SIGKILL` (escalation
    ///   proceeds even if `SIGTERM` was ignored); failed ⇒ its error;
    /// - a failed `SIGKILL` ends with its error, a sent one is followed by the reap;
    /// - the reap ends with its outcome.
    pub fn advance<S>(self, ev: ChildEvent<S>) -> (r: ChildStep<S>)
        requires
            self.expects(ev),
        ensures
            r matches ChildStep::Next(s, a) ==> s.budget() < self.budget() && s.awaits(a),
            match self {
                ChildShutdown::AwaitTerm { grace } => match ev {
                    ChildEvent::Terminated(Err(e)) => r == ChildStep::<S>::Done(Err(e)),
                    ChildEvent::Terminated(Ok(())) => r == ChildStep::<S>::Next(
                        ChildShutdown::AwaitWait,
                        ChildAction::WaitFor(grace),
                    ),
                    _ => false,
                },
                ChildShutdown::AwaitWait => match ev {
                    ChildEvent::Waited(Err(e)) => r == ChildStep::<S>::Done(Err(e)),
                    ChildEvent::Waited(Ok(Some(st))) => r == ChildStep::<S>::Done(Ok(st)),
                    ChildEvent::Waited(Ok(None)) => r == ChildStep::<S>::Next(
                        ChildShutdown::AwaitKill,
                        ChildAction::Kill,
                    ),
                    _ => false,
                },
                ChildShutdown::AwaitKill => match ev {
                    ChildEvent::Killed(Err(e)) => r == ChildStep::<S>::Done(Err(e)),
                    ChildEvent::Killed(Ok(())) => r == ChildStep::<S>::Next(
                        ChildShutdown::AwaitReap,
                        ChildAction::Reap,
                    ),
                    _ => false,
                },
                ChildShutdown::AwaitReap => match ev {
                    ChildEvent::Reaped(res) => r == ChildStep::<S>::Done(res),
                    _ => false,
                },
            },
    {
        match self {
            ChildShutdown::AwaitTerm { grace } => match ev {
                ChildEvent::Terminated(Err(e)) => ChildStep::Done(Err(e)),
                ChildEvent::Terminated(Ok(())) => ChildStep::Next(
                    ChildShutdown::AwaitWait,
                    ChildAction::WaitFor(grace),
                ),
                _ => ChildStep::Next(ChildShutdown::AwaitWait, ChildAction::WaitFor(grace)),
            },
            ChildShutdown::AwaitWait => match ev {
                ChildEvent::Waited(Err(e)) => ChildStep::Done(Err(e)),
                ChildEvent::Waited(Ok(Some(st))) => ChildStep::Done(Ok(st)),
                _ => ChildStep::Next(ChildShutdown::AwaitKill, ChildAction::Kill),
            },
            ChildShutdown::AwaitKill => match ev {
                ChildEvent::Killed(Err(e)) => ChildStep::Done(Err(e)),
                _ => ChildStep::Next(ChildShutdown::AwaitReap, ChildAction::Reap),
            },
            ChildShutdown::AwaitReap => match ev {
                ChildEvent::Reaped(res) => ChildStep::Done(res),
                _ => ChildStep::Next(ChildShutdown::AwaitReap, ChildAction::Reap),
            },
        }
    }
}

/// Reporting how the named work went is always an event the state accepts.
pub proof fn lemma_child_report_is_expected<S>(s: ChildShutdown, a: ChildAction, ev: ChildEvent<S>)
    requires
        s.awaits(a),
        reports_on(ev, a),
    ensures
        s.expects(ev),
{
}

/// What dropping a child handle does.
#[derive(Debug, Clone, Copy, PartialEq, Eq, Structural)]
pub enum DropPlan {
    /// Nothing: the handle was detached or opted out of kill-on-drop.
    Leave,
    /// Tear the contained tree down as given, then kill the child itself,
    /// then reap it — killing before reaping, since reaping frees the pid.
    KillThenReap(Teardown),
}

/// The drop of a child handle: with kill-on-drop, the hard kill of the
/// contained tree (nothing for a lone child), the child, then the reap.
pub fn drop_plan<L>(attached: &Attached<L>, kill_on_drop: bool) -> (r: DropPlan)
    ensures
        r == if kill_on_drop {
            DropPlan::KillThenReap(attached.spec_teardown(Signal::Kill))
        } else {
            DropPlan::Leave
        },
{
    if kill_on_drop {
        DropPlan::KillThenReap(attached.hard_kill())
    } else {
        DropPlan::Leave
    }
}

/// The result of a tree kill: the group teardown's error first; when it
/// succeeded, the outcome of the backstop kill of the child's handle.
pub fn tree_kill_result(group: Result<(), Error>, backstop: Result<(), Error>) -> (r: Result<
    (),
    Error,
>)
    ensures
        r == match group {
            Err(e) => Err::<(), Error>(e),
            Ok(()) => backstop,
        },
{
    match group {
        Err(e) => Err(e),
        Ok(()) => backstop,
    }
}

} // verus!
