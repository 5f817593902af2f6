//! Process-tree containment: the mechanisms, what a caller requests, and the
//! two decisions that pick a mechanism — the plan made before the spawn and
//! the mechanism attached after it.
//!
//! This is not a security sandbox: a determined child escapes every
//! mechanism. It tears down cooperative trees and reports the guarantee that
//! was actually achieved.

pub mod cgroup;
pub mod treewalk;

use vstd::prelude::*;
use vstd::string::StringExecFns;

use crate::error::Error;
use crate::identity::ProcessId;

verus! {

/// The teardown mechanism actually achieved for a spawned child.
#[derive(Debug, Clone, Copy, PartialEq, Eq, Structural)]
#[non_exhaustive]
pub enum Containment {
    /// Linux cgroup v2 leaf + `cgroup.kill`. Fork-proof.
    CgroupV2,
    /// Windows Job Object + `KILL_ON_JOB_CLOSE`.
    JobObject,
    /// Unix process group + `killpg`. A `setsid` child escapes.
    ProcessGroup,
    /// Unix session (`setsid`) + `killpg`. A nested-`setsid` child escapes.
    Session,
    /// Identity-aware descendant enumeration at teardown. Misses reparented orphans.
    TreeWalk,
    /// A nested member of an ancestor's group: the outermost root tears the tree down.
    Delegated,
    /// No containment — `kill`/drop act on the lone process.
    Uncontained,
}

impl Containment {
    /// Every mechanism but `None` and `Delegated` drives a tree teardown.
    pub open spec fn spec_can_teardown(self) -> bool {
        match self {
            Containment::Uncontained | Containment::Delegated => false,
            _ => true,
        }
    }

    /// Whether this handle can drive tree teardown (`kill_tree`/`terminate_tree`
    /// act rather than returning `Unsupported`).
    pub fn can_teardown(&self) -> (r: bool)
        ensures
            r == self.spec_can_teardown(),
    {
        match self {
            Containment::CgroupV2
            | Containment::JobObject
            | Containment::ProcessGroup
            | Containment::Session
            | Containment::TreeWalk => true,
            Containment::Uncontained | Containment::Delegated => false,
        }
    }

    /// The display form: the mechanism's name.
    pub open spec fn text(self) -> Seq<char> {
        match self {
            Containment::CgroupV2 => "cgroup v2"@,
            Containment::JobObject => "job object"@,
            Containment::ProcessGroup => "process group"@,
            Containment::Session => "session"@,
            Containment::TreeWalk => "process-tree walk"@,
            Containment::Delegated => "delegated"@,
            Containment::Uncontained => "none"@,
        }
    }

    /// The display form: the mechanism's name.
    pub fn name(&self) -> (r: String)
        ensures
            r@ == self.text(),
    {
        match self {
            Containment::CgroupV2 => String::from_str("cgroup v2"),
            Containment::JobObject => String::from_str("job object"),
            Containment::ProcessGroup => String::from_str("process group"),
            Containment::Session => String::from_str("session"),
            Containment::TreeWalk => String::from_str("process-tree walk"),
            Containment::Delegated => String::from_str("delegated"),
            Containment::Uncontained => String::from_str("none"),
        }
    }
}

/// The teardown strategy a caller requests.
#[derive(Debug, Clone, Copy, PartialEq, Eq, Structural)]
#[non_exhaustive]
pub enum ContainMode {
    /// The strongest kernel container available, falling back to a process
    /// group rather than to no containment.
    Strongest,
    /// Identity-aware process-tree walk at teardown.
    TreeWalk,
    /// Unix session containment via `setsid` (never combined with a process group).
    Session,
}

/// Whether a kill-group root marks its descendants as already contained.
#[derive(Debug, Clone, Copy, PartialEq, Eq, Structural)]
pub enum Nesting {
    /// Mark descendants (default): nested contained spawns join this group.
    Mark,
    /// Leave descendants unmarked: nested contained spawns make their own groups.
    Opaque,
}

impl Default for Nesting {
    fn default() -> (r: Nesting)
        ensures
            r == Nesting::Mark,
    {
        Nesting::Mark
    }
}

/// The resolved containment request carried on a command.
#[derive(Debug, Clone, Copy, PartialEq, Eq, Structural)]
pub struct ContainRequest {
    /// `None` = not contained.
    pub mode: Option<ContainMode>,
    pub nesting: Nesting,
}

impl Default for ContainRequest {
    fn default() -> (r: ContainRequest)
        ensures
            r.mode is None,
            r.nesting == Nesting::Mark,
    {
        ContainRequest { mode: None, nesting: Nesting::Mark }
    }
}

/// The reserved, inherited environment marker for kill-group root detection:
/// only the outermost contained spawn creates a group; descendants inherit
/// this marker and join it.
pub const NESTED_ENV: &'static str = "__SUBPROCESS_GROUP_ROOT";

/// Whether the current process already sits inside a contained tree: exactly
/// when the environment marker is present.
pub fn is_nested(marker_present: bool) -> (r: bool)
    ensures
        r == marker_present,
{
    marker_present
}

/// Which Unix setup a root spawn gets before it runs.
#[derive(Debug, Clone, Copy, PartialEq, Eq, Structural)]
pub enum UnixSetup {
    /// `setsid` (session mode) — never combined with a process group.
    Session,
    /// `process_group(0)` (strongest / default).
    ProcessGroup,
    /// No grouping (tree walk: it must catch process-group escapees).
    NoGrouping,
}

pub open spec fn spec_unix_setup_for(mode: Option<ContainMode>) -> UnixSetup {
    match mode {
        Some(ContainMode::Session) => UnixSetup::Session,
        Some(ContainMode::TreeWalk) => UnixSetup::NoGrouping,
        _ => UnixSetup::ProcessGroup,
    }
}

/// The Unix mechanism for `mode`: session → `setsid` only, tree walk → no
/// grouping, anything else → a new process group.
pub fn unix_setup_for(mode: Option<ContainMode>) -> (r: UnixSetup)
    ensures
        r == spec_unix_setup_for(mode),
{
    match mode {
        Some(ContainMode::Session) => UnixSetup::Session,
        Some(ContainMode::TreeWalk) => UnixSetup::NoGrouping,
        _ => UnixSetup::ProcessGroup,
    }
}

/// What to do before the spawn.
#[derive(Debug, Clone, Copy, PartialEq, Eq, Structural)]
pub struct Prepared {
    /// The requested mode (`None` = uncontained).
    pub mode: Option<ContainMode>,
    /// Whether this spawn is the outermost contained root.
    pub is_root: bool,
    /// Whether the child's environment gets [`NESTED_ENV`].
    pub set_marker: bool,
    /// The grouping to apply to the child before it runs.
    pub setup: UnixSetup,
    /// Whether to try to create a cgroup v2 leaf for the child.
    pub try_cgroup: bool,
}

pub open spec fn spec_prepare(req: ContainRequest, marker_present: bool) -> Prepared {
    match req.mode {
        None => Prepared {
            mode: None,
            is_root: false,
            set_marker: false,
            setup: UnixSetup::NoGrouping,
            try_cgroup: false,
        },
        Some(m) => {
            let is_root = !marker_present;
            let setup = if is_root {
                spec_unix_setup_for(Some(m))
            } else {
                UnixSetup::NoGrouping
            };
            Prepared {
                mode: Some(m),
                is_root,
                set_marker: is_root && req.nesting == Nesting::Mark,
                setup,
                try_cgroup: setup == UnixSetup::ProcessGroup,
            }
        },
    }
}

/// Phase 1 (before the spawn): root detection from the inherited marker and
/// the pre-spawn setup. Only a root is grouped, and only a process-group root
/// tries a cgroup leaf; a nested member joins its ancestor's group.
pub fn prepare(req: &ContainRequest, marker_present: bool) -> (r: Prepared)
    ensures
        r == spec_prepare(*req, marker_present),
        r.mode == req.mode,
        r.is_root <==> (req.mode is Some && !marker_present),
        r.set_marker <==> (req.mode is Some && !marker_present && req.nesting == Nesting::Mark),
{
    proof {
        lemma_prepare_marks_descendants(*req, marker_present);
    }
    match req.mode {
        None => Prepared {
            mode: None,
            is_root: false,
            set_marker: false,
            setup: UnixSetup::NoGrouping,
            try_cgroup: false,
        },
        Some(m) => {
            let is_root = !is_nested(marker_present);
            let set_marker = is_root && req.nesting == Nesting::Mark;
            let setup = if is_root {
                unix_setup_for(Some(m))
            } else {
                UnixSetup::NoGrouping
            };
            let try_cgroup = setup == UnixSetup::ProcessGroup;
            Prepared { mode: Some(m), is_root, set_marker, setup, try_cgroup }
        },
    }
}

/// Root detection and marking, for every contained mode alike: a contained
/// spawn is the root exactly when no marker was inherited, and the root marks
/// its descendants exactly when the request asks for marking; an uncontained
/// spawn is neither a root nor marks anything.
pub proof fn lemma_prepare_marks_descendants(req: ContainRequest, marker_present: bool)
    ensures
        spec_prepare(req, marker_present).mode == req.mode,
        spec_prepare(req, marker_present).is_root <==> (req.mode is Some && !marker_present),
        spec_prepare(req, marker_present).set_marker <==> (req.mode is Some && !marker_present
            && req.nesting == Nesting::Mark),
{
}

/// The teardown resource held for a spawned child. `L` is the cgroup leaf handle.
#[derive(Debug)]
pub enum Attached<L> {
    /// Uncontained: lone-process semantics.
    Uncontained,
    /// A nested member: owns no teardown of its own.
    Delegated,
    /// A process group (or session) with this pgid (== the root's pid).
    ProcessGroup(i32),
    /// A cgroup v2 leaf.
    Cgroup(L),
    /// Identity-aware tree walk rooted at this identity.
    TreeWalk(ProcessId),
}

impl<L> Attached<L> {
    pub open spec fn spec_is_actionable(&self) -> bool {
        match self {
            Attached::Uncontained | Attached::Delegated => false,
            _ => true,
        }
    }

    /// Whether this child holds an actionable tree-teardown mechanism.
    pub fn is_actionable(&self) -> (r: bool)
        ensures
            r == self.spec_is_actionable(),
    {
        match self {
            Attached::Uncontained | Attached::Delegated => false,
            Attached::ProcessGroup(_) => true,
            Attached::Cgroup(_) => true,
            Attached::TreeWalk(_) => true,
        }
    }
}

/// The signal a teardown sends.
#[derive(Debug, Clone, Copy, PartialEq, Eq, Structural)]
pub enum Signal {
    /// `SIGTERM`: a cooperative request to exit.
    Term,
    /// `SIGKILL`: a forced kill.
    Kill,
}

/// The teardown work for an attached mechanism.
#[derive(Debug, Clone, Copy, PartialEq, Eq, Structural)]
pub enum Teardown {
    /// Nothing to do (no mechanism of its own).
    Nothing,
    /// Signal the process group `pgid`.
    Group { pgid: i32, signal: Signal },
    /// The cgroup leaf: `Kill` writes `cgroup.kill`, `Term` signals each listed pid.
    Leaf { signal: Signal },
    /// Identity walk from `root`: the root first, then each genuine descendant.
    Walk { root: ProcessId, signal: Signal },
}

/// The signal a teardown sends, if it sends one.
pub open spec fn teardown_signal(t: Teardown) -> Option<Signal> {
    match t {
        Teardown::Nothing => None,
        Teardown::Group { signal, .. } => Some(signal),
        Teardown::Leaf { signal } => Some(signal),
        Teardown::Walk { signal, .. } => Some(signal),
    }
}

impl<L> Attached<L> {
    pub open spec fn spec_teardown(&self, signal: Signal) -> Teardown {
        match self {
            Attached::Uncontained | Attached::Delegated => Teardown::Nothing,
            Attached::ProcessGroup(pgid) => Teardown::Group { pgid: *pgid, signal },
            Attached::Cgroup(_) => Teardown::Leaf { signal },
            Attached::TreeWalk(root) => Teardown::Walk { root: *root, signal },
        }
    }

    /// The hard-kill of the contained tree: `SIGKILL` through the mechanism
    /// held; nothing for an uncontained or delegated child.
    pub fn hard_kill(&self) -> (r: Teardown)
        ensures
            r == self.spec_teardown(Signal::Kill),
            r == Teardown::Nothing <==> !self.spec_is_actionable(),
            self.spec_is_actionable() ==> teardown_signal(r) == Some(Signal::Kill),
    {
        proof {
            lemma_teardown_carries_signal(self, Signal::Kill);
        }
        match self {
            Attached::Uncontained | Attached::Delegated => Teardown::Nothing,
            Attached::ProcessGroup(pgid) => Teardown::Group { pgid: *pgid, signal: Signal::Kill },
            Attached::Cgroup(_) => Teardown::Leaf { signal: Signal::Kill },
            Attached::TreeWalk(root) => Teardown::Walk { root: *root, signal: Signal::Kill },
        }
    }

    /// The graceful termination of the contained tree (signal-only); only an
    /// actionable mechanism is terminated.
    pub fn terminate(&self) -> (r: Teardown)
        requires
            self.spec_is_actionable(),
        ensures
            r == self.spec_teardown(Signal::Term),
            r != Teardown::Nothing,
            teardown_signal(r) == Some(Signal::Term),
    {
        proof {
            lemma_teardown_carries_signal(self, Signal::Term);
        }
        match self {
            Attached::Uncontained | Attached::Delegated => Teardown::Nothing,
            Attached::ProcessGroup(pgid) => Teardown::Group { pgid: *pgid, signal: Signal::Term },
            Attached::Cgroup(_) => Teardown::Leaf { signal: Signal::Term },
            Attached::TreeWalk(root) => Teardown::Walk { root: *root, signal: Signal::Term },
        }
    }
}

/// Every tree teardown sends the signal it was asked for, through the
/// mechanism held: a hard kill is `SIGKILL` and a termination `SIGTERM`
/// whichever mechanism (process group, cgroup leaf, tree walk) the child has;
/// the group is the one held and the walk starts at the root held; a child
/// without a mechanism of its own gets nothing.
pub proof fn lemma_teardown_carries_signal<L>(a: &Attached<L>, signal: Signal)
    ensures
        a.spec_teardown(signal) == Teardown::Nothing <==> !a.spec_is_actionable(),
        a.spec_is_actionable() ==> teardown_signal(a.spec_teardown(signal)) == Some(signal),
        *a matches Attached::ProcessGroup(g) ==> a.spec_teardown(signal) == (Teardown::Group {
            pgid: g,
            signal,
        }),
        *a matches Attached::TreeWalk(root) ==> a.spec_teardown(signal) == (Teardown::Walk {
            root,
            signal,
        }),
        *a matches Attached::Cgroup(_) ==> a.spec_teardown(signal) == (Teardown::Leaf { signal }),
{
}

/// The detail of the error when a tree-walk root vanished before its identity
/// could be read.
pub open spec fn root_vanished_detail() -> Seq<char> {
    "tree-walk root vanished before its identity could be read"@
}

/// Phase 2 (after the spawn): the mechanism achieved. `raw_pid` is the
/// child's pid; `leaf` is the cgroup leaf created before the spawn, if any,
/// with whether the child's pid was found in it; `root_id` is the child's
/// identity, `None` if it could not be read.
pub fn attach<L>(
    prepared: &Prepared,
    raw_pid: u32,
    leaf: Option<(L, bool)>,
    root_id: Option<ProcessId>,
) -> (r: Result<(Containment, Attached<L>), Error>)
    requires
        prepared.is_root && (prepared.mode == Some(ContainMode::Session) || prepared.mode == Some(
            ContainMode::Strongest,
        )) ==> raw_pid <= i32::MAX,
    ensures
        prepared.mode is None ==> (r matches Ok((c, a)) && c == Containment::Uncontained
            && a is Uncontained),
        prepared.mode is Some && !prepared.is_root ==> (r matches Ok((c, a)) && c
            == Containment::Delegated && a is Delegated),
        prepared.mode == Some(ContainMode::TreeWalk) && prepared.is_root ==> match root_id {
            Some(id) => r matches Ok((c, a)) && c == Containment::TreeWalk && a == Attached::<
                L,
            >::TreeWalk(id),
            None => r matches Err(Error::Containment { detail }) && detail@
                == root_vanished_detail(),
        },
        prepared.mode == Some(ContainMode::Session) && prepared.is_root ==> (r matches Ok((c, a))
            && c == Containment::Session && a == Attached::<L>::ProcessGroup(raw_pid as i32)),
        prepared.mode == Some(ContainMode::Strongest) && prepared.is_root ==> match leaf {
            Some((l, true)) => r matches Ok((c, a)) && c == Containment::CgroupV2 && a
                == Attached::<L>::Cgroup(l),
            _ => r matches Ok((c, a)) && c == Containment::ProcessGroup && a
                == Attached::<L>::ProcessGroup(raw_pid as i32),
        },
        r matches Ok((c, a)) ==> c.spec_can_teardown() == a.spec_is_actionable() && (c
            == Containment::Delegated <==> a is Delegated) && (prepared.mode is None <==> c
            == Containment::Uncontained) && (prepared.mode is None ==> a is Uncontained),
{
    match prepared.mode {
        None => Ok((Containment::Uncontained, Attached::Uncontained)),
        Some(mode) => {
            if !prepared.is_root {
                return Ok((Containment::Delegated, Attached::Delegated));
            }
            match mode {
                ContainMode::TreeWalk => match root_id {
                    Some(id) => Ok((Containment::TreeWalk, Attached::TreeWalk(id))),
                    None => Err(
                        Error::Containment {
                            detail: String::from_str(
                                "tree-walk root vanished before its identity could be read",
                            ),
                        },
                    ),
                },
                ContainMode::Session => Ok(
                    (Containment::Session, Attached::ProcessGroup(raw_pid as i32)),
                ),
                ContainMode::Strongest => match leaf {
                    Some((l, placed)) => {
                        if placed {
                            Ok((Containment::CgroupV2, Attached::Cgroup(l)))
                        } else {
                            Ok((Containment::ProcessGroup, Attached::ProcessGroup(raw_pid as i32)))
                        }
                    },
                    None => Ok((Containment::ProcessGroup, Attached::ProcessGroup(raw_pid as i32))),
                },
            }
        },
    }
}

/// The detail of the error for a tree operation on a child without a
/// teardown mechanism of its own.
pub open spec fn no_tree_detail() -> Seq<char> {
    "this child holds no actionable tree-teardown mechanism (uncontained, or a nested member of an ancestor's containment group). Use kill() for a lone process, or tear down the tree via the outermost .contain()ed handle."@
}

/// The guard of the tree operations (`kill_tree`, `terminate_tree`): they act
/// only through an actionable mechanism; an uncontained child or a nested
/// member gets `Unsupported`. `platform` names the host in the error.
pub fn require_contained<L>(attached: &Attached<L>, platform: &'static str) -> (r: Result<
    (),
    Error,
>)
    ensures
        attached.spec_is_actionable() ==> r is Ok,
        !attached.spec_is_actionable() ==> (r matches Err(
            Error::Unsupported { op, platform: p, detail },
        ) && op@ == "tree teardown (kill_tree / terminate_tree)"@ && p == platform && detail@
            == no_tree_detail()),
{
    if attached.is_actionable() {
        Ok(())
    } else {
        Err(
            Error::Unsupported {
                op: String::from_str("tree teardown (kill_tree / terminate_tree)"),
                platform,
                detail: String::from_str(
                    "this child holds no actionable tree-teardown mechanism (uncontained, or a nested member of an ancestor's containment group). Use kill() for a lone process, or tear down the tree via the outermost .contain()ed handle.",
                ),
            },
        )
    }
}

} // verus!
