//! The `Fd` (descriptor address) model and pipe-direction resolution.

use vstd::prelude::*;
use vstd::string::StringExecFns;

use crate::error::Error;
use crate::text::{push_str, push_signed_decimal, signed_decimal};

verus! {

/// A target descriptor. `i32` matches POSIX fd numbering; on Windows 0/1/2 are
/// the std handles and n>=3 is the MSVCRT fd-table slot.
#[derive(Debug, Clone, Copy, PartialEq, Eq, PartialOrd, Ord, Hash, Structural)]
pub struct Fd(i32);

/// Two descriptors are the same exactly when their numbers are.
pub broadcast proof fn lemma_fd_eq(a: Fd, b: Fd)
    ensures
        #![trigger a@, b@]
        (a == b) <==> (a@ == b@),
{
}

impl View for Fd {
    type V = i32;

    closed spec fn view(&self) -> i32 {
        self.0
    }
}

impl Fd {
    /// Descriptor 0.
    pub fn stdin() -> (r: Fd)
        ensures
            r@ == 0,
    {
        Fd(0)
    }

    /// Descriptor 1.
    pub fn stdout() -> (r: Fd)
        ensures
            r@ == 1,
    {
        Fd(1)
    }

    /// Descriptor 2.
    pub fn stderr() -> (r: Fd)
        ensures
            r@ == 2,
    {
        Fd(2)
    }

    pub fn raw(self) -> (r: i32)
        ensures
            r == self@,
    {
        self.0
    }

    /// The display form: `stdin`, `stdout`, `stderr`, or `fd N`.
    pub open spec fn text(self) -> Seq<char> {
        if self@ == 0 {
            "stdin"@
        } else if self@ == 1 {
            "stdout"@
        } else if self@ == 2 {
            "stderr"@
        } else {
            "fd "@ + signed_decimal(self@ as int)
        }
    }

    /// The display form: `stdin`, `stdout`, `stderr`, or `fd N`.
    pub fn name(&self) -> (r: String)
        ensures
            r@ == self.text(),
    {
        match self.0 {
            0 => String::from_str("stdin"),
            1 => String::from_str("stdout"),
            2 => String::from_str("stderr"),
            n => {
                let mut s = String::from_str("fd ");
                push_signed_decimal(&mut s, n as i64);
                s
            },
        }
    }
}

impl From<i32> for Fd {
    fn from(n: i32) -> (r: Fd) {
        Fd(n)
    }
}

impl vstd::std_specs::convert::FromSpecImpl<i32> for Fd {
    open spec fn obeys_from_spec() -> bool {
        true
    }

    closed spec fn from_spec(n: i32) -> Fd {
        Fd(n)
    }
}

/// A descriptor made from a number is that number.
pub broadcast proof fn lemma_fd_from(n: i32)
    ensures
        (#[trigger] <Fd as vstd::std_specs::convert::FromSpec<i32>>::from_spec(n))@ == n,
{
}

/// Which way a pipe flows relative to the child.
#[derive(Debug, Clone, Copy, PartialEq, Eq, Structural)]
pub enum Direction {
    /// Child reads (parent holds the write end).
    In,
    /// Child writes (parent holds the read end).
    Out,
}

/// The direction of a pipe on `slot`: an explicit direction passes through;
/// otherwise stdin is child-reads and stdout/stderr are child-writes. `None`
/// when the direction is ambiguous (a bare pipe on a descriptor >= 3).
pub open spec fn spec_pipe_direction(explicit: Option<Direction>, slot: Fd) -> Option<Direction> {
    match explicit {
        Some(d) => Some(d),
        None => if slot@ == 0 {
            Some(Direction::In)
        } else if slot@ == 1 || slot@ == 2 {
            Some(Direction::Out)
        } else {
            None
        },
    }
}

/// Resolve a pipe's direction for `slot` (see [`spec_pipe_direction`]).
pub fn pipe_direction(explicit: Option<Direction>, slot: Fd) -> (r: Option<Direction>)
    ensures
        r == spec_pipe_direction(explicit, slot),
{
    match explicit {
        Some(d) => Some(d),
        None => match slot.0 {
            0 => Some(Direction::In),
            1 | 2 => Some(Direction::Out),
            _ => None,
        },
    }
}

/// Resolve a pipe on `slot` to a direction, or the error for an ambiguous
/// one: a bare pipe on a descriptor >= 3 has no default direction.
/// `platform` names the host in the error.
pub fn resolve_pipe(explicit: Option<Direction>, slot: Fd, platform: &'static str) -> (r: Result<
    Direction,
    Error,
>)
    ensures
        match spec_pipe_direction(explicit, slot) {
            Some(d) => r == Ok::<Direction, Error>(d),
            None => r matches Err(Error::Unsupported { op, platform: p, detail }) && op@
                == "ambiguous pipe direction on "@ + slot.text() && p == platform && detail@
                == "use Stdio::pipe_in()/pipe_out() for descriptors >= 3"@,
        },
{
    match pipe_direction(explicit, slot) {
        Some(d) => Ok(d),
        None => {
            let mut op = String::from_str("ambiguous pipe direction on ");
            let n = slot.name();
            push_str(&mut op, n.as_str());
            Err(
                Error::Unsupported {
                    op,
                    platform,
                    detail: String::from_str("use Stdio::pipe_in()/pipe_out() for descriptors >= 3"),
                },
            )
        },
    }
}

/// What a descriptor is wired to, by kind.
#[derive(Debug, Clone, Copy, PartialEq, Eq, Structural)]
pub enum TargetKind {
    Inherit,
    Null,
    File,
    Pipe,
    Merge,
}

/// Whether a spawn can wire `slot` to a target of kind `kind`: the standard
/// descriptors take any target; a descriptor >= 3 takes a pipe, the null
/// device or a file, but has no parent stream to inherit and cannot be a
/// merge; a negative number names no descriptor of the child, so it is not
/// refused (the spawn leaves it out). `platform` names the host in the error.
pub fn check_slot(slot: Fd, kind: TargetKind, platform: &'static str) -> (r: Result<(), Error>)
    ensures
        slot@ <= 2 ==> r is Ok,
        slot@ >= 3 && (kind == TargetKind::Null || kind == TargetKind::File || kind
            == TargetKind::Pipe) ==> r is Ok,
        slot@ >= 3 && kind == TargetKind::Inherit ==> (r matches Err(
            Error::Unsupported { op, platform: p, detail },
        ) && op@ == "inherit on "@ + slot.text() && p == platform && detail@
            == "there is no parent stream to pass through for descriptors >= 3"@),
        slot@ >= 3 && kind == TargetKind::Merge ==> (r matches Err(
            Error::Unsupported { op, platform: p, detail },
        ) && op@ == "merge onto "@ + slot.text() && p == platform && detail@
            == "merging onto descriptors >= 3 is not supported"@),
{
    if slot.0 <= 2 {
        return Ok(());
    }
    match kind {
        TargetKind::Inherit => {
            let mut op = String::from_str("inherit on ");
            let n = slot.name();
            push_str(&mut op, n.as_str());
            Err(
                Error::Unsupported {
                    op,
                    platform,
                    detail: String::from_str(
                        "there is no parent stream to pass through for descriptors >= 3",
                    ),
                },
            )
        },
        TargetKind::Merge => {
            let mut op = String::from_str("merge onto ");
            let n = slot.name();
            push_str(&mut op, n.as_str());
            Err(
                Error::Unsupported {
                    op,
                    platform,
                    detail: String::from_str("merging onto descriptors >= 3 is not supported"),
                },
            )
        },
        _ => Ok(()),
    }
}

/// How a standard slot is wired, as far as merging goes: its own target
/// (inherited, null, a file or a pipe — an unset slot inherits), or a copy of
/// another descriptor's target.
#[derive(Debug, Clone, Copy, PartialEq, Eq, Structural)]
pub enum SlotWiring {
    Direct,
    MergeInto(Fd),
}

/// The name of standard slot `s`.
pub open spec fn std_slot_text(s: int) -> Seq<char> {
    if s == 0 {
        "stdin"@
    } else if s == 1 {
        "stdout"@
    } else {
        "stderr"@
    }
}

/// Whether the merge on standard slot `s` finds its target: slots are wired
/// directly first, then merges in slot order, so the target must be a
/// standard slot that is either direct or an earlier merge that worked.
pub open spec fn merge_resolves(w: Seq<SlotWiring>, s: int) -> bool
    decreases s,
{
    match w[s] {
        SlotWiring::Direct => true,
        SlotWiring::MergeInto(t) => 0 <= t@ <= 2 && (w[t@ as int] == SlotWiring::Direct || (t@
            < s && s > 0 && merge_resolves(w, t@ as int))),
    }
}

/// The first standard slot (from `s` on) whose merge does not resolve.
pub open spec fn first_unresolved(w: Seq<SlotWiring>, s: int) -> Option<int>
    decreases 3 - s,
{
    if s >= 3 || s < 0 {
        None
    } else if !merge_resolves(w, s) {
        Some(s)
    } else {
        first_unresolved(w, s + 1)
    }
}

/// Check the merges of the three standard slots (`wiring[k]` is slot `k`):
/// `Ok` when every merge finds its target; otherwise the error for the first
/// slot whose merge does not. `platform` names the host in the error.
pub fn check_merges(wiring: &[SlotWiring; 3], platform: &'static str) -> (r: Result<(), Error>)
    ensures
        match first_unresolved(wiring@, 0) {
            None => r is Ok,
            Some(s) => (r matches Err(Error::Unsupported { op, platform: p, detail }) && p
                == platform && detail@ == "merge target descriptor is not configured"@ && (
            wiring@[s] matches SlotWiring::MergeInto(t) && op@ == "merge "@ + std_slot_text(s)
                + " -> "@ + t.text())),
        },
{
    let mut ok: [bool; 3] = [false, false, false];
    let mut s: usize = 0;
    while s < 3
        invariant
            s <= 3,
            forall|k: int| 0 <= k < s ==> ok@[k] == merge_resolves(wiring@, k),
            forall|k: int| 0 <= k < s ==> merge_resolves(wiring@, k),
            first_unresolved(wiring@, 0) == first_unresolved(wiring@, s as int),
        decreases 3 - s,
    {
        let good = match wiring[s] {
            SlotWiring::Direct => true,
            SlotWiring::MergeInto(t) => {
                if 0 <= t.0 && t.0 <= 2 {
                    let ti = t.0 as usize;
                    match wiring[ti] {
                        SlotWiring::Direct => true,
                        SlotWiring::MergeInto(_) => ti < s && ok[ti],
                    }
                } else {
                    false
                }
            },
        };
        assert(good == merge_resolves(wiring@, s as int));
        if !good {
            let slot = Fd(s as i32);
            let t = match wiring[s] {
                SlotWiring::MergeInto(t) => t,
                SlotWiring::Direct => slot,
            };
            let mut op = String::from_str("merge ");
            let a = slot.name();
            assert(slot@ == s as i32);
            assert(slot.text() == std_slot_text(s as int));
            push_str(&mut op, a.as_str());
            push_str(&mut op, " -> ");
            let b = t.name();
            push_str(&mut op, b.as_str());
            return Err(
                Error::Unsupported {
                    op,
                    platform,
                    detail: String::from_str("merge target descriptor is not configured"),
                },
            );
        }
        ok[s] = true;
        s += 1;
    }
    Ok(())
}

} // verus!
