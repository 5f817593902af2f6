//! Stable-across-time process identity.
//!
//! A bare PID is unsafe: the OS recycles PIDs, so the same number can name a
//! different process minutes later. [`ProcessId`] pairs the PID with a raw
//! kernel *start token* — a per-process value fixed at creation — so equality
//! distinguishes "the same process" from "a reused PID".

pub mod stat_parse;

use vstd::prelude::*;

use self::stat_parse::{
    parse_starttime_jiffies, running_from_stat, spec_running, spec_starttime, spec_state,
};
use crate::text::{
    chars_of, find_prefixed_line, first_prefixed, lines, parse_u64, spec_parse_uint, trim, trim_range,
};

verus! {

/// A process identifier as the OS knows it (matches `std::process::id`).
pub type RawPid = u32;

/// A raw, per-process kernel start value (Linux `/proc` `starttime` jiffies).
/// Opaque: its only meaning is identity (exact equality).
#[derive(Debug, Clone, Copy, PartialEq, Eq, Hash, Structural)]
struct StartToken(u64);

impl StartToken {
    fn from_raw(v: u64) -> (r: StartToken)
        ensures
            r.0 == v,
    {
        StartToken(v)
    }

    fn raw(self) -> (r: u64)
        ensures
            r == self.0,
    {
        self.0
    }
}

/// A process identity that stays unique across time: `(pid, start_token)`.
/// `Eq`/`Hash` are over the pair, so a recycled PID never compares equal to
/// the earlier process.
#[derive(Debug, Clone, Copy, PartialEq, Eq, Hash, Structural)]
pub struct ProcessId {
    pid: RawPid,
    start: StartToken,
}

impl View for ProcessId {
    type V = (RawPid, u64);

    closed spec fn view(&self) -> (RawPid, u64) {
        (self.pid, self.start.0)
    }
}

/// Two identities are the same exactly when their `(pid, start token)` pairs are.
pub broadcast proof fn lemma_process_id_eq(a: ProcessId, b: ProcessId)
    ensures
        #![trigger a@, b@]
        (a == b) <==> (a@ == b@),
{
}

impl ProcessId {
    /// The raw OS process id. NOTE: a bare PID is not unique across time — use
    /// the whole `ProcessId` for identity, comparison, and map keys.
    pub fn pid(&self) -> (r: RawPid)
        ensures
            r == self@.0,
    {
        self.pid
    }

    /// The raw start token, for ordering identities by creation time (the
    /// tree walk keeps only descendants created at-or-after the root).
    pub fn start_token_raw(&self) -> (r: u64)
        ensures
            r == self@.1,
    {
        self.start.raw()
    }

    /// An identity from raw parts (for synthetic identities in tests).
    pub fn from_parts_for_test(pid: RawPid, token: u64) -> (r: ProcessId)
        ensures
            r@ == (pid, token),
    {
        ProcessId { pid, start: StartToken::from_raw(token) }
    }

    /// The identity of `pid` given the current contents of `/proc/<pid>/stat`,
    /// or `None` if the start time cannot be read from them.
    pub fn of(pid: RawPid, stat: &[u8]) -> (r: Option<ProcessId>)
        ensures
            match r {
                Some(id) => id@.0 == pid && spec_starttime(stat@) == Some(id@.1 as nat),
                None => spec_starttime(stat@) is None,
            },
    {
        let start = parse_starttime_jiffies(stat)?;
        Some(ProcessId { pid, start: StartToken::from_raw(start) })
    }

    /// Whether a process with this exact identity is still *resolvable* (the
    /// zombie-inclusive sense), given the current contents of
    /// `/proc/<pid>/stat` (`None` when the file could not be read).
    pub fn is_resolvable(&self, stat: Option<&[u8]>) -> (r: bool)
        ensures
            r == (stat matches Some(st) && spec_starttime(st@) == Some(self@.1 as nat)),
    {
        match stat {
            Some(st) => match parse_starttime_jiffies(st) {
                Some(j) => j == self.start.raw(),
                None => false,
            },
            None => false,
        }
    }

    /// Whether the process is currently *running* (has not exited), given the
    /// current contents of `/proc/<pid>/stat` (`None` when unreadable, i.e.
    /// the process is gone). A reused PID (different start token) is never alive.
    pub fn is_alive(&self, stat: Option<&[u8]>) -> (r: bool)
        ensures
            r == (stat matches Some(st) && spec_running(st@, self@.1)),
            stat matches Some(st) ==> (spec_starttime(st@) == Some(self@.1 as nat) ==> (r <==> (
            spec_state(st@) matches Some(s) && s != 0x5a && s != 0x58 && s != 0x78))),
    {
        match stat {
            Some(st) => running_from_stat(st, self.start.raw()),
            None => false,
        }
    }

    /// Best-effort wall-clock creation time as `(seconds, nanoseconds)` since
    /// the Unix epoch, from the clock-tick rate (`sysconf(_SC_CLK_TCK)`) and the
    /// boot time in seconds (`/proc/stat` `btime`). `None` when the rate is
    /// not positive or the boot time is unknown. Never used for identity.
    pub fn created_at(&self, clock_ticks: i64, boot_time: Option<u64>) -> (r: Option<(u64, u32)>)
        requires
            clock_ticks > 0 && boot_time is Some ==> boot_time->0 + (self@.1 as int) / (
            clock_ticks as int) <= u64::MAX && ((self@.1 as int) % (clock_ticks as int))
                * 1_000_000_000 <= u64::MAX,
        ensures
            r == if clock_ticks > 0 && boot_time is Some {
                let hz = clock_ticks as int;
                Some(
                    (
                        (boot_time->0 + (self@.1 as int) / hz) as u64,
                        (((self@.1 as int) % hz) * 1_000_000_000 / hz) as u32,
                    ),
                )
            } else {
                None::<(u64, u32)>
            },
    {
        if clock_ticks <= 0 {
            return None;
        }
        let hz = clock_ticks as u64;
        let btime = match boot_time {
            Some(b) => b,
            None => return None,
        };
        let jiffies = self.start.raw();
        let secs = btime + jiffies / hz;
        let rem = jiffies % hz;
        let nanos_wide = rem * 1_000_000_000 / hz;
        proof {
            assert(rem < hz);
            assert((rem as int) * 1_000_000_000 / (hz as int) < 1_000_000_000) by (nonlinear_arith)
                requires
                    rem < hz,
                    hz > 0,
            ;
        }
        Some((secs, nanos_wide as u32))
    }
}

/// The prefix of the boot-time line of `/proc/stat`.
pub open spec fn btime_prefix() -> Seq<char> {
    seq!['b', 't', 'i', 'm', 'e', ' ']
}

/// The boot time in seconds that `/proc/stat` holds: the first line that
/// starts with `btime `, its remainder trimmed and read as a `u64`.
pub open spec fn spec_boot_time(contents: Seq<char>) -> Option<nat> {
    match first_prefixed(lines(contents), btime_prefix()) {
        Some(rest) => spec_parse_uint(trim(rest), u64::MAX as nat),
        None => None,
    }
}

/// The boot time (seconds since the Unix epoch) from the contents of
/// `/proc/stat`, or `None` when its `btime` line is missing or malformed.
pub fn boot_time_from_proc_stat(contents: &str) -> (r: Option<u64>)
    ensures
        match r {
            Some(v) => spec_boot_time(contents@) == Some(v as nat),
            None => spec_boot_time(contents@) is None,
        },
{
    let cs = chars_of(contents);
    let prefix: [char; 6] = ['b', 't', 'i', 'm', 'e', ' '];
    assert(prefix@ =~= btime_prefix());
    match find_prefixed_line(&cs, &prefix) {
        Some((a, b)) => {
            let (lo, hi) = trim_range(&cs, a, b);
            let t = vstd::slice::slice_subrange(cs.as_slice(), lo, hi);
            assert(t@ =~= cs@.subrange(lo as int, hi as int));
            parse_u64(t)
        },
        None => None,
    }
}

/// The pid a `/proc` directory entry names, if its name is a decimal `u32`.
pub fn parse_pid_name(name: &str) -> (r: Option<RawPid>)
    ensures
        match r {
            Some(p) => spec_parse_uint(name@, u32::MAX as nat) == Some(p as nat),
            None => spec_parse_uint(name@, u32::MAX as nat) is None,
        },
{
    let cs = chars_of(name);
    match parse_u64(cs.as_slice()) {
        Some(v) => {
            if v <= u32::MAX as u64 {
                Some(v as u32)
            } else {
                None
            }
        },
        None => None,
    }
}

} // verus!
