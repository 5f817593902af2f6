//! Linux cgroup v2 file parsing: the unified-hierarchy path of the current
//! process (`/proc/self/cgroup`) and membership in a leaf's `cgroup.procs`.
//! The leaf itself (directory, `cgroup.kill`, placement) is operating-system
//! work done by the caller.

use vstd::prelude::*;
use vstd::string::StrSliceExecFns;

use crate::text::{
    chars_of, lines, lines_from, parse_i32, parse_u64, spec_parse_i32, spec_parse_uint, strip_cr, trim,
    trim_range,
};

verus! {

broadcast use vstd::string::group_string_axioms;

/// Whether `line` is the unified-hierarchy line: it starts with `0::`.
pub open spec fn is_v2_line(line: Seq<char>) -> bool {
    line.len() >= 3 && line[0] == '0' && line[1] == ':' && line[2] == ':'
}

/// The path of the first unified-hierarchy line of `ls`: what follows `0::`.
pub open spec fn first_v2_path(ls: Seq<Seq<char>>) -> Option<Seq<char>>
    decreases ls.len(),
{
    if ls.len() == 0 {
        None
    } else if is_v2_line(ls[0]) {
        Some(ls[0].skip(3))
    } else {
        first_v2_path(ls.skip(1))
    }
}

proof fn lemma_first_v2_path_cons(line: Seq<char>, rest: Seq<Seq<char>>)
    ensures
        first_v2_path(seq![line] + rest) == if is_v2_line(line) {
            Some(line.skip(3))
        } else {
            first_v2_path(rest)
        },
{
    let ls = seq![line] + rest;
    assert(ls[0] == line);
    assert(ls.skip(1) =~= rest);
}

/// Parse the `0::` (cgroup v2 unified hierarchy) line from the contents of
/// `/proc/self/cgroup`: the relative path of the first such line, or `None`
/// when there is none (a v1-only host, or empty contents).
pub fn parse_v2_relative_path(proc_self_cgroup: &str) -> (r: Option<&str>)
    ensures
        match r {
            Some(p) => first_v2_path(lines(proc_self_cgroup@)) == Some(p@),
            None => first_v2_path(lines(proc_self_cgroup@)) is None,
        },
{
    let ghost s = proc_self_cgroup@;
    let cs = chars_of(proc_self_cgroup);
    let n = cs.len();
    let mut start: usize = 0;
    let mut i: usize = 0;
    while i < n
        invariant
            start <= i <= n,
            n == s.len(),
            cs@ == s,
            s == proc_self_cgroup@,
            first_v2_path(lines(s)) == first_v2_path(lines_from(s, start as int, i as int)),
        decreases n - i,
    {
        if cs[i] == '\n' {
            let end: usize = if i > start && cs[i - 1] == '\r' {
                i - 1
            } else {
                i
            };
            let ghost line = s.subrange(start as int, i as int);
            proof {
                assert(lines_from(s, start as int, i as int) == seq![strip_cr(line)] + lines_from(
                    s,
                    i + 1,
                    i + 1,
                ));
                lemma_first_v2_path_cons(strip_cr(line), lines_from(s, i + 1, i + 1));
                assert(strip_cr(line) =~= s.subrange(start as int, end as int));
            }
            if end - start >= 3 && cs[start] == '0' && cs[start + 1] == ':' && cs[start + 2]
                == ':' {
                let p = proc_self_cgroup.substring_char(start + 3, end);
                assert(p@ =~= strip_cr(line).skip(3));
                return Some(p);
            }
            start = i + 1;
        }
        i += 1;
    }
    if start < n {
        let ghost line = s.subrange(start as int, n as int);
        proof {
            assert(lines_from(s, start as int, i as int) == seq![line]);
            assert(seq![line] =~= seq![line] + Seq::<Seq<char>>::empty());
            lemma_first_v2_path_cons(line, Seq::<Seq<char>>::empty());
        }
        if n - start >= 3 && cs[start] == '0' && cs[start + 1] == ':' && cs[start + 2] == ':' {
            let p = proc_self_cgroup.substring_char(start + 3, n);
            assert(p@ =~= line.skip(3));
            return Some(p);
        }
    }
    None
}

/// Whether a `cgroup.procs` line names `pid`: trimmed, it parses as a `u32`
/// equal to `pid`.
pub open spec fn line_names_pid(line: Seq<char>, pid: u32) -> bool {
    spec_parse_uint(trim(line), u32::MAX as nat) == Some(pid as nat)
}

/// Whether some line of `ls` names `pid`.
pub open spec fn some_line_names(ls: Seq<Seq<char>>, pid: u32) -> bool {
    exists|k: int| 0 <= k < ls.len() && line_names_pid(#[trigger] ls[k], pid)
}

proof fn lemma_some_line_names_cons(line: Seq<char>, rest: Seq<Seq<char>>, pid: u32)
    ensures
        some_line_names(seq![line] + rest, pid) == (line_names_pid(line, pid) || some_line_names(
            rest,
            pid,
        )),
{
    let ls = seq![line] + rest;
    if some_line_names(ls, pid) {
        let k = choose|k: int| 0 <= k < ls.len() && line_names_pid(#[trigger] ls[k], pid);
        if k > 0 {
            assert(ls[k] == rest[k - 1]);
        }
    }
    if line_names_pid(line, pid) {
        assert(ls[0] == line);
    }
    if some_line_names(rest, pid) {
        let k = choose|k: int| 0 <= k < rest.len() && line_names_pid(#[trigger] rest[k], pid);
        assert(ls[k + 1] == rest[k]);
    }
}

/// Whether the trimmed line `cs[lo..hi]` parses as a `u32` equal to `pid`.
fn range_names_pid(cs: &Vec<char>, lo: usize, hi: usize, pid: u32) -> (r: bool)
    requires
        lo <= hi <= cs.len(),
    ensures
        r == line_names_pid(cs@.subrange(lo as int, hi as int), pid),
{
    let (a, b) = trim_range(cs, lo, hi);
    let t = vstd::slice::slice_subrange(cs.as_slice(), a, b);
    assert(t@ =~= cs@.subrange(a as int, b as int));
    match parse_u64(t) {
        Some(v) => v == pid as u64,
        None => false,
    }
}

/// Whether `pid` appears in the contents of a `cgroup.procs` file: one pid per
/// line, surrounding whitespace ignored; a line that is not a `u32` is skipped.
pub fn cgroup_procs_contains(contents: &str, pid: u32) -> (r: bool)
    ensures
        r == some_line_names(lines(contents@), pid),
{
    let ghost s = contents@;
    let cs = chars_of(contents);
    let n = cs.len();
    let mut start: usize = 0;
    let mut i: usize = 0;
    while i < n
        invariant
            start <= i <= n,
            n == s.len(),
            cs@ == s,
            s == contents@,
            some_line_names(lines(s), pid) == some_line_names(
                lines_from(s, start as int, i as int),
                pid,
            ),
        decreases n - i,
    {
        if cs[i] == '\n' {
            let end: usize = if i > start && cs[i - 1] == '\r' {
                i - 1
            } else {
                i
            };
            let ghost line = s.subrange(start as int, i as int);
            proof {
                assert(lines_from(s, start as int, i as int) == seq![strip_cr(line)] + lines_from(
                    s,
                    i + 1,
                    i + 1,
                ));
                lemma_some_line_names_cons(strip_cr(line), lines_from(s, i + 1, i + 1), pid);
                assert(strip_cr(line) =~= cs@.subrange(start as int, end as int));
            }
            if range_names_pid(&cs, start, end, pid) {
                return true;
            }
            start = i + 1;
        }
        i += 1;
    }
    if start < n {
        let ghost line = s.subrange(start as int, n as int);
        proof {
            assert(lines_from(s, start as int, i as int) == seq![line]);
            assert(seq![line] =~= seq![line] + Seq::<Seq<char>>::empty());
            lemma_some_line_names_cons(line, Seq::<Seq<char>>::empty(), pid);
        }
        return range_names_pid(&cs, start, n, pid);
    }
    proof {
        assert(lines_from(s, start as int, i as int) =~= Seq::<Seq<char>>::empty());
    }
    false
}

/// The pids of the lines of `ls` that are, trimmed, an `i32`, in order.
pub open spec fn listed_pids(ls: Seq<Seq<char>>) -> Seq<i32>
    decreases ls.len(),
{
    if ls.len() == 0 {
        seq![]
    } else {
        let rest = listed_pids(ls.skip(1));
        match spec_parse_i32(trim(ls[0])) {
            Some(v) => seq![v as i32] + rest,
            None => rest,
        }
    }
}

proof fn lemma_listed_pids_cons(line: Seq<char>, rest: Seq<Seq<char>>)
    ensures
        listed_pids(seq![line] + rest) == match spec_parse_i32(trim(line)) {
            Some(v) => seq![v as i32] + listed_pids(rest),
            None => listed_pids(rest),
        },
{
    let ls = seq![line] + rest;
    assert(ls[0] == line);
    assert(ls.skip(1) =~= rest);
}

/// The pid on the trimmed line `cs[lo..hi]`, if it is an `i32`.
fn range_pid(cs: &Vec<char>, lo: usize, hi: usize) -> (r: Option<i32>)
    requires
        lo <= hi <= cs.len(),
    ensures
        match r {
            Some(v) => spec_parse_i32(trim(cs@.subrange(lo as int, hi as int))) == Some(v as int),
            None => spec_parse_i32(trim(cs@.subrange(lo as int, hi as int))) is None,
        },
{
    let (a, b) = trim_range(cs, lo, hi);
    let t = vstd::slice::slice_subrange(cs.as_slice(), a, b);
    assert(t@ =~= cs@.subrange(a as int, b as int));
    parse_i32(t)
}

/// The pids listed in the contents of a `cgroup.procs` file, in order: each
/// line, trimmed, that parses as an `i32` (other lines are skipped).
pub fn cgroup_procs_pids(contents: &str) -> (r: Vec<i32>)
    ensures
        r@ == listed_pids(lines(contents@)),
{
    let ghost s = contents@;
    let cs = chars_of(contents);
    let n = cs.len();
    let mut out: Vec<i32> = Vec::new();
    let mut start: usize = 0;
    let mut i: usize = 0;
    while i < n
        invariant
            start <= i <= n,
            n == s.len(),
            cs@ == s,
            s == contents@,
            listed_pids(lines(s)) == out@ + listed_pids(lines_from(s, start as int, i as int)),
        decreases n - i,
    {
        if cs[i] == '\n' {
            let end: usize = if i > start && cs[i - 1] == '\r' {
                i - 1
            } else {
                i
            };
            let ghost line = s.subrange(start as int, i as int);
            let ghost rest = lines_from(s, i + 1, i + 1);
            proof {
                assert(lines_from(s, start as int, i as int) == seq![strip_cr(line)] + rest);
                lemma_listed_pids_cons(strip_cr(line), rest);
                assert(strip_cr(line) =~= cs@.subrange(start as int, end as int));
            }
            match range_pid(&cs, start, end) {
                Some(v) => {
                    let ghost before = out@;
                    out.push(v);
                    assert(before + (seq![v] + listed_pids(rest)) =~= out@ + listed_pids(rest));
                },
                None => {},
            }
            start = i + 1;
        }
        i += 1;
    }
    if start < n {
        let ghost line = s.subrange(start as int, n as int);
        proof {
            assert(lines_from(s, start as int, i as int) == seq![line]);
            assert(seq![line] =~= seq![line] + Seq::<Seq<char>>::empty());
            lemma_listed_pids_cons(line, Seq::<Seq<char>>::empty());
            assert(listed_pids(Seq::<Seq<char>>::empty()) =~= Seq::<i32>::empty());
        }
        match range_pid(&cs, start, n) {
            Some(v) => {
                let ghost before = out@;
                out.push(v);
                assert(before + (seq![v] + Seq::<i32>::empty()) =~= out@);
            },
            None => {
                assert(out@ + Seq::<i32>::empty() =~= out@);
            },
        }
    } else {
        assert(lines_from(s, start as int, i as int) =~= Seq::<Seq<char>>::empty());
        assert(listed_pids(Seq::<Seq<char>>::empty()) =~= Seq::<i32>::empty());
        assert(out@ + Seq::<i32>::empty() =~= out@);
    }
    out
}

} // verus!
