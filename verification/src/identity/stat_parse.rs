//! Pure parsers for `/proc/<pid>/stat` fields.
//!
//! The comm field (field 2) is paren-wrapped and may contain spaces and ')', so
//! we anchor on the LAST ')': index 0 of the whitespace-split tail is field 3
//! (state); index 1 is field 4 (`ppid`); `starttime` is field 22 (index 19).

use vstd::prelude::*;
use vstd::utf8::{decode_utf8, encode_scalar, valid_utf8};

use crate::text::{
    chars_of, nth_word, parse_u64, spec_parse_uint, str_from_utf8, utf8_first_byte, words,
};

verus! {

pub const CLOSE_PAREN: u8 = 0x29;

/// The index of the last `)` among the first `k` bytes of `s`, or -1.
pub open spec fn last_close_paren(s: Seq<u8>, k: int) -> int
    decreases k,
{
    if k <= 0 {
        -1
    } else if s[k - 1] == CLOSE_PAREN {
        k - 1
    } else {
        last_close_paren(s, k - 1)
    }
}

/// The text after the comm field's last `)`, if there is a `)` and the rest is valid UTF-8.
pub open spec fn spec_tail(stat: Seq<u8>) -> Option<Seq<char>> {
    let c = last_close_paren(stat, stat.len() as int);
    if c < 0 {
        None
    } else {
        let rest = stat.subrange(c + 1, stat.len() as int);
        if valid_utf8(rest) {
            Some(decode_utf8(rest))
        } else {
            None
        }
    }
}

/// The `idx`-th whitespace-separated field after the comm field.
pub open spec fn stat_field(stat: Seq<u8>, idx: int) -> Option<Seq<char>> {
    match spec_tail(stat) {
        Some(t) => if 0 <= idx < words(t).len() {
            Some(words(t)[idx])
        } else {
            None
        },
        None => None,
    }
}

/// Field 22 (`starttime`), raw jiffies since boot.
pub open spec fn spec_starttime(stat: Seq<u8>) -> Option<nat> {
    match stat_field(stat, 19) {
        Some(w) => spec_parse_uint(w, u64::MAX as nat),
        None => None,
    }
}

/// Field 3 (process state): the first byte of the field.
pub open spec fn spec_state(stat: Seq<u8>) -> Option<u8> {
    match stat_field(stat, 0) {
        Some(w) => Some(encode_scalar(w[0] as u32)[0]),
        None => None,
    }
}

/// Field 4 (`ppid`), the parent pid.
pub open spec fn spec_ppid(stat: Seq<u8>) -> Option<nat> {
    match stat_field(stat, 1) {
        Some(w) => spec_parse_uint(w, u32::MAX as nat),
        None => None,
    }
}

/// Zombie (`Z`) and dead (`X`, `x`) states.
pub open spec fn is_exited_state(s: u8) -> bool {
    s == 0x5a || s == 0x58 || s == 0x78
}

/// Running: the start token matches (not a reused pid) and the process has not exited.
pub open spec fn spec_running(stat: Seq<u8>, start: u64) -> bool {
    &&& spec_starttime(stat) == Some(start as nat)
    &&& spec_state(stat) matches Some(s)
    &&& !is_exited_state(s)
}

/// The text after the comm field's last `)`.
pub fn tail(stat: &[u8]) -> (r: Option<&str>)
    ensures
        match r {
            Some(t) => spec_tail(stat@) == Some(t@),
            None => spec_tail(stat@) is None,
        },
{
    let mut k = stat.len();
    while k > 0 && stat[k - 1] != CLOSE_PAREN
        invariant
            k <= stat.len(),
            last_close_paren(stat@, k as int) == last_close_paren(stat@, stat.len() as int),
        decreases k,
    {
        k -= 1;
    }
    if k == 0 {
        return None;
    }
    let close = k - 1;
    let rest = vstd::slice::slice_subrange(stat, close + 1, stat.len());
    match str_from_utf8(rest) {
        Some(t) => {
            proof {
                vstd::utf8::encode_utf8_decode_utf8(t@);
            }
            Some(t)
        },
        None => None,
    }
}

/// The `idx`-th field after the comm field, as characters.
fn field(stat: &[u8], idx: usize) -> (r: Option<Vec<char>>)
    ensures
        match r {
            Some(w) => stat_field(stat@, idx as int) == Some(w@) && w@.len() > 0,
            None => stat_field(stat@, idx as int) is None,
        },
{
    let t = tail(stat)?;
    let cs = chars_of(t);
    nth_word(cs.as_slice(), idx)
}

/// Field 22 (`starttime`) as RAW jiffies since boot.
pub fn parse_starttime_jiffies(stat: &[u8]) -> (r: Option<u64>)
    ensures
        match r {
            Some(v) => spec_starttime(stat@) == Some(v as nat),
            None => spec_starttime(stat@) is None,
        },
{
    let w = field(stat, 19)?;
    parse_u64(w.as_slice())
}

/// Field 3 (process state) as its single state character, e.g. `b'R'`, `b'Z'`.
pub fn parse_state(stat: &[u8]) -> (r: Option<u8>)
    ensures
        r == spec_state(stat@),
{
    let w = field(stat, 0)?;
    Some(utf8_first_byte(w[0]))
}

/// Field 4 (`ppid`) — the parent pid.
pub fn parse_ppid(stat: &[u8]) -> (r: Option<u32>)
    ensures
        match r {
            Some(v) => spec_ppid(stat@) == Some(v as nat),
            None => spec_ppid(stat@) is None,
        },
{
    let w = field(stat, 1)?;
    match parse_u64(w.as_slice()) {
        Some(v) => if v <= 0xffff_ffff {
            Some(v as u32)
        } else {
            None
        },
        None => None,
    }
}

/// Decide whether a process is *running* from its raw `/proc/<pid>/stat`
/// bytes: the starttime token must match `start` (reject a reused pid) AND the
/// state must not be zombie ('Z') or dead ('X'/'x').
pub fn running_from_stat(stat: &[u8], start: u64) -> (r: bool)
    ensures
        r == spec_running(stat@, start),
        spec_starttime(stat@) != Some(start as nat) ==> !r,
        spec_starttime(stat@) == Some(start as nat) ==> (r <==> (spec_state(stat@) matches Some(
            s,
        ) && s != 0x5a && s != 0x58 && s != 0x78)),
{
    proof {
        lemma_running_unless_exited(stat@, start);
    }
    match parse_starttime_jiffies(stat) {
        Some(j) if j == start => {},
        _ => return false,
    }
    match parse_state(stat) {
        Some(s) => !(s == 0x5a || s == 0x58 || s == 0x78),
        None => false,
    }
}

/// A process whose start token matches is running exactly when its state byte
/// is not zombie (`Z`) or dead (`X`, `x`): running (`R`), sleeping (`S`, `D`),
/// stopped or traced (`T`, `t`) and every other state count as running. A
/// mismatched start token (a reused pid) is never running.
pub proof fn lemma_running_unless_exited(stat: Seq<u8>, start: u64)
    ensures
        spec_starttime(stat) != Some(start as nat) ==> !spec_running(stat, start),
        spec_starttime(stat) == Some(start as nat) ==> (spec_running(stat, start) <==> (spec_state(
            stat,
        ) matches Some(s) && s != 0x5a && s != 0x58 && s != 0x78)),
{
}

} // verus!
