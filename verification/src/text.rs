//! Text helpers shared by the parsers: characters of a string, Unicode
//! whitespace, whitespace-separated words, and decimal numbers.

use vstd::prelude::*;
use vstd::std_specs::iter::IteratorSpec;
use vstd::string::StringExecFns;
use vstd::string::StringSliceAdditionalSpecFns;
use vstd::utf8::{encode_scalar, valid_utf8};

verus! {

broadcast use vstd::string::group_string_axioms;

/// The characters of `s`, in order.
pub fn chars_of(s: &str) -> (r: Vec<char>)
    ensures
        r@ == s@,
{
    let mut it = s.chars();
    let mut out: Vec<char> = Vec::new();
    loop
        invariant
            out@ + it.remaining() == s@,
            it.obeys_prophetic_iter_laws(),
            it.decrease() is Some,
        decreases it.decrease()->0,
    {
        let ghost before = it.remaining();
        match it.next() {
            Some(c) => {
                out.push(c);
                assert(out@ + it.remaining() =~= s@);
            },
            None => {
                assert(out@ =~= s@);
                return out;
            },
        }
    }
}


/// Unicode `White_Space` (what `char::is_whitespace` tests).
pub open spec fn is_unicode_ws(c: char) -> bool {
    let u = c as u32;
    (0x09 <= u <= 0x0d) || u == 0x20 || u == 0x85 || u == 0xa0 || u == 0x1680 || (0x2000 <= u
        <= 0x200a) || u == 0x2028 || u == 0x2029 || u == 0x202f || u == 0x205f || u == 0x3000
}

/// Whether `c` is Unicode whitespace.
pub fn is_whitespace(c: char) -> (r: bool)
    ensures
        r == is_unicode_ws(c),
{
    let u = c as u32;
    (0x09 <= u && u <= 0x0d) || u == 0x20 || u == 0x85 || u == 0xa0 || u == 0x1680 || (0x2000
        <= u && u <= 0x200a) || u == 0x2028 || u == 0x2029 || u == 0x202f || u == 0x205f || u
        == 0x3000
}

/// The whitespace-separated words of `s[i..]`, when the word `cur` is already
/// in progress just before `i`.
pub open spec fn split_ws_from(s: Seq<char>, i: int, cur: Seq<char>) -> Seq<Seq<char>>
    decreases s.len() - i,
{
    if i < 0 || i >= s.len() {
        if cur.len() > 0 {
            seq![cur]
        } else {
            seq![]
        }
    } else if is_unicode_ws(s[i]) {
        (if cur.len() > 0 {
            seq![cur]
        } else {
            seq![]
        }) + split_ws_from(s, i + 1, seq![])
    } else {
        split_ws_from(s, i + 1, cur.push(s[i]))
    }
}

/// The maximal non-empty runs of non-whitespace characters of `s`, in order
/// (what `str::split_whitespace` yields).
pub open spec fn words(s: Seq<char>) -> Seq<Seq<char>> {
    split_ws_from(s, 0, seq![])
}

/// The `n`-th (0-based) whitespace-separated word of `s`, if there is one.
pub fn nth_word(s: &[char], n: usize) -> (r: Option<Vec<char>>)
    ensures
        match r {
            Some(w) => n < words(s@).len() && w@ == words(s@)[n as int] && w@.len() > 0,
            None => n >= words(s@).len(),
        },
{
    let mut cur: Vec<char> = Vec::new();
    let mut count = 0usize;
    let ghost mut seen: Seq<Seq<char>> = seq![];
    let mut i = 0usize;
    assert(cur@ =~= Seq::<char>::empty());
    while i < s.len()
        invariant
            i <= s.len(),
            count == seen.len(),
            count <= n,
            words(s@) == seen + split_ws_from(s@, i as int, cur@),
        decreases s.len() - i,
    {
        let c = s[i];
        if is_whitespace(c) {
            if cur.len() > 0 {
                proof {
                    assert(split_ws_from(s@, i as int, cur@) == seq![cur@] + split_ws_from(
                        s@,
                        i + 1,
                        seq![],
                    ));
                    assert((seen + (seq![cur@] + split_ws_from(s@, i + 1, seq![])))[count as int]
                        == cur@);
                }
                if count == n {
                    return Some(cur);
                }
                proof {
                    assert(seen + (seq![cur@] + split_ws_from(s@, i + 1, seq![])) =~= seen.push(
                        cur@,
                    ) + split_ws_from(s@, i + 1, seq![]));
                    seen = seen.push(cur@);
                }
                cur = Vec::new();
                count += 1;
            } else {
                proof {
                    assert(split_ws_from(s@, i as int, cur@) =~= split_ws_from(s@, i + 1, seq![]));
                }
            }
            assert(cur@ =~= Seq::<char>::empty());
        } else {
            cur.push(c);
        }
        i += 1;
    }
    if cur.len() > 0 {
        proof {
            assert(split_ws_from(s@, i as int, cur@) == seq![cur@]);
            assert((seen + seq![cur@])[count as int] == cur@);
        }
        if count == n {
            return Some(cur);
        }
    }
    None
}

pub open spec fn is_digit(c: char) -> bool {
    '0' <= c <= '9'
}

pub open spec fn digit_value(c: char) -> nat {
    ((c as u32) - ('0' as u32)) as nat
}

/// The value of a string of decimal digits.
pub open spec fn digits_value(d: Seq<char>) -> nat
    decreases d.len(),
{
    if d.len() == 0 {
        0
    } else {
        digits_value(d.drop_last()) * 10 + digit_value(d.last())
    }
}

/// The digits of an unsigned number: an optional leading `+` is dropped.
pub open spec fn unsigned_digits(s: Seq<char>) -> Seq<char> {
    if s.len() > 0 && s[0] == '+' {
        s.drop_first()
    } else {
        s
    }
}

/// What `str::parse` gives for an unsigned integer type whose largest value is
/// `max`: an optional `+`, then one or more decimal digits, in range.
pub open spec fn spec_parse_uint(s: Seq<char>, max: nat) -> Option<nat> {
    let d = unsigned_digits(s);
    if d.len() > 0 && (forall|i: int| 0 <= i < d.len() ==> is_digit(#[trigger] d[i]))
        && digits_value(d) <= max {
        Some(digits_value(d))
    } else {
        None
    }
}

proof fn lemma_digits_value_monotone(d: Seq<char>, k: int)
    requires
        0 <= k <= d.len(),
        forall|i: int| 0 <= i < d.len() ==> is_digit(#[trigger] d[i]),
    ensures
        digits_value(d.take(k)) <= digits_value(d),
    decreases d.len() - k,
{
    if k < d.len() {
        lemma_digits_value_monotone(d, k + 1);
        assert(d.take(k + 1).drop_last() =~= d.take(k));
    } else {
        assert(d.take(k) =~= d);
    }
}

/// Parse a decimal `u64` the way `str::parse::<u64>` does.
pub fn parse_u64(s: &[char]) -> (r: Option<u64>)
    ensures
        match r {
            Some(v) => spec_parse_uint(s@, u64::MAX as nat) == Some(v as nat),
            None => spec_parse_uint(s@, u64::MAX as nat) is None,
        },
{
    let start: usize = if s.len() > 0 && s[0] == '+' {
        1
    } else {
        0
    };
    let ghost d = unsigned_digits(s@);
    assert(d =~= s@.subrange(start as int, s.len() as int));
    if start >= s.len() {
        return None;
    }
    let mut acc: u64 = 0;
    let mut i = start;
    while i < s.len()
        invariant
            start <= i <= s.len(),
            d == s@.subrange(start as int, s.len() as int),
            d == unsigned_digits(s@),
            forall|j: int| 0 <= j < i - start ==> is_digit(#[trigger] d[j]),
            acc as nat == digits_value(d.take(i - start)),
        decreases s.len() - i,
    {
        let c = s[i];
        let ghost k = i - start;
        assert(d[k] == c);
        if !('0' <= c && c <= '9') {
            assert(!is_digit(d[k]));
            return None;
        }
        let dig = (c as u32 - '0' as u32) as u64;
        assert(d.take(k + 1).drop_last() =~= d.take(k));
        assert(d.take(k + 1).last() == c);
        assert(dig as nat == digit_value(c));
        assert(digits_value(d.take(k + 1)) == digits_value(d.take(k)) * 10 + digit_value(c));
        match acc.checked_mul(10) {
            Some(m) => match m.checked_add(dig) {
                Some(v) => {
                    acc = v;
                },
                None => {
                    proof {
                        if forall|j: int| 0 <= j < d.len() ==> is_digit(#[trigger] d[j]) {
                            lemma_digits_value_monotone(d, k + 1);
                        }
                    }
                    return None;
                },
            },
            None => {
                proof {
                    if forall|j: int| 0 <= j < d.len() ==> is_digit(#[trigger] d[j]) {
                        lemma_digits_value_monotone(d, k + 1);
                    }
                }
                return None;
            },
        }
        i += 1;
    }
    assert(d.take(s.len() - start) =~= d);
    Some(acc)
}


/// Every word is non-empty.
pub proof fn lemma_words_nonempty(s: Seq<char>, i: int, cur: Seq<char>)
    ensures
        forall|k: int|
            0 <= k < split_ws_from(s, i, cur).len() ==> (#[trigger] split_ws_from(s, i, cur)[k]).len()
                > 0,
    decreases s.len() - i,
{
    if i < 0 || i >= s.len() {
        if cur.len() > 0 {
            assert(split_ws_from(s, i, cur) == seq![cur]);
            assert(seq![cur][0] == cur);
        } else {
            assert(split_ws_from(s, i, cur) == Seq::<Seq<char>>::empty());
        }
    } else if is_unicode_ws(s[i]) {
        lemma_words_nonempty(s, i + 1, seq![]);
        let head: Seq<Seq<char>> = if cur.len() > 0 {
            seq![cur]
        } else {
            seq![]
        };
        let tail = split_ws_from(s, i + 1, seq![]);
        assert(split_ws_from(s, i, cur) == head + tail);
        assert forall|k: int| 0 <= k < (head + tail).len() implies (#[trigger] (head + tail)[k]).len()
            > 0 by {
            if k >= head.len() {
                assert((head + tail)[k] == tail[k - head.len()]);
            }
        }
    } else {
        lemma_words_nonempty(s, i + 1, cur.push(s[i]));
        assert(split_ws_from(s, i, cur) == split_ws_from(s, i + 1, cur.push(s[i])));
    }
}

/// The first byte of the UTF-8 encoding of `c`.
pub fn utf8_first_byte(c: char) -> (r: u8)
    ensures
        r == encode_scalar(c as u32)[0],
{
    let u = c as u32;
    if u <= 0x7f {
        (u & 0x7f) as u8
    } else if u <= 0x7ff {
        0xC0 | ((u >> 6) & 0x1F) as u8
    } else if u <= 0xffff {
        proof {
            vstd::utf8::char_is_scalar(c);
        }
        0xE0 | ((u >> 12) & 0x0F) as u8
    } else {
        0xF0 | ((u >> 18) & 0x7) as u8
    }
}

/// Wraps `std::str::from_utf8`, which accepts exactly the valid UTF-8 byte
/// strings and returns them, unchanged, as a string slice.
#[verifier::external_body]
pub(crate) fn str_from_utf8(b: &[u8]) -> (r: Option<&str>)
    ensures
        r is Some <==> valid_utf8(b@),
        r matches Some(s) ==> s.spec_bytes() == b@,
{
    std::str::from_utf8(b).ok()
}


/// The character of decimal digit `d` (0–9).
pub open spec fn digit_char(d: nat) -> char {
    (48 + d) as char
}

/// The decimal representation of `n` (no sign, no leading zeros).
pub open spec fn decimal(n: nat) -> Seq<char>
    decreases n,
{
    if n < 10 {
        seq![digit_char(n)]
    } else {
        decimal(n / 10).push(digit_char(n % 10))
    }
}

/// The decimal representation of a signed number (a leading `-` when negative).
pub open spec fn signed_decimal(n: int) -> Seq<char> {
    if n < 0 {
        seq!['-'] + decimal((-n) as nat)
    } else {
        decimal(n as nat)
    }
}

/// Wraps `String::push`, which appends one character to the string.
#[verifier::external_body]
fn string_push(s: &mut String, c: char)
    ensures
        final(s)@ == old(s)@.push(c),
{
    s.push(c);
}

/// Append the decimal digits of `n` to `s`.
pub fn push_decimal(s: &mut String, n: u64)
    ensures
        final(s)@ == old(s)@ + decimal(n as nat),
    decreases n,
{
    if n >= 10 {
        push_decimal(s, n / 10);
    }
    let d = (n % 10) as u32;
    let c = char_from_digit(d);
    string_push(s, c);
    proof {
        if n >= 10 {
            assert(decimal(n as nat) == decimal((n / 10) as nat).push(digit_char((n % 10) as nat)));
        }
    }
    assert(s@ =~= old(s)@ + decimal(n as nat));
}

/// The character of a decimal digit.
fn char_from_digit(d: u32) -> (c: char)
    requires
        d < 10,
    ensures
        c == digit_char(d as nat),
{
    match d {
        0 => '0',
        1 => '1',
        2 => '2',
        3 => '3',
        4 => '4',
        5 => '5',
        6 => '6',
        7 => '7',
        8 => '8',
        _ => '9',
    }
}

/// Append the decimal representation of a signed number to `s`.
pub fn push_signed_decimal(s: &mut String, n: i64)
    ensures
        final(s)@ == old(s)@ + signed_decimal(n as int),
{
    if n < 0 {
        string_push(s, '-');
        let m: u64 = if n == i64::MIN {
            9_223_372_036_854_775_808u64
        } else {
            (-n) as u64
        };
        push_decimal(s, m);
        assert(s@ =~= old(s)@ + signed_decimal(n as int));
    } else {
        push_decimal(s, n as u64);
    }
}

/// Append the characters of `t` to `s`.
pub fn push_str(s: &mut String, t: &str)
    ensures
        final(s)@ == old(s)@ + t@,
{
    s.append(t);
}

/// A line without its carriage return, when it ended in `\r\n`.
pub open spec fn strip_cr(line: Seq<char>) -> Seq<char> {
    if line.len() > 0 && line.last() == '\r' {
        line.drop_last()
    } else {
        line
    }
}

/// The lines of `s[start..]` as `str::lines` yields them, when the current
/// line began at `start` and the scan has reached `i`: split at `\n`, a `\r`
/// before a `\n` dropped, and no empty last line after a final `\n`.
pub open spec fn lines_from(s: Seq<char>, start: int, i: int) -> Seq<Seq<char>>
    decreases s.len() - i,
{
    if i >= s.len() {
        if start < s.len() {
            seq![s.subrange(start, s.len() as int)]
        } else {
            seq![]
        }
    } else if s[i] == '\n' {
        seq![strip_cr(s.subrange(start, i))] + lines_from(s, i + 1, i + 1)
    } else {
        lines_from(s, start, i + 1)
    }
}

/// The lines of `s`, as `str::lines` yields them.
pub open spec fn lines(s: Seq<char>) -> Seq<Seq<char>> {
    lines_from(s, 0, 0)
}

/// `line` without its leading Unicode whitespace.
pub open spec fn trim_start(line: Seq<char>) -> Seq<char>
    decreases line.len(),
{
    if line.len() > 0 && is_unicode_ws(line[0]) {
        trim_start(line.drop_first())
    } else {
        line
    }
}

/// `line` without its trailing Unicode whitespace.
pub open spec fn trim_end(line: Seq<char>) -> Seq<char>
    decreases line.len(),
{
    if line.len() > 0 && is_unicode_ws(line.last()) {
        trim_end(line.drop_last())
    } else {
        line
    }
}

/// `line` without leading and trailing Unicode whitespace (`str::trim`).
pub open spec fn trim(line: Seq<char>) -> Seq<char> {
    trim_end(trim_start(line))
}

/// The bounds of `cs[lo..hi]` without leading and trailing whitespace.
pub fn trim_range(cs: &Vec<char>, lo: usize, hi: usize) -> (r: (usize, usize))
    requires
        lo <= hi <= cs.len(),
    ensures
        lo <= r.0 <= r.1 <= hi,
        cs@.subrange(r.0 as int, r.1 as int) == trim(cs@.subrange(lo as int, hi as int)),
{
    let ghost x = cs@.subrange(lo as int, hi as int);
    let mut a = lo;
    while a < hi && is_whitespace(cs[a])
        invariant
            lo <= a <= hi <= cs.len(),
            x == cs@.subrange(lo as int, hi as int),
            trim_start(x) == trim_start(cs@.subrange(a as int, hi as int)),
        decreases hi - a,
    {
        assert(cs@.subrange(a as int, hi as int).drop_first() =~= cs@.subrange(
            a + 1,
            hi as int,
        ));
        a += 1;
    }
    assert(trim_start(cs@.subrange(a as int, hi as int)) == cs@.subrange(a as int, hi as int));
    let mut b = hi;
    while b > a && is_whitespace(cs[b - 1])
        invariant
            lo <= a <= b <= hi <= cs.len(),
            x == cs@.subrange(lo as int, hi as int),
            trim_start(x) == cs@.subrange(a as int, hi as int),
            trim(x) == trim_end(cs@.subrange(a as int, b as int)),
        decreases b - a,
    {
        assert(cs@.subrange(a as int, b as int).drop_last() =~= cs@.subrange(
            a as int,
            b - 1,
        ));
        b -= 1;
    }
    (a, b)
}

/// The remainder, after `prefix`, of the first line of `ls` that starts with
/// `prefix`.
pub open spec fn first_prefixed(ls: Seq<Seq<char>>, prefix: Seq<char>) -> Option<Seq<char>>
    decreases ls.len(),
{
    if ls.len() == 0 {
        None
    } else if ls[0].len() >= prefix.len() && ls[0].take(prefix.len() as int) == prefix {
        Some(ls[0].skip(prefix.len() as int))
    } else {
        first_prefixed(ls.skip(1), prefix)
    }
}

proof fn lemma_first_prefixed_cons(line: Seq<char>, rest: Seq<Seq<char>>, prefix: Seq<char>)
    ensures
        first_prefixed(seq![line] + rest, prefix) == if line.len() >= prefix.len() && line.take(
            prefix.len() as int,
        ) == prefix {
            Some(line.skip(prefix.len() as int))
        } else {
            first_prefixed(rest, prefix)
        },
{
    let ls = seq![line] + rest;
    assert(ls[0] == line);
    assert(ls.skip(1) =~= rest);
}

/// Whether `cs[lo..hi]` starts with `prefix`.
fn range_starts_with(cs: &Vec<char>, lo: usize, hi: usize, prefix: &[char]) -> (r: bool)
    requires
        lo <= hi <= cs.len(),
    ensures
        r == (hi - lo >= prefix@.len() && cs@.subrange(lo as int, hi as int).take(
            prefix@.len() as int,
        ) == prefix@),
{
    if hi - lo < prefix.len() {
        return false;
    }
    let mut k: usize = 0;
    while k < prefix.len()
        invariant
            k <= prefix.len(),
            lo + prefix.len() <= hi <= cs.len(),
            forall|m: int| 0 <= m < k ==> cs@[lo + m] == prefix@[m],
        decreases prefix.len() - k,
    {
        if cs[lo + k] != prefix[k] {
            assert(cs@.subrange(lo as int, hi as int).take(prefix@.len() as int)[k as int]
                != prefix@[k as int]);
            return false;
        }
        k += 1;
    }
    assert(cs@.subrange(lo as int, hi as int).take(prefix@.len() as int) =~= prefix@);
    true
}

/// The bounds of what follows `prefix` on the first line of `cs` that starts
/// with it (lines as `str::lines` yields them).
pub fn find_prefixed_line(cs: &Vec<char>, prefix: &[char]) -> (r: Option<(usize, usize)>)
    ensures
        match r {
            Some((a, b)) => a <= b <= cs.len() && first_prefixed(lines(cs@), prefix@) == Some(
                cs@.subrange(a as int, b as int),
            ),
            None => first_prefixed(lines(cs@), prefix@) is None,
        },
{
    let ghost s = cs@;
    let n = cs.len();
    let mut start: usize = 0;
    let mut i: usize = 0;
    while i < n
        invariant
            start <= i <= n,
            n == s.len(),
            cs@ == s,
            first_prefixed(lines(s), prefix@) == first_prefixed(
                lines_from(s, start as int, i as int),
                prefix@,
            ),
        decreases n - i,
    {
        if cs[i] == '\n' {
            let end: usize = if i > start && cs[i - 1] == '\r' {
                i - 1
            } else {
                i
            };
            let ghost line = s.subrange(start as int, i as int);
            proof {
                assert(lines_from(s, start as int, i as int) == seq![strip_cr(line)] + lines_from(
                    s,
                    i + 1,
                    i + 1,
                ));
                lemma_first_prefixed_cons(strip_cr(line), lines_from(s, i + 1, i + 1), prefix@);
                assert(strip_cr(line) =~= s.subrange(start as int, end as int));
            }
            if range_starts_with(cs, start, end, prefix) {
                assert(s.subrange(start as int, end as int).skip(prefix@.len() as int) =~= s.subrange(
                    start + prefix@.len(),
                    end as int,
                ));
                return Some((start + prefix.len(), end));
            }
            start = i + 1;
        }
        i += 1;
    }
    if start < n {
        let ghost line = s.subrange(start as int, n as int);
        proof {
            assert(lines_from(s, start as int, i as int) == seq![line]);
            assert(seq![line] =~= seq![line] + Seq::<Seq<char>>::empty());
            lemma_first_prefixed_cons(line, Seq::<Seq<char>>::empty(), prefix@);
        }
        if range_starts_with(cs, start, n, prefix) {
            assert(line.skip(prefix@.len() as int) =~= s.subrange(
                start + prefix@.len(),
                n as int,
            ));
            return Some((start + prefix.len(), n));
        }
    } else {
        assert(lines_from(s, start as int, i as int) =~= Seq::<Seq<char>>::empty());
    }
    None
}

/// What `str::parse::<i32>` gives: an optional sign, then one or more
/// decimal digits, in range.
pub open spec fn spec_parse_i32(s: Seq<char>) -> Option<int> {
    if s.len() > 0 && s[0] == '-' {
        let d = s.drop_first();
        if d.len() > 0 && (forall|i: int| 0 <= i < d.len() ==> is_digit(#[trigger] d[i]))
            && digits_value(d) <= 0x8000_0000 {
            Some(-(digits_value(d) as int))
        } else {
            None
        }
    } else {
        match spec_parse_uint(s, i32::MAX as nat) {
            Some(v) => Some(v as int),
            None => None,
        }
    }
}

/// Parse a decimal `i32` the way `str::parse::<i32>` does.
pub fn parse_i32(s: &[char]) -> (r: Option<i32>)
    ensures
        match r {
            Some(v) => spec_parse_i32(s@) == Some(v as int),
            None => spec_parse_i32(s@) is None,
        },
{
    if s.len() > 0 && s[0] == '-' {
        let d = vstd::slice::slice_subrange(s, 1, s.len());
        assert(d@ =~= s@.drop_first());
        if d.len() == 0 || d[0] == '+' {
            return None;
        }
        assert(unsigned_digits(d@) == d@);
        match parse_u64(d) {
            Some(v) => {
                if v <= 0x8000_0000 {
                    let neg: i64 = 0i64 - (v as i64);
                    Some(neg as i32)
                } else {
                    None
                }
            },
            None => None,
        }
    } else {
        match parse_u64(s) {
            Some(v) => {
                if v <= 0x7fff_ffff {
                    Some(v as i32)
                } else {
                    None
                }
            },
            None => None,
        }
    }
}

} // verus!
