//! Windows `CommandLineToArgvW`-compatible command-line construction.
//!
//! Operates on UTF-16 code units so the algorithm is host-independent. It
//! builds the command-line string for PE images launched via `CreateProcess`,
//! implementing the MSVCRT quoting rules that `CommandLineToArgvW` reverses. It
//! does NOT handle `cmd.exe` metacharacter escaping (`.bat`/`.cmd` invocation
//! needs a separate escaping layer).

use vstd::prelude::*;

verus! {

pub const SPACE: u16 = 0x20;
pub const TAB: u16 = 0x09;
pub const QUOTE: u16 = 0x22;
pub const BACKSLASH: u16 = 0x5c;

pub open spec fn is_blank(c: u16) -> bool {
    c == SPACE || c == TAB
}

/// An argument is quoted when it is empty or holds a space or a tab.
pub open spec fn spec_needs_quotes(arg: Seq<u16>) -> bool {
    arg.len() == 0 || exists|i: int| 0 <= i < arg.len() && is_blank(#[trigger] arg[i])
}

/// The number of backslashes that `p` ends with.
pub open spec fn trailing_backslashes(p: Seq<u16>) -> nat
    decreases p.len(),
{
    if p.len() > 0 && p.last() == BACKSLASH {
        trailing_backslashes(p.drop_last()) + 1
    } else {
        0
    }
}

/// `n` backslashes.
pub open spec fn backslashes(n: nat) -> Seq<u16> {
    Seq::new(n, |i: int| BACKSLASH)
}

/// How the code unit `c` is written after the argument prefix `p`: a quote is
/// preceded by one more backslash than the run already written before it (so
/// the run doubles and the quote is escaped); anything else is written as is.
pub open spec fn wide_piece(p: Seq<u16>, c: u16) -> Seq<u16> {
    if c == QUOTE {
        backslashes(trailing_backslashes(p) + 1) + seq![QUOTE]
    } else {
        seq![c]
    }
}

/// The argument's code units with every quote escaped.
pub open spec fn wide_body(arg: Seq<u16>) -> Seq<u16>
    decreases arg.len(),
{
    if arg.len() == 0 {
        seq![]
    } else {
        wide_body(arg.drop_last()) + wide_piece(arg.drop_last(), arg.last())
    }
}

/// How one argument is written on the command line: its escaped body, wrapped
/// in quotes (with the trailing backslash run doubled) when it needs them.
pub open spec fn spec_wide_arg(arg: Seq<u16>) -> Seq<u16> {
    if spec_needs_quotes(arg) {
        seq![QUOTE] + wide_body(arg) + backslashes(trailing_backslashes(arg)) + seq![QUOTE]
    } else {
        wide_body(arg)
    }
}

/// The written arguments separated by single spaces.
pub open spec fn spec_join_wide(args: Seq<Seq<u16>>) -> Seq<u16>
    decreases args.len(),
{
    if args.len() == 0 {
        seq![]
    } else if args.len() == 1 {
        spec_wide_arg(args[0])
    } else {
        spec_join_wide(args.drop_last()) + seq![SPACE] + spec_wide_arg(args.last())
    }
}

fn needs_quotes(arg: &[u16]) -> (r: bool)
    ensures
        r == spec_needs_quotes(arg@),
{
    if arg.len() == 0 {
        return true;
    }
    let mut i = 0usize;
    while i < arg.len()
        invariant
            i <= arg.len(),
            forall|j: int| 0 <= j < i ==> !is_blank(#[trigger] arg@[j]),
        decreases arg.len() - i,
    {
        if arg[i] == SPACE || arg[i] == TAB {
            return true;
        }
        i += 1;
    }
    false
}

/// Join argv into a single command-line string per the MSVCRT rules that
/// `CommandLineToArgvW` reverses. Intended for argv[1..]; the program name
/// (argv[0]) is passed separately as `lpApplicationName`.
pub fn join_wide(args: &[&[u16]]) -> (r: Vec<u16>)
    ensures
        r@ == spec_join_wide(args.deep_view()),
{
    let mut cmd: Vec<u16> = Vec::new();
    let mut idx = 0usize;
    while idx < args.len()
        invariant
            idx <= args.len(),
            cmd@ == spec_join_wide(args.deep_view().take(idx as int)),
        decreases args.len() - idx,
    {
        let arg: &[u16] = args[idx];
        proof {
            assert(arg.deep_view() =~= arg@);
            let pre = args.deep_view().take(idx as int);
            let next = args.deep_view().take(idx + 1);
            assert(next.drop_last() =~= pre);
            assert(next.last() == arg@);
        }
        if idx > 0 {
            cmd.push(SPACE);
        }
        append_arg(&mut cmd, arg);
        idx += 1;
    }
    assert(args.deep_view().take(args.len() as int) =~= args.deep_view());
    cmd
}

/// Push `n` backslashes.
fn push_backslashes(cmd: &mut Vec<u16>, n: usize)
    ensures
        final(cmd)@ == old(cmd)@ + backslashes(n as nat),
{
    let mut k = 0usize;
    while k < n
        invariant
            k <= n,
            cmd@ == old(cmd)@ + backslashes(k as nat),
        decreases n - k,
    {
        cmd.push(BACKSLASH);
        k += 1;
        assert(cmd@ =~= old(cmd)@ + backslashes(k as nat));
    }
}

fn append_arg(cmd: &mut Vec<u16>, arg: &[u16])
    ensures
        final(cmd)@ == old(cmd)@ + spec_wide_arg(arg@),
{
    let quote = needs_quotes(arg);
    if quote {
        cmd.push(QUOTE);
    }
    let ghost start = cmd@;
    let mut backslashes: usize = 0;
    let mut i = 0usize;
    while i < arg.len()
        invariant
            i <= arg.len(),
            backslashes == trailing_backslashes(arg@.take(i as int)),
            backslashes <= i,
            cmd@ == start + wide_body(arg@.take(i as int)),
        decreases arg.len() - i,
    {
        let x = arg[i];
        let ghost pre = arg@.take(i as int);
        proof {
            assert(arg@.take(i + 1).drop_last() =~= pre);
            assert(arg@.take(i + 1).last() == x);
        }
        if x == BACKSLASH {
            backslashes += 1;
        } else {
            if x == QUOTE {
                // Already emitted `backslashes` backslashes; add `backslashes + 1`
                // more so a literal quote is preceded by 2n+1 backslashes.
                push_backslashes(cmd, backslashes + 1);
            }
            backslashes = 0;
        }
        cmd.push(x);
        i += 1;
        assert(cmd@ =~= start + wide_body(arg@.take(i as int)));
    }
    assert(arg@.take(arg.len() as int) =~= arg@);
    if quote {
        // Double the trailing backslash run before the closing quote (2n).
        push_backslashes(cmd, backslashes);
        cmd.push(QUOTE);
    }
    assert(cmd@ =~= old(cmd)@ + spec_wide_arg(arg@));
}


/// The first index at or after `i` that is not a space or tab (or the length).
pub open spec fn skip_blanks(s: Seq<u16>, i: int) -> int
    decreases s.len() - i,
{
    if i < s.len() && is_blank(s[i]) {
        skip_blanks(s, i + 1)
    } else {
        i
    }
}

/// The first index at or after `i` holding a quote (or the length).
pub open spec fn next_quote(s: Seq<u16>, i: int) -> int
    decreases s.len() - i,
{
    if i < s.len() && s[i] != QUOTE {
        next_quote(s, i + 1)
    } else {
        i
    }
}

/// The first index at or after `i` holding a space or tab (or the length).
pub open spec fn next_blank(s: Seq<u16>, i: int) -> int
    decreases s.len() - i,
{
    if i < s.len() && !is_blank(s[i]) {
        next_blank(s, i + 1)
    } else {
        i
    }
}

/// Where the program token of `cmd` starts and ends, and where scanning resumes
/// after it: a leading `"` runs to the next `"` (or the end), anything else to
/// the next space or tab. `None` for empty or blank-only input.
pub open spec fn token_span(cmd: Seq<u16>) -> Option<(int, int, int)> {
    let i = skip_blanks(cmd, 0);
    if i >= cmd.len() {
        None
    } else if cmd[i] == QUOTE {
        let e = next_quote(cmd, i + 1);
        Some((i + 1, e, if e < cmd.len() { e + 1 } else { e }))
    } else {
        let e = next_blank(cmd, i);
        Some((i, e, e))
    }
}

/// The program token of a command line (leading blanks skipped; backslashes literal).
pub open spec fn spec_first_token(cmd: Seq<u16>) -> Option<Seq<u16>> {
    match token_span(cmd) {
        Some((b, e, _)) => Some(cmd.subrange(b, e)),
        None => None,
    }
}

/// The program token and the rest of the line after it, with the blanks that
/// separate them removed.
pub open spec fn spec_first_token_and_rest(cmd: Seq<u16>) -> Option<(Seq<u16>, Seq<u16>)> {
    match token_span(cmd) {
        Some((b, e, after)) => Some(
            (cmd.subrange(b, e), cmd.subrange(skip_blanks(cmd, after), cmd.len() as int)),
        ),
        None => None,
    }
}

proof fn lemma_skip_blanks_bounds(s: Seq<u16>, i: int)
    requires
        0 <= i <= s.len(),
    ensures
        i <= skip_blanks(s, i) <= s.len(),
    decreases s.len() - i,
{
    if i < s.len() && is_blank(s[i]) {
        lemma_skip_blanks_bounds(s, i + 1);
    }
}

proof fn lemma_next_quote_bounds(s: Seq<u16>, i: int)
    requires
        0 <= i <= s.len(),
    ensures
        i <= next_quote(s, i) <= s.len(),
    decreases s.len() - i,
{
    if i < s.len() && s[i] != QUOTE {
        lemma_next_quote_bounds(s, i + 1);
    }
}

proof fn lemma_next_blank_bounds(s: Seq<u16>, i: int)
    requires
        0 <= i <= s.len(),
    ensures
        i <= next_blank(s, i) <= s.len(),
    decreases s.len() - i,
{
    if i < s.len() && !is_blank(s[i]) {
        lemma_next_blank_bounds(s, i + 1);
    }
}

/// Index of the first non-blank at or after `i`.
fn skip_blanks_from(cmd: &[u16], i: usize) -> (r: usize)
    requires
        i <= cmd.len(),
    ensures
        r == skip_blanks(cmd@, i as int),
        i <= r <= cmd.len(),
{
    let mut j = i;
    while j < cmd.len() && (cmd[j] == SPACE || cmd[j] == TAB)
        invariant
            i <= j <= cmd.len(),
            skip_blanks(cmd@, j as int) == skip_blanks(cmd@, i as int),
        decreases cmd.len() - j,
    {
        j += 1;
    }
    j
}

/// Locate the program token: `(start, end, resume)` as in `token_span`.
fn find_token(cmd: &[u16]) -> (r: Option<(usize, usize, usize)>)
    ensures
        match r {
            Some((b, e, a)) => token_span(cmd@) == Some((b as int, e as int, a as int)) && b
                <= e <= a <= cmd.len(),
            None => token_span(cmd@) is None,
        },
{
    let i = skip_blanks_from(cmd, 0);
    if i >= cmd.len() {
        return None;
    }
    if cmd[i] == QUOTE {
        let mut e = i + 1;
        while e < cmd.len() && cmd[e] != QUOTE
            invariant
                i + 1 <= e <= cmd.len(),
                next_quote(cmd@, e as int) == next_quote(cmd@, i + 1),
            decreases cmd.len() - e,
        {
            e += 1;
        }
        let after = if e < cmd.len() {
            e + 1
        } else {
            e
        };
        Some((i + 1, e, after))
    } else {
        let mut e = i;
        while e < cmd.len() && cmd[e] != SPACE && cmd[e] != TAB
            invariant
                i <= e <= cmd.len(),
                next_blank(cmd@, e as int) == next_blank(cmd@, i as int),
            decreases cmd.len() - e,
        {
            e += 1;
        }
        Some((i, e, e))
    }
}

/// Copy `cmd[b..e]` into a new vector.
fn copy_range(cmd: &[u16], b: usize, e: usize) -> (r: Vec<u16>)
    requires
        b <= e <= cmd.len(),
    ensures
        r@ == cmd@.subrange(b as int, e as int),
{
    let mut out: Vec<u16> = Vec::new();
    let mut k = b;
    while k < e
        invariant
            b <= k <= e,
            e <= cmd.len(),
            out@ == cmd@.subrange(b as int, k as int),
        decreases e - k,
    {
        out.push(cmd[k]);
        k += 1;
        assert(out@ =~= cmd@.subrange(b as int, k as int));
    }
    out
}

/// Extract the program token (argv[0]) from a command line, for deriving
/// `lpApplicationName` from a user-supplied command line.
///
/// Deliberate deviation from `CommandLineToArgvW`'s argv[0] handling: leading
/// whitespace is skipped and empty/whitespace-only input returns `None`. The
/// token shape otherwise matches: a leading `"` runs to the next `"` (or to the
/// end if unterminated); an unquoted token runs to the next space/tab;
/// backslashes are literal here (no escaping).
pub fn first_token_wide(cmd: &[u16]) -> (r: Option<Vec<u16>>)
    ensures
        r.deep_view() == spec_first_token(cmd@),
{
    match find_token(cmd) {
        Some((b, e, _)) => {
            let t = copy_range(cmd, b, e);
            assert(t.deep_view() =~= t@);
            Some(t)
        },
        None => None,
    }
}

/// Split a command line into its program token and the arguments after it
/// (the blanks separating them dropped), e.g. `git status` → (`git`, `status`).
/// `None` for empty or blank-only input.
pub fn first_token_and_rest_wide(cmd: &[u16]) -> (r: Option<(Vec<u16>, Vec<u16>)>)
    ensures
        r.deep_view() == spec_first_token_and_rest(cmd@),
{
    match find_token(cmd) {
        Some((b, e, after)) => {
            let first = copy_range(cmd, b, e);
            let r0 = skip_blanks_from(cmd, after);
            let rest = copy_range(cmd, r0, cmd.len());
            assert(first.deep_view() =~= first@);
            assert(rest.deep_view() =~= rest@);
            Some((first, rest))
        },
        None => None,
    }
}

/// The state of the MSVCRT argument parser: the arguments finished so far,
/// the current argument, the run of backslashes not yet written into it,
/// whether a quoted block is open, and whether an argument has begun.
pub struct ArgvState {
    pub args: Seq<Seq<u16>>,
    pub cur: Seq<u16>,
    pub bs: nat,
    pub inq: bool,
    pub started: bool,
}

/// The parser's state before the first code unit.
pub open spec fn argv_start() -> ArgvState {
    ArgvState { args: seq![], cur: seq![], bs: 0, inq: false, started: false }
}

/// One step of the documented MSVCRT argument rules (for the arguments after
/// the program name): a blank outside a quoted block ends the current
/// argument; backslashes are literal unless they precede a quote; `2n`
/// backslashes and a quote give `n` backslashes and open or close a quoted
/// block; `2n + 1` backslashes and a quote give `n` backslashes and a literal
/// quote.
pub open spec fn argv_step(st: ArgvState, c: u16) -> ArgvState {
    if c == BACKSLASH {
        ArgvState { args: st.args, cur: st.cur, bs: st.bs + 1, inq: st.inq, started: true }
    } else if c == QUOTE {
        let cur = st.cur + backslashes(st.bs / 2);
        if st.bs % 2 == 1 {
            ArgvState { args: st.args, cur: cur.push(QUOTE), bs: 0, inq: st.inq, started: true }
        } else {
            ArgvState { args: st.args, cur, bs: 0, inq: !st.inq, started: true }
        }
    } else if is_blank(c) && !st.inq {
        if st.started {
            ArgvState {
                args: st.args.push(st.cur + backslashes(st.bs)),
                cur: seq![],
                bs: 0,
                inq: false,
                started: false,
            }
        } else {
            st
        }
    } else {
        ArgvState {
            args: st.args,
            cur: (st.cur + backslashes(st.bs)).push(c),
            bs: 0,
            inq: st.inq,
            started: true,
        }
    }
}

/// The parser's state after reading `s` from `st`.
pub open spec fn argv_run(s: Seq<u16>, st: ArgvState) -> ArgvState
    decreases s.len(),
{
    if s.len() == 0 {
        st
    } else {
        argv_step(argv_run(s.drop_last(), st), s.last())
    }
}

/// The arguments once the input ends: a begun argument is finished.
pub open spec fn argv_finish(st: ArgvState) -> Seq<Seq<u16>> {
    if st.started {
        st.args.push(st.cur + backslashes(st.bs))
    } else {
        st.args
    }
}

/// The arguments that the MSVCRT rules read from a command line.
pub open spec fn msvcrt_argv(s: Seq<u16>) -> Seq<Seq<u16>> {
    argv_finish(argv_run(s, argv_start()))
}

proof fn lemma_argv_run_concat(a: Seq<u16>, b: Seq<u16>, st: ArgvState)
    ensures
        argv_run(a + b, st) == argv_run(b, argv_run(a, st)),
    decreases b.len(),
{
    if b.len() == 0 {
        assert(a + b =~= a);
    } else {
        lemma_argv_run_concat(a, b.drop_last(), st);
        assert((a + b).drop_last() =~= a + b.drop_last());
        assert((a + b).last() == b.last());
    }
}

proof fn lemma_argv_run_single(c: u16, st: ArgvState)
    ensures
        argv_run(seq![c], st) == argv_step(st, c),
{
    let one = seq![c];
    assert(one.drop_last() =~= Seq::<u16>::empty());
    assert(argv_run(one.drop_last(), st) == st);
}

proof fn lemma_argv_run_backslashes(n: nat, st: ArgvState)
    ensures
        argv_run(backslashes(n), st) == (ArgvState {
            args: st.args,
            cur: st.cur,
            bs: st.bs + n,
            inq: st.inq,
            started: st.started || n > 0,
        }),
    decreases n,
{
    if n > 0 {
        lemma_argv_run_backslashes((n - 1) as nat, st);
        assert(backslashes(n).drop_last() =~= backslashes((n - 1) as nat));
        assert(backslashes(n).last() == BACKSLASH);
    } else {
        assert(backslashes(0) =~= Seq::<u16>::empty());
    }
}

/// `p` without its trailing run of backslashes.
pub open spec fn strip_backslashes(p: Seq<u16>) -> Seq<u16> {
    p.subrange(0, p.len() - trailing_backslashes(p))
}

proof fn lemma_trailing_backslashes_split(p: Seq<u16>)
    ensures
        trailing_backslashes(p) <= p.len(),
        strip_backslashes(p) + backslashes(trailing_backslashes(p)) == p,
    decreases p.len(),
{
    if p.len() > 0 && p.last() == BACKSLASH {
        lemma_trailing_backslashes_split(p.drop_last());
        let q = p.drop_last();
        assert(strip_backslashes(p) =~= strip_backslashes(q));
        assert(backslashes(trailing_backslashes(p)) =~= backslashes(trailing_backslashes(q)).push(
            BACKSLASH,
        ));
        assert(strip_backslashes(q) + backslashes(trailing_backslashes(q)).push(BACKSLASH)
            =~= (strip_backslashes(q) + backslashes(trailing_backslashes(q))).push(BACKSLASH));
        assert(q.push(BACKSLASH) =~= p);
    } else {
        assert(strip_backslashes(p) =~= p);
        assert(backslashes(0) =~= Seq::<u16>::empty());
        assert(p + Seq::<u16>::empty() =~= p);
    }
}

proof fn lemma_argv_run_body(x: Seq<u16>, st: ArgvState)
    requires
        st.bs == 0,
        st.inq || forall|i: int| 0 <= i < x.len() ==> !is_blank(#[trigger] x[i]),
    ensures
        argv_run(wide_body(x), st) == (ArgvState {
            args: st.args,
            cur: st.cur + strip_backslashes(x),
            bs: trailing_backslashes(x),
            inq: st.inq,
            started: st.started || x.len() > 0,
        }),
    decreases x.len(),
{
    if x.len() == 0 {
        assert(wide_body(x) =~= Seq::<u16>::empty());
        assert(strip_backslashes(x) =~= Seq::<u16>::empty());
        assert(st.cur + Seq::<u16>::empty() =~= st.cur);
    } else {
        let xp = x.drop_last();
        let c = x.last();
        assert forall|i: int| 0 <= i < xp.len() implies st.inq || !is_blank(#[trigger] xp[i]) by {
            assert(xp[i] == x[i]);
        }
        lemma_argv_run_body(xp, st);
        lemma_argv_run_concat(wide_body(xp), wide_piece(xp, c), st);
        let mid = argv_run(wide_body(xp), st);
        let t = trailing_backslashes(xp);
        lemma_trailing_backslashes_split(xp);
        if c == BACKSLASH {
            assert(wide_piece(xp, c) =~= seq![BACKSLASH]);
            lemma_argv_run_single(BACKSLASH, mid);
            assert(strip_backslashes(x) =~= strip_backslashes(xp));
        } else if c == QUOTE {
            let pieces = wide_piece(xp, c);
            assert(pieces == backslashes(t + 1) + seq![QUOTE]);
            lemma_argv_run_concat(backslashes(t + 1), seq![QUOTE], mid);
            lemma_argv_run_backslashes(t + 1, mid);
            let after = argv_run(backslashes(t + 1), mid);
            assert(after.bs == 2 * t + 1);
            lemma_argv_run_single(QUOTE, after);
            assert((2 * t + 1) / 2 == t) by (nonlinear_arith);
            assert((2 * t + 1) % 2 == 1) by (nonlinear_arith);
            assert(strip_backslashes(x) =~= x);
            assert((st.cur + strip_backslashes(xp) + backslashes(t)).push(QUOTE) =~= st.cur + x);
        } else {
            assert(wide_piece(xp, c) =~= seq![c]);
            lemma_argv_run_single(c, mid);
            assert(x[x.len() - 1] == c);
            assert(strip_backslashes(x) =~= x);
            assert((st.cur + strip_backslashes(xp) + backslashes(t)).push(c) =~= st.cur + x);
        }
    }
}

/// Whether `st` sits between arguments: nothing begun, no quoted block open.
pub open spec fn between_args(st: ArgvState) -> bool {
    st.cur.len() == 0 && st.bs == 0 && !st.inq && !st.started
}

proof fn lemma_argv_run_arg(x: Seq<u16>, st: ArgvState)
    requires
        between_args(st),
    ensures
        ({
            let r = argv_run(spec_wide_arg(x), st);
            r.args == st.args && r.cur + backslashes(r.bs) == x && !r.inq && r.started
        }),
{
    lemma_trailing_backslashes_split(x);
    let t = trailing_backslashes(x);
    if spec_needs_quotes(x) {
        let open = seq![QUOTE];
        assert(open.drop_last() =~= Seq::<u16>::empty());
        assert(backslashes(0) =~= Seq::<u16>::empty());
        let s1 = argv_run(open, st);
        lemma_argv_run_single(QUOTE, st);
        assert(st.cur + backslashes(0) =~= st.cur);
        lemma_argv_run_body(x, s1);
        let s2 = argv_run(wide_body(x), s1);
        lemma_argv_run_backslashes(t, s2);
        let s3 = argv_run(backslashes(t), s2);
        assert(s3.bs == 2 * t);
        assert((2 * t) / 2 == t) by (nonlinear_arith);
        assert((2 * t) % 2 == 0) by (nonlinear_arith);
        let s4 = argv_run(seq![QUOTE], s3);
        lemma_argv_run_single(QUOTE, s3);
        assert(st.cur + strip_backslashes(x) + backslashes(t) =~= x);
        assert(s4.cur + backslashes(0) =~= s4.cur);
        lemma_argv_run_concat(open, wide_body(x), st);
        lemma_argv_run_concat(open + wide_body(x), backslashes(t), st);
        lemma_argv_run_concat(open + wide_body(x) + backslashes(t), seq![QUOTE], st);
        assert(spec_wide_arg(x) == open + wide_body(x) + backslashes(t) + seq![QUOTE]);
    } else {
        assert(forall|i: int| 0 <= i < x.len() ==> !is_blank(#[trigger] x[i]));
        lemma_argv_run_body(x, st);
        assert(st.cur + strip_backslashes(x) =~= strip_backslashes(x));
    }
}

proof fn lemma_argv_run_join(args: Seq<Seq<u16>>)
    requires
        args.len() >= 1,
    ensures
        ({
            let r = argv_run(spec_join_wide(args), argv_start());
            r.args == args.drop_last() && r.cur + backslashes(r.bs) == args.last() && !r.inq
                && r.started
        }),
    decreases args.len(),
{
    if args.len() == 1 {
        lemma_argv_run_arg(args[0], argv_start());
        assert(args.drop_last() =~= Seq::<Seq<u16>>::empty());
    } else {
        let prev = args.drop_last();
        lemma_argv_run_join(prev);
        let r1 = argv_run(spec_join_wide(prev), argv_start());
        let sep = seq![SPACE];
        assert(sep.drop_last() =~= Seq::<u16>::empty());
        let r2 = argv_run(sep, r1);
        lemma_argv_run_single(SPACE, r1);
        assert(prev.drop_last().push(prev.last()) =~= prev);
        assert(between_args(r2));
        lemma_argv_run_arg(args.last(), r2);
        lemma_argv_run_concat(spec_join_wide(prev), sep, argv_start());
        lemma_argv_run_concat(spec_join_wide(prev) + sep, spec_wide_arg(args.last()), argv_start());
    }
}

/// What `join_wide` writes, the MSVCRT rules read back: parsing the joined
/// command line gives exactly the arguments that were joined.
pub proof fn lemma_join_wide_round_trip(args: Seq<Seq<u16>>)
    ensures
        msvcrt_argv(spec_join_wide(args)) == args,
{
    if args.len() == 0 {
        assert(spec_join_wide(args) =~= Seq::<u16>::empty());
        assert(args =~= Seq::<Seq<u16>>::empty());
    } else {
        lemma_argv_run_join(args);
        let r = argv_run(spec_join_wide(args), argv_start());
        assert(args.drop_last().push(args.last()) =~= args);
    }
}

/// The argv that a command line gives when its program token is read by
/// [`spec_first_token_and_rest`] (backslashes literal) and the arguments
/// after it by the MSVCRT rules.
pub open spec fn commandline_argv(s: Seq<u16>) -> Seq<Seq<u16>> {
    match spec_first_token_and_rest(s) {
        Some((program, rest)) => seq![program] + msvcrt_argv(rest),
        None => seq![],
    }
}

/// A program name that the command line carries verbatim: non-empty, with
/// no space, tab or quote.
pub open spec fn plain_program(p: Seq<u16>) -> bool {
    p.len() > 0 && forall|i: int| 0 <= i < p.len() ==> !is_blank(#[trigger] p[i]) && p[i] != QUOTE
}

proof fn lemma_join_cons(args: Seq<Seq<u16>>)
    requires
        args.len() >= 2,
    ensures
        spec_join_wide(args) == spec_wide_arg(args[0]) + seq![SPACE] + spec_join_wide(args.skip(1)),
    decreases args.len(),
{
    let tail = args.skip(1);
    assert(tail.len() >= 1);
    if args.len() == 2 {
        assert(args.drop_last() =~= seq![args[0]]);
        assert(tail =~= seq![args[1]]);
        assert(spec_join_wide(seq![args[0]]) == spec_wide_arg(args[0]));
        assert(spec_join_wide(tail) == spec_wide_arg(args[1]));
    } else {
        let dl = args.drop_last();
        lemma_join_cons(dl);
        assert(dl[0] == args[0]);
        assert(dl.skip(1) =~= tail.drop_last());
        assert(tail.last() == args.last());
        assert(spec_join_wide(tail) == spec_join_wide(tail.drop_last()) + seq![SPACE]
            + spec_wide_arg(tail.last()));
        assert(spec_wide_arg(args[0]) + seq![SPACE] + (spec_join_wide(dl.skip(1)) + seq![SPACE]
            + spec_wide_arg(args.last())) =~= spec_wide_arg(args[0]) + seq![SPACE]
            + spec_join_wide(dl.skip(1)) + seq![SPACE] + spec_wide_arg(args.last()));
    }
}

proof fn lemma_wide_body_plain(x: Seq<u16>)
    requires
        forall|i: int| 0 <= i < x.len() ==> x[i] != QUOTE,
    ensures
        wide_body(x) == x,
    decreases x.len(),
{
    if x.len() > 0 {
        lemma_wide_body_plain(x.drop_last());
        assert(x[x.len() - 1] != QUOTE);
        assert(x.drop_last().push(x.last()) =~= x);
    } else {
        assert(wide_body(x) =~= x);
    }
}

proof fn lemma_wide_body_first(x: Seq<u16>)
    requires
        x.len() > 0,
        forall|i: int| 0 <= i < x.len() ==> !is_blank(#[trigger] x[i]),
    ensures
        wide_body(x).len() > 0,
        !is_blank(wide_body(x)[0]),
    decreases x.len(),
{
    if x.len() == 1 {
        let c = x[0];
        assert(x.drop_last() =~= Seq::<u16>::empty());
        assert(wide_body(x.drop_last()) =~= Seq::<u16>::empty());
        assert(x.last() == c);
        if c == QUOTE {
            assert(wide_piece(x.drop_last(), c)[0] == BACKSLASH);
        }
        assert(wide_body(x) =~= wide_piece(x.drop_last(), c));
    } else {
        let xp = x.drop_last();
        assert forall|i: int| 0 <= i < xp.len() implies !is_blank(#[trigger] xp[i]) by {
            assert(xp[i] == x[i]);
        }
        lemma_wide_body_first(xp);
        assert(wide_body(x)[0] == wide_body(xp)[0]);
    }
}

proof fn lemma_join_first(args: Seq<Seq<u16>>)
    requires
        args.len() >= 1,
    ensures
        spec_join_wide(args).len() > 0,
        !is_blank(spec_join_wide(args)[0]),
{
    let a = args[0];
    if spec_needs_quotes(a) {
        assert(spec_wide_arg(a)[0] == QUOTE);
    } else {
        lemma_wide_body_first(a);
    }
    assert(spec_wide_arg(a).len() > 0);
    assert(!is_blank(spec_wide_arg(a)[0]));
    if args.len() >= 2 {
        lemma_join_cons(args);
        assert(spec_join_wide(args)[0] == spec_wide_arg(a)[0]);
    } else {
        assert(spec_join_wide(args) == spec_wide_arg(args[0]));
    }
}

proof fn lemma_next_blank_stops(s: Seq<u16>, n: int, i: int)
    requires
        0 <= i <= n <= s.len(),
        forall|k: int| 0 <= k < n ==> !is_blank(#[trigger] s[k]),
        n == s.len() || is_blank(s[n]),
    ensures
        next_blank(s, i) == n,
    decreases n - i,
{
    if i < n {
        lemma_next_blank_stops(s, n, i + 1);
    }
}

/// What `join_wide` writes, the OS reads back as the whole argv when the
/// program name needs no quoting: the program token is the first argument
/// verbatim, and the MSVCRT rules give back the rest.
pub proof fn lemma_join_wide_argv_round_trip(args: Seq<Seq<u16>>)
    requires
        args.len() >= 1,
        plain_program(args[0]),
    ensures
        commandline_argv(spec_join_wide(args)) == args,
{
    let a0 = args[0];
    let n = a0.len() as int;
    lemma_wide_body_plain(a0);
    assert(!spec_needs_quotes(a0));
    assert(spec_wide_arg(a0) == a0);
    if args.len() == 1 {
        let s = spec_join_wide(args);
        assert(s == a0);
        assert(skip_blanks(s, 0) == 0);
        lemma_next_blank_stops(s, n, 0);
        assert(token_span(s) == Some((0int, n, n)));
        assert(s.subrange(0, n) =~= a0);
        assert(skip_blanks(s, n) == n);
        assert(s.subrange(n, n) =~= Seq::<u16>::empty());
        assert(msvcrt_argv(Seq::<u16>::empty()) == Seq::<Seq<u16>>::empty()) by {
            lemma_join_wide_round_trip(Seq::<Seq<u16>>::empty());
            assert(spec_join_wide(Seq::<Seq<u16>>::empty()) =~= Seq::<u16>::empty());
        }
        assert(seq![a0] + Seq::<Seq<u16>>::empty() =~= args);
    } else {
        lemma_join_cons(args);
        let j = spec_join_wide(args.skip(1));
        let s = spec_join_wide(args);
        assert(s == a0 + seq![SPACE] + j);
        lemma_join_first(args.skip(1));
        assert(s[n] == SPACE);
        assert forall|k: int| 0 <= k < n implies !is_blank(#[trigger] s[k]) by {
            assert(s[k] == a0[k]);
        }
        assert(skip_blanks(s, 0) == 0);
        lemma_next_blank_stops(s, n, 0);
        assert(token_span(s) == Some((0int, n, n)));
        assert(s.subrange(0, n) =~= a0);
        assert(s[n + 1] == j[0]);
        assert(skip_blanks(s, n + 1) == n + 1);
        assert(skip_blanks(s, n) == n + 1);
        assert(s.subrange(n + 1, s.len() as int) =~= j);
        lemma_join_wide_round_trip(args.skip(1));
        assert(seq![a0] + args.skip(1) =~= args);
    }
}

} // verus!
