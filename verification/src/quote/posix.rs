//! Strict-POSIX (IEEE 1003.1-2024 §2.2) word splitting, byte-oriented.
//!
//! Deviations from strict POSIX:
//!   1. CR (0x0D) is whitespace; `\<CR><LF>` is a line continuation. A bare
//!      `\<CR>` (no `<LF>`) is NOT a continuation — it falls to the `\X` rule.
//!   2. `#` is never a comment introducer (we split argv, not scripts).
//!   3. `$`, backtick, `$(...)`, `${...}` are literal — this is a lexer, not a shell.

use vstd::prelude::*;

use crate::error::{QuoteError, QuoteErrorKind};

verus! {

pub const SPACE: u8 = 0x20;
pub const TAB: u8 = 0x09;
pub const LF: u8 = 0x0a;
pub const CR: u8 = 0x0d;
pub const SQ: u8 = 0x27;
pub const DQ: u8 = 0x22;
pub const BS: u8 = 0x5c;
pub const DOLLAR: u8 = 0x24;
pub const BACKTICK: u8 = 0x60;

// ---------------------------------------------------------------------------
// The lexer, as a mathematical definition.
// ---------------------------------------------------------------------------

/// Bytes that separate words: space, tab, LF and CR.
pub open spec fn is_ws_byte(c: u8) -> bool {
    c == SPACE || c == TAB || c == LF || c == CR
}

/// Length of a line continuation (`\<LF>` = 2, `\<CR><LF>` = 3) whose backslash
/// is at `i`, or 0 when the backslash does not start one.
pub open spec fn continuation_len(s: Seq<u8>, i: int) -> int {
    if i + 1 < s.len() && s[i + 1] == LF {
        2
    } else if i + 2 < s.len() && s[i + 1] == CR && s[i + 2] == LF {
        3
    } else {
        0
    }
}

/// Bytes that a backslash escapes inside double quotes.
pub open spec fn dq_escapable(c: u8) -> bool {
    c == DOLLAR || c == BACKTICK || c == DQ || c == BS
}

/// Where the lexer is: between words, inside an unquoted word, or inside a
/// single/double-quoted section that was opened at the given byte offset.
pub enum LexMode {
    Blank,
    Word,
    Single(int),
    Double(int),
}

/// The lexer's state: completed words, the word being built, and whether a
/// word has been started (an empty quoted string starts a word).
pub struct Lexer {
    pub mode: LexMode,
    pub out: Seq<Seq<u8>>,
    pub buf: Seq<u8>,
    pub has_token: bool,
}

pub open spec fn lexer_start() -> Lexer {
    Lexer { mode: LexMode::Blank, out: seq![], buf: seq![], has_token: false }
}

/// Close the word being built, if one was started.
pub open spec fn flush(l: Lexer) -> Lexer {
    if l.has_token {
        Lexer { out: l.out.push(l.buf), buf: seq![], has_token: false, ..l }
    } else {
        l
    }
}

pub open spec fn trailing_backslash(i: int) -> QuoteError {
    QuoteError { pos: i as usize, kind: QuoteErrorKind::TrailingBackslash }
}

/// The outcome once the input is exhausted in state `l`.
pub open spec fn finish(l: Lexer) -> Result<Seq<Seq<u8>>, QuoteError> {
    match l.mode {
        LexMode::Single(o) => Err(
            QuoteError { pos: o as usize, kind: QuoteErrorKind::UnterminatedSingleQuote },
        ),
        LexMode::Double(o) => Err(
            QuoteError { pos: o as usize, kind: QuoteErrorKind::UnterminatedDoubleQuote },
        ),
        _ => Ok(flush(l).out),
    }
}

/// The words of `s` from byte `i` on, starting in lexer state `l`.
pub open spec fn lex(s: Seq<u8>, i: int, l: Lexer) -> Result<Seq<Seq<u8>>, QuoteError>
    decreases s.len() - i,
{
    if i < 0 || i >= s.len() {
        finish(l)
    } else {
        let c = s[i];
        match l.mode {
            LexMode::Blank => {
                if is_ws_byte(c) {
                    lex(s, i + 1, l)
                } else if c == SQ {
                    lex(s, i + 1, Lexer { mode: LexMode::Single(i), has_token: true, ..l })
                } else if c == DQ {
                    lex(s, i + 1, Lexer { mode: LexMode::Double(i), has_token: true, ..l })
                } else if c == BS {
                    if i + 1 >= s.len() {
                        Err(trailing_backslash(i))
                    } else if continuation_len(s, i) > 0 {
                        lex(s, i + continuation_len(s, i), l)
                    } else {
                        lex(
                            s,
                            i + 2,
                            Lexer {
                                mode: LexMode::Word,
                                buf: l.buf.push(s[i + 1]),
                                has_token: true,
                                ..l
                            },
                        )
                    }
                } else {
                    lex(
                        s,
                        i + 1,
                        Lexer { mode: LexMode::Word, buf: l.buf.push(c), has_token: true, ..l },
                    )
                }
            },
            LexMode::Word => {
                if is_ws_byte(c) {
                    lex(s, i + 1, Lexer { mode: LexMode::Blank, ..flush(l) })
                } else if c == SQ {
                    lex(s, i + 1, Lexer { mode: LexMode::Single(i), ..l })
                } else if c == DQ {
                    lex(s, i + 1, Lexer { mode: LexMode::Double(i), ..l })
                } else if c == BS {
                    if i + 1 >= s.len() {
                        Err(trailing_backslash(i))
                    } else if continuation_len(s, i) > 0 {
                        lex(s, i + continuation_len(s, i), l)
                    } else {
                        lex(s, i + 2, Lexer { buf: l.buf.push(s[i + 1]), ..l })
                    }
                } else {
                    lex(s, i + 1, Lexer { buf: l.buf.push(c), ..l })
                }
            },
            LexMode::Single(o) => {
                if c == SQ {
                    lex(s, i + 1, Lexer { mode: LexMode::Word, ..l })
                } else {
                    lex(s, i + 1, Lexer { buf: l.buf.push(c), ..l })
                }
            },
            LexMode::Double(o) => {
                if c == DQ {
                    lex(s, i + 1, Lexer { mode: LexMode::Word, ..l })
                } else if c == BS {
                    if i + 1 >= s.len() {
                        Err(trailing_backslash(i))
                    } else if continuation_len(s, i) > 0 {
                        lex(s, i + continuation_len(s, i), l)
                    } else if dq_escapable(s[i + 1]) {
                        lex(s, i + 2, Lexer { buf: l.buf.push(s[i + 1]), ..l })
                    } else {
                        // The backslash is literal; the next byte is lexed on its own.
                        lex(s, i + 1, Lexer { buf: l.buf.push(BS), ..l })
                    }
                } else {
                    lex(s, i + 1, Lexer { buf: l.buf.push(c), ..l })
                }
            },
        }
    }
}

/// The argv words of a command line, or why it cannot be split.
pub open spec fn spec_split(s: Seq<u8>) -> Result<Seq<Seq<u8>>, QuoteError> {
    lex(s, 0, lexer_start())
}

// ---------------------------------------------------------------------------
// Splitting.
// ---------------------------------------------------------------------------

#[derive(Clone, Copy)]
enum State {
    Whitespace,
    Word,
    SingleQuote,
    DoubleQuote,
}

spec fn mode_of(state: State, quote_open: usize) -> LexMode {
    match state {
        State::Whitespace => LexMode::Blank,
        State::Word => LexMode::Word,
        State::SingleQuote => LexMode::Single(quote_open as int),
        State::DoubleQuote => LexMode::Double(quote_open as int),
    }
}

spec fn lexer_of(
    state: State,
    quote_open: usize,
    out: Seq<Seq<u8>>,
    buf: Seq<u8>,
    has_token: bool,
) -> Lexer {
    Lexer { mode: mode_of(state, quote_open), out, buf, has_token }
}

/// Split `s` into argv words. Empty/whitespace-only input yields an empty vec.
pub fn split(s: &[u8]) -> (r: Result<Vec<Vec<u8>>, QuoteError>)
    ensures
        match r {
            Ok(words) => spec_split(s@) == Ok::<Seq<Seq<u8>>, QuoteError>(words.deep_view()),
            Err(e) => spec_split(s@) == Err::<Seq<Seq<u8>>, QuoteError>(e),
        },
{
    let mut out: Vec<Vec<u8>> = Vec::new();
    let mut buf: Vec<u8> = Vec::new();
    let mut state = State::Whitespace;
    let mut has_token = false;
    let mut quote_open = 0usize;
    let mut i = 0usize;
    assert(out.deep_view() =~= Seq::<Seq<u8>>::empty());
    assert(buf@ =~= Seq::<u8>::empty());

    while i < s.len()
        invariant
            i <= s.len(),
            quote_open < s.len() || s.len() == 0,
            lex(s@, i as int, lexer_of(state, quote_open, out.deep_view(), buf@, has_token))
                == spec_split(s@),
        decreases s.len() - i,
    {
        let c = s[i];
        match state {
            State::Whitespace => {
                if is_ws(c) {
                    i += 1;
                } else if c == SQ {
                    state = State::SingleQuote;
                    has_token = true;
                    quote_open = i;
                    i += 1;
                } else if c == DQ {
                    state = State::DoubleQuote;
                    has_token = true;
                    quote_open = i;
                    i += 1;
                } else if c == BS {
                    if i + 1 >= s.len() {
                        return Err(QuoteError::new(i, QuoteErrorKind::TrailingBackslash));
                    }
                    if let Some(consumed) = line_continuation(s, i) {
                        i += consumed;
                    } else {
                        buf.push(s[i + 1]);
                        i += 2;
                        has_token = true;
                        state = State::Word;
                    }
                } else {
                    buf.push(c);
                    has_token = true;
                    state = State::Word;
                    i += 1;
                }
            },
            State::Word => {
                if is_ws(c) {
                    emit(&mut out, &mut buf, &mut has_token);
                    state = State::Whitespace;
                    i += 1;
                } else if c == SQ {
                    state = State::SingleQuote;
                    quote_open = i;
                    i += 1;
                } else if c == DQ {
                    state = State::DoubleQuote;
                    quote_open = i;
                    i += 1;
                } else if c == BS {
                    i = backslash_unquoted(s, i, &mut buf)?;
                } else {
                    buf.push(c);
                    i += 1;
                }
            },
            State::SingleQuote => {
                if c == SQ {
                    state = State::Word;
                } else {
                    buf.push(c);
                }
                i += 1;
            },
            State::DoubleQuote => {
                if c == DQ {
                    state = State::Word;
                    i += 1;
                } else if c == BS {
                    i = backslash_in_dquote(s, i, &mut buf)?;
                } else {
                    buf.push(c);
                    i += 1;
                }
            },
        }
    }

    match state {
        State::Whitespace | State::Word => {
            emit(&mut out, &mut buf, &mut has_token);
            Ok(out)
        },
        State::SingleQuote => Err(
            QuoteError::new(quote_open, QuoteErrorKind::UnterminatedSingleQuote),
        ),
        State::DoubleQuote => Err(
            QuoteError::new(quote_open, QuoteErrorKind::UnterminatedDoubleQuote),
        ),
    }
}

/// Whether `c` separates words.
pub fn is_ws(c: u8) -> (r: bool)
    ensures
        r == is_ws_byte(c),
{
    c == SPACE || c == TAB || c == LF || c == CR
}

/// Close the word being built (if one was started) and append it to `out`.
fn emit(out: &mut Vec<Vec<u8>>, buf: &mut Vec<u8>, has_token: &mut bool)
    ensures
        ({
            let l = flush(
                Lexer {
                    mode: LexMode::Blank,
                    out: old(out).deep_view(),
                    buf: old(buf)@,
                    has_token: *old(has_token),
                },
            );
            &&& final(out).deep_view() == l.out
            &&& final(buf)@ == l.buf
            &&& *final(has_token) == l.has_token
        }),
{
    if *has_token {
        let mut word: Vec<u8> = Vec::new();
        std::mem::swap(&mut word, buf);
        assert(word.deep_view() =~= old(buf)@);
        out.push(word);
        *has_token = false;
        proof {
            assert(out.deep_view() =~= old(out).deep_view().push(old(buf)@));
        }
    }
}

/// `i` is at a backslash, outside any quotes. Returns the next index.
fn backslash_unquoted(s: &[u8], i: usize, buf: &mut Vec<u8>) -> (r: Result<usize, QuoteError>)
    requires
        i < s.len(),
        s[i as int] == BS,
    ensures
        match r {
            Err(e) => i + 1 >= s.len() && e == trailing_backslash(i as int) && final(buf)@
                == old(buf)@,
            Ok(n) => i + 1 < s.len() && if continuation_len(s@, i as int) > 0 {
                n == i + continuation_len(s@, i as int) && final(buf)@ == old(buf)@
            } else {
                n == i + 2 && final(buf)@ == old(buf)@.push(s[i + 1])
            },
        },
{
    if i + 1 >= s.len() {
        return Err(QuoteError::new(i, QuoteErrorKind::TrailingBackslash));
    }
    if let Some(consumed) = line_continuation(s, i) {
        return Ok(i + consumed);
    }
    buf.push(s[i + 1]);
    Ok(i + 2)
}

/// `i` is at a backslash, inside double quotes. Returns the next index.
fn backslash_in_dquote(s: &[u8], i: usize, buf: &mut Vec<u8>) -> (r: Result<usize, QuoteError>)
    requires
        i < s.len(),
        s[i as int] == BS,
    ensures
        match r {
            Err(e) => i + 1 >= s.len() && e == trailing_backslash(i as int) && final(buf)@
                == old(buf)@,
            Ok(n) => i + 1 < s.len() && if continuation_len(s@, i as int) > 0 {
                n == i + continuation_len(s@, i as int) && final(buf)@ == old(buf)@
            } else if dq_escapable(s[i + 1]) {
                n == i + 2 && final(buf)@ == old(buf)@.push(s[i + 1])
            } else {
                n == i + 1 && final(buf)@ == old(buf)@.push(BS)
            },
        },
{
    if i + 1 >= s.len() {
        return Err(QuoteError::new(i, QuoteErrorKind::TrailingBackslash));
    }
    if let Some(consumed) = line_continuation(s, i) {
        return Ok(i + consumed);
    }
    let n = s[i + 1];
    if n == DOLLAR || n == BACKTICK || n == DQ || n == BS {
        buf.push(n);
        Ok(i + 2)
    } else {
        // Backslash is literal; the next byte is re-processed next iteration.
        buf.push(BS);
        Ok(i + 1)
    }
}

/// If `i` (at a backslash) begins a line continuation, return its total byte
/// length (2 for `\<LF>`, 3 for `\<CR><LF>`).
fn line_continuation(s: &[u8], i: usize) -> (r: Option<usize>)
    requires
        i + 1 < s.len(),
    ensures
        match r {
            Some(n) => n == continuation_len(s@, i as int) && n > 0,
            None => continuation_len(s@, i as int) == 0,
        },
{
    let next = s[i + 1];
    if next == LF {
        Some(2)
    } else if next == CR && i + 2 < s.len() && s[i + 2] == LF {
        Some(3)
    } else {
        None
    }
}


// ---------------------------------------------------------------------------
// Quoting and joining.
// ---------------------------------------------------------------------------

/// Bytes that need no quoting: ASCII letters and digits plus `_@%+=:,./-`.
pub open spec fn is_safe_byte(b: u8) -> bool {
    (0x61 <= b <= 0x7a) || (0x41 <= b <= 0x5a) || (0x30 <= b <= 0x39) || b == 0x5f || b == 0x40
        || b == 0x25 || b == 0x2b || b == 0x3d || b == 0x3a || b == 0x2c || b == 0x2e || b == 0x2f
        || b == 0x2d
}

pub open spec fn all_safe(s: Seq<u8>) -> bool {
    forall|i: int| 0 <= i < s.len() ==> is_safe_byte(#[trigger] s[i])
}

/// How one byte is written inside a single-quoted section: a single quote
/// closes the section, emits a double-quoted `'`, and reopens it.
pub open spec fn sq_piece(b: u8) -> Seq<u8> {
    if b == SQ {
        seq![SQ, DQ, SQ, DQ, SQ]
    } else {
        seq![b]
    }
}

/// The body of a single-quoted section holding `s`.
pub open spec fn sq_body(s: Seq<u8>) -> Seq<u8>
    decreases s.len(),
{
    if s.len() == 0 {
        seq![]
    } else {
        sq_piece(s[0]) + sq_body(s.drop_first())
    }
}

/// The shell-escaped form of one argument.
pub open spec fn spec_quote(s: Seq<u8>) -> Seq<u8> {
    if s.len() == 0 {
        seq![SQ, SQ]
    } else if all_safe(s) {
        s
    } else {
        seq![SQ] + sq_body(s) + seq![SQ]
    }
}

/// The quoted arguments separated by single spaces.
pub open spec fn spec_join(args: Seq<Seq<u8>>) -> Seq<u8>
    decreases args.len(),
{
    if args.len() == 0 {
        seq![]
    } else if args.len() == 1 {
        spec_quote(args[0])
    } else {
        spec_quote(args[0]) + seq![SPACE] + spec_join(args.drop_first())
    }
}

/// Whether `b` needs no quoting.
pub fn is_safe(b: u8) -> (r: bool)
    ensures
        r == is_safe_byte(b),
{
    (0x61 <= b && b <= 0x7a) || (0x41 <= b && b <= 0x5a) || (0x30 <= b && b <= 0x39) || b == 0x5f
        || b == 0x40 || b == 0x25 || b == 0x2b || b == 0x3d || b == 0x3a || b == 0x2c || b == 0x2e
        || b == 0x2f || b == 0x2d
}

proof fn lemma_sq_body_concat(a: Seq<u8>, b: Seq<u8>)
    ensures
        sq_body(a + b) == sq_body(a) + sq_body(b),
    decreases a.len(),
{
    if a.len() == 0 {
        assert(a + b =~= b);
        assert(sq_body(a) + sq_body(b) =~= sq_body(b));
    } else {
        assert((a + b).drop_first() =~= a.drop_first() + b);
        lemma_sq_body_concat(a.drop_first(), b);
        assert(sq_body(a + b) =~= sq_body(a) + sq_body(b));
    }
}

proof fn lemma_sq_body_push(a: Seq<u8>, x: u8)
    ensures
        sq_body(a.push(x)) == sq_body(a) + sq_piece(x),
{
    lemma_sq_body_concat(a, seq![x]);
    assert(a.push(x) =~= a + seq![x]);
    assert(seq![x].drop_first() =~= Seq::<u8>::empty());
    assert(sq_body(Seq::<u8>::empty()) =~= Seq::<u8>::empty());
    assert(seq![x][0] == x);
    assert(sq_body(seq![x]) =~= sq_piece(x));
}

/// Shell-escape `s` so `split` parses it back as exactly one word.
/// NOT idempotent on unsafe input — required for round-trip correctness.
pub fn quote(s: &[u8]) -> (r: Vec<u8>)
    ensures
        r@ == spec_quote(s@),
{
    if s.len() == 0 {
        return vec![SQ, SQ];
    }
    let mut all = true;
    let mut k = 0usize;
    while k < s.len()
        invariant
            k <= s.len(),
            all == (forall|j: int| 0 <= j < k ==> is_safe_byte(#[trigger] s@[j])),
        decreases s.len() - k,
    {
        if !is_safe(s[k]) {
            all = false;
        }
        k += 1;
    }
    if all {
        return vstd::slice::slice_to_vec(s);
    }
    let mut out: Vec<u8> = Vec::new();
    out.push(SQ);
    let mut i = 0usize;
    while i < s.len()
        invariant
            i <= s.len(),
            out@ == seq![SQ] + sq_body(s@.take(i as int)),
        decreases s.len() - i,
    {
        let b = s[i];
        proof {
            lemma_sq_body_push(s@.take(i as int), b);
            assert(s@.take(i as int).push(b) =~= s@.take(i + 1));
        }
        if b == SQ {
            out.push(SQ);
            out.push(DQ);
            out.push(SQ);
            out.push(DQ);
            out.push(SQ);
        } else {
            out.push(b);
        }
        i += 1;
        assert(out@ =~= seq![SQ] + sq_body(s@.take(i as int)));
    }
    out.push(SQ);
    assert(s@.take(s.len() as int) =~= s@);
    assert(out@ =~= spec_quote(s@));
    out
}

/// Append `src` to `out`.
fn append_bytes(out: &mut Vec<u8>, src: &[u8])
    ensures
        final(out)@ == old(out)@ + src@,
{
    let mut i = 0usize;
    while i < src.len()
        invariant
            i <= src.len(),
            out@ == old(out)@ + src@.take(i as int),
        decreases src.len() - i,
    {
        out.push(src[i]);
        i += 1;
        assert(out@ =~= old(out)@ + src@.take(i as int));
    }
    assert(src@.take(src.len() as int) =~= src@);
}

proof fn lemma_join_push(args: Seq<Seq<u8>>, x: Seq<u8>)
    ensures
        spec_join(args.push(x)) == if args.len() == 0 {
            spec_quote(x)
        } else {
            spec_join(args) + seq![SPACE] + spec_quote(x)
        },
    decreases args.len(),
{
    if args.len() == 0 {
        assert(args.push(x)[0] == x);
    } else if args.len() == 1 {
        assert(args.push(x).drop_first() =~= seq![x]);
        assert(args.push(x)[0] == args[0]);
        assert(seq![x][0] == x);
        assert(spec_join(seq![x]) == spec_quote(x));
    } else {
        assert(args.push(x)[0] == args[0]);
        assert(args.push(x).drop_first() =~= args.drop_first().push(x));
        lemma_join_push(args.drop_first(), x);
        assert(spec_join(args.push(x)) =~= spec_join(args) + seq![SPACE] + spec_quote(x));
    }
}

/// Join argv into a POSIX command line such that `split(join(args)) == args`.
pub fn join(args: &[&[u8]]) -> (r: Vec<u8>)
    ensures
        r@ == spec_join(args.deep_view()),
{
    let mut out: Vec<u8> = Vec::new();
    let mut idx = 0usize;
    while idx < args.len()
        invariant
            idx <= args.len(),
            out@ == spec_join(args.deep_view().take(idx as int)),
        decreases args.len() - idx,
    {
        let a: &[u8] = args[idx];
        proof {
            assert(a.deep_view() =~= a@);
            lemma_join_push(args.deep_view().take(idx as int), a@);
            assert(args.deep_view().take(idx as int).push(a@) =~= args.deep_view().take(idx + 1));
        }
        if idx > 0 {
            out.push(SPACE);
        }
        let q = quote(a);
        append_bytes(&mut out, q.as_slice());
        idx += 1;
    }
    assert(args.deep_view().take(args.len() as int) =~= args.deep_view());
    out
}


// ---------------------------------------------------------------------------
// Laws.
// ---------------------------------------------------------------------------

/// Lexing a run of safe bytes inside an unquoted word appends them to the word.
proof fn lemma_lex_safe_run(s: Seq<u8>, i: int, k: int, l: Lexer)
    requires
        l.mode == LexMode::Word,
        0 <= i,
        0 <= k,
        i + k <= s.len(),
        forall|j: int| i <= j < i + k ==> is_safe_byte(#[trigger] s[j]),
    ensures
        lex(s, i, l) == lex(s, i + k, Lexer { buf: l.buf + s.subrange(i, i + k), ..l }),
    decreases k,
{
    if k == 0 {
        assert(l.buf + s.subrange(i, i) =~= l.buf);
        assert(Lexer { buf: l.buf + s.subrange(i, i + k), ..l } == l);
    } else {
        let c = s[i];
        assert(is_safe_byte(c));
        let l1 = Lexer { buf: l.buf.push(c), ..l };
        assert(lex(s, i, l) == lex(s, i + 1, l1));
        lemma_lex_safe_run(s, i + 1, k - 1, l1);
        assert(l1.buf + s.subrange(i + 1, i + k) =~= l.buf + s.subrange(i, i + k));
    }
}

/// Lexing the body of a single-quoted section followed by its closing quote
/// appends the quoted argument to the word and leaves the lexer in a word.
proof fn lemma_lex_sq_body(s: Seq<u8>, i: int, a: Seq<u8>, l: Lexer, o: int)
    requires
        l.mode == LexMode::Single(o),
        0 <= i,
        i + sq_body(a).len() + 1 <= s.len(),
        s.subrange(i, i + sq_body(a).len() + 1) == sq_body(a) + seq![SQ],
    ensures
        lex(s, i, l) == lex(
            s,
            i + sq_body(a).len() + 1,
            Lexer { mode: LexMode::Word, buf: l.buf + a, ..l },
        ),
    decreases a.len(),
{
    let n = sq_body(a).len();
    let seg = s.subrange(i, i + n + 1);
    if a.len() == 0 {
        assert(sq_body(a) =~= Seq::<u8>::empty());
        assert(seg[0] == SQ);
        assert(s[i] == SQ);
        assert(l.buf + a =~= l.buf);
    } else {
        let rest = a.drop_first();
        let piece = sq_piece(a[0]);
        assert(sq_body(a) == piece + sq_body(rest));
        let m = sq_body(rest).len();
        assert(n == piece.len() + m);
        assert(s.subrange(i + piece.len(), i + piece.len() + m + 1) =~= sq_body(rest) + seq![SQ])
            by {
            assert forall|j: int| 0 <= j < m + 1 implies s.subrange(
                i + piece.len(),
                i + piece.len() + m + 1,
            )[j] == (sq_body(rest) + seq![SQ])[j] by {
                assert(seg[piece.len() + j] == s[i + piece.len() + j]);
                assert((sq_body(a) + seq![SQ])[piece.len() + j] == (sq_body(rest) + seq![SQ])[j]);
            }
        }
        if a[0] == SQ {
            assert(seg[0] == SQ && seg[1] == DQ && seg[2] == SQ && seg[3] == DQ && seg[4] == SQ);
            assert(s[i] == SQ && s[i + 1] == DQ && s[i + 2] == SQ && s[i + 3] == DQ && s[i + 4]
                == SQ);
            let l1 = Lexer { mode: LexMode::Word, ..l };
            let l2 = Lexer { mode: LexMode::Double(i + 1), ..l1 };
            let l3 = Lexer { buf: l2.buf.push(SQ), ..l2 };
            let l4 = Lexer { mode: LexMode::Word, ..l3 };
            let l5 = Lexer { mode: LexMode::Single(i + 4), ..l4 };
            assert(lex(s, i, l) == lex(s, i + 1, l1));
            assert(lex(s, i + 1, l1) == lex(s, i + 2, l2));
            assert(lex(s, i + 2, l2) == lex(s, i + 3, l3));
            assert(lex(s, i + 3, l3) == lex(s, i + 4, l4));
            assert(lex(s, i + 4, l4) == lex(s, i + 5, l5));
            lemma_lex_sq_body(s, i + 5, rest, l5, i + 4);
            assert(l5.buf + rest =~= l.buf + a);
        } else {
            assert(seg[0] == a[0]);
            assert(s[i] == a[0]);
            let l1 = Lexer { buf: l.buf.push(a[0]), ..l };
            assert(lex(s, i, l) == lex(s, i + 1, l1));
            lemma_lex_sq_body(s, i + 1, rest, l1, o);
            assert(l1.buf + rest =~= l.buf + a);
        }
    }
}

/// Lexing the quoted form of `a` from between words yields a word holding `a`.
proof fn lemma_lex_quote(s: Seq<u8>, i: int, a: Seq<u8>, out: Seq<Seq<u8>>)
    requires
        0 <= i,
        i + spec_quote(a).len() <= s.len(),
        s.subrange(i, i + spec_quote(a).len()) == spec_quote(a),
    ensures
        lex(s, i, Lexer { mode: LexMode::Blank, out, buf: seq![], has_token: false }) == lex(
            s,
            i + spec_quote(a).len(),
            Lexer { mode: LexMode::Word, out, buf: a, has_token: true },
        ),
{
    let q = spec_quote(a);
    let l0 = Lexer { mode: LexMode::Blank, out, buf: seq![], has_token: false };
    assert(forall|j: int| 0 <= j < q.len() ==> s[i + j] == #[trigger] q[j]) by {
        assert forall|j: int| 0 <= j < q.len() implies s[i + j] == #[trigger] q[j] by {
            assert(s.subrange(i, i + q.len())[j] == s[i + j]);
        }
    }
    if a.len() == 0 {
        assert(s[i] == SQ && s[i + 1] == SQ);
        let l1 = Lexer { mode: LexMode::Single(i), has_token: true, ..l0 };
        let l2 = Lexer { mode: LexMode::Word, ..l1 };
        assert(lex(s, i, l0) == lex(s, i + 1, l1));
        assert(lex(s, i + 1, l1) == lex(s, i + 2, l2));
        assert(a =~= Seq::<u8>::empty());
    } else if all_safe(a) {
        assert(q == a);
        assert(s[i] == a[0]);
        assert(is_safe_byte(a[0]));
        let l1 = Lexer { mode: LexMode::Word, buf: seq![a[0]], has_token: true, ..l0 };
        assert(l0.buf.push(a[0]) =~= seq![a[0]]);
        assert(lex(s, i, l0) == lex(s, i + 1, l1));
        assert forall|j: int| i + 1 <= j < i + a.len() implies is_safe_byte(#[trigger] s[j]) by {
            assert(s[j] == q[j - i]);
        }
        lemma_lex_safe_run(s, i + 1, a.len() - 1, l1);
        assert(seq![a[0]] + s.subrange(i + 1, i + a.len()) =~= a) by {
            assert forall|j: int| 0 <= j < a.len() implies (seq![a[0]] + s.subrange(
                i + 1,
                i + a.len(),
            ))[j] == #[trigger] a[j] by {
                if j > 0 {
                    assert(s[i + j] == q[j]);
                }
            }
        }
    } else {
        assert(q == seq![SQ] + sq_body(a) + seq![SQ]);
        assert(q[0] == SQ);
        assert(s[i] == SQ);
        let l1 = Lexer { mode: LexMode::Single(i), has_token: true, ..l0 };
        assert(lex(s, i, l0) == lex(s, i + 1, l1));
        let n = sq_body(a).len();
        assert(s.subrange(i + 1, i + 1 + n + 1) =~= sq_body(a) + seq![SQ]) by {
            assert forall|j: int| 0 <= j < n + 1 implies s.subrange(i + 1, i + 1 + n + 1)[j] == (
            sq_body(a) + seq![SQ])[j] by {
                assert(s[i + 1 + j] == q[1 + j]);
            }
        }
        lemma_lex_sq_body(s, i + 1, a, l1, i);
        assert(l1.buf + a =~= a);
    }
}

/// Lexing a joined argument list from between words appends exactly those arguments.
proof fn lemma_lex_join(s: Seq<u8>, i: int, args: Seq<Seq<u8>>, out: Seq<Seq<u8>>)
    requires
        0 <= i <= s.len(),
        s.subrange(i, s.len() as int) == spec_join(args),
    ensures
        lex(s, i, Lexer { mode: LexMode::Blank, out, buf: seq![], has_token: false }) == Ok::<
            Seq<Seq<u8>>,
            QuoteError,
        >(out + args),
    decreases args.len(),
{
    if args.len() == 0 {
        assert(s.subrange(i, s.len() as int).len() == 0);
        assert(out + args =~= out);
    } else {
        let a = args[0];
        let q = spec_quote(a);
        let j = i + q.len();
        if args.len() == 1 {
            assert(spec_join(args) == q);
        } else {
            assert(spec_join(args) == q + seq![SPACE] + spec_join(args.drop_first()));
        }
        assert(j <= s.len());
        assert(spec_join(args).subrange(0, q.len() as int) =~= q);
        assert(s.subrange(i, j) =~= q) by {
            assert(s.subrange(i, j) =~= s.subrange(i, s.len() as int).subrange(0, q.len() as int));
        }
        lemma_lex_quote(s, i, a, out);
        let lw = Lexer { mode: LexMode::Word, out, buf: a, has_token: true };
        if args.len() == 1 {
            assert(j == s.len());
            assert(out + args =~= out.push(a));
        } else {
            let rest = args.drop_first();
            assert(spec_join(args) == q + seq![SPACE] + spec_join(rest));
            assert(s[j] == SPACE) by {
                assert(s.subrange(i, s.len() as int)[q.len() as int] == s[j]);
            }
            let lb = Lexer { mode: LexMode::Blank, out: out.push(a), buf: seq![], has_token: false };
            assert(lex(s, j, lw) == lex(s, j + 1, lb));
            assert(s.subrange(j + 1, s.len() as int) =~= spec_join(rest)) by {
                assert(s.subrange(j + 1, s.len() as int) =~= s.subrange(i, s.len() as int).subrange(
                    q.len() as int + 1,
                    s.len() - i,
                ));
            }
            lemma_lex_join(s, j + 1, rest, out.push(a));
            assert(out.push(a) + rest =~= out + args);
        }
    }
}

/// Round trip: splitting a joined argument list gives back exactly the arguments.
pub proof fn lemma_split_join_round_trip(args: Seq<Seq<u8>>)
    ensures
        spec_split(spec_join(args)) == Ok::<Seq<Seq<u8>>, QuoteError>(args),
{
    let s = spec_join(args);
    assert(s.subrange(0, s.len() as int) =~= s);
    lemma_lex_join(s, 0, args, seq![]);
    assert(Seq::<Seq<u8>>::empty() + args =~= args);
}

/// The quoted form of any byte string splits back into exactly that one word.
pub proof fn lemma_quote_is_one_word(a: Seq<u8>)
    ensures
        spec_split(spec_quote(a)) == Ok::<Seq<Seq<u8>>, QuoteError>(seq![a]),
{
    assert(seq![a][0] == a);
    assert(spec_join(seq![a]) == spec_quote(a));
    lemma_split_join_round_trip(seq![a]);
}


/// Any unquoted whitespace byte (space, tab, LF or CR) between two plain words
/// ends the first word: the two words split apart, and one such byte after a
/// word leaves that single word.
pub proof fn lemma_whitespace_separates_words(a: Seq<u8>, w: u8, b: Seq<u8>)
    requires
        a.len() > 0,
        b.len() > 0,
        all_safe(a),
        all_safe(b),
        w == SPACE || w == TAB || w == LF || w == CR,
    ensures
        spec_split(a + seq![w] + b) == Ok::<Seq<Seq<u8>>, QuoteError>(seq![a, b]),
        spec_split(a + seq![w]) == Ok::<Seq<Seq<u8>>, QuoteError>(seq![a]),
{
    let n = a.len() as int;
    let none: Seq<Seq<u8>> = seq![];
    let one = none.push(a);
    lemma_quote_safe_is_identity(a);
    lemma_quote_safe_is_identity(b);
    let lw = Lexer { mode: LexMode::Word, out: none, buf: a, has_token: true };
    let lb = Lexer { mode: LexMode::Blank, out: one, buf: seq![], has_token: false };
    assert(flush(lw) == Lexer { out: one, buf: Seq::<u8>::empty(), has_token: false, ..lw });

    let s = a + seq![w] + b;
    assert(s.subrange(0, n) =~= a);
    assert(s[n] == w);
    lemma_lex_quote(s, 0, a, none);
    assert(lex(s, n, lw) == lex(s, n + 1, lb));
    assert(s.subrange(n + 1, n + 1 + b.len()) =~= b);
    lemma_lex_quote(s, n + 1, b, one);
    assert(one.push(b) =~= seq![a, b]);

    let t = a + seq![w];
    assert(t.subrange(0, n) =~= a);
    assert(t[n] == w);
    lemma_lex_quote(t, 0, a, none);
    assert(lex(t, n, lw) == lex(t, n + 1, lb));
    assert(one =~= seq![a]);
}

proof fn lemma_lex_blank(s: Seq<u8>, i: int, out: Seq<Seq<u8>>)
    requires
        0 <= i <= s.len(),
        forall|j: int| i <= j < s.len() ==> is_ws_byte(#[trigger] s[j]),
    ensures
        lex(s, i, Lexer { mode: LexMode::Blank, out, buf: seq![], has_token: false }) == Ok::<
            Seq<Seq<u8>>,
            QuoteError,
        >(out),
    decreases s.len() - i,
{
    if i < s.len() {
        assert(is_ws_byte(s[i]));
        lemma_lex_blank(s, i + 1, out);
    }
}

/// Empty or whitespace-only input splits into no words.
pub proof fn lemma_split_blank_is_empty(s: Seq<u8>)
    requires
        forall|j: int| 0 <= j < s.len() ==> is_ws_byte(#[trigger] s[j]),
    ensures
        spec_split(s) == Ok::<Seq<Seq<u8>>, QuoteError>(seq![]),
{
    lemma_lex_blank(s, 0, seq![]);
}

proof fn lemma_lex_error_in_bounds(s: Seq<u8>, i: int, l: Lexer)
    requires
        0 <= i,
        s.len() <= usize::MAX,
        l.mode matches LexMode::Single(o) ==> 0 <= o < s.len(),
        l.mode matches LexMode::Double(o) ==> 0 <= o < s.len(),
    ensures
        lex(s, i, l) matches Err(e) ==> (e.pos as int) < s.len(),
    decreases s.len() - i,
{
    if i < s.len() {
        let c = s[i];
        match l.mode {
            LexMode::Blank => {
                if is_ws_byte(c) {
                    lemma_lex_error_in_bounds(s, i + 1, l);
                } else if c == SQ {
                    lemma_lex_error_in_bounds(
                        s,
                        i + 1,
                        Lexer { mode: LexMode::Single(i), has_token: true, ..l },
                    );
                } else if c == DQ {
                    lemma_lex_error_in_bounds(
                        s,
                        i + 1,
                        Lexer { mode: LexMode::Double(i), has_token: true, ..l },
                    );
                } else if c == BS {
                    if i + 1 >= s.len() {
                    } else if continuation_len(s, i) > 0 {
                        lemma_lex_error_in_bounds(s, i + continuation_len(s, i), l);
                    } else {
                        lemma_lex_error_in_bounds(
                            s,
                            i + 2,
                            Lexer {
                                mode: LexMode::Word,
                                buf: l.buf.push(s[i + 1]),
                                has_token: true,
                                ..l
                            },
                        );
                    }
                } else {
                    lemma_lex_error_in_bounds(
                        s,
                        i + 1,
                        Lexer { mode: LexMode::Word, buf: l.buf.push(c), has_token: true, ..l },
                    );
                }
            },
            LexMode::Word => {
                if is_ws_byte(c) {
                    lemma_lex_error_in_bounds(s, i + 1, Lexer { mode: LexMode::Blank, ..flush(l) });
                } else if c == SQ {
                    lemma_lex_error_in_bounds(s, i + 1, Lexer { mode: LexMode::Single(i), ..l });
                } else if c == DQ {
                    lemma_lex_error_in_bounds(s, i + 1, Lexer { mode: LexMode::Double(i), ..l });
                } else if c == BS {
                    if i + 1 >= s.len() {
                    } else if continuation_len(s, i) > 0 {
                        lemma_lex_error_in_bounds(s, i + continuation_len(s, i), l);
                    } else {
                        lemma_lex_error_in_bounds(s, i + 2, Lexer { buf: l.buf.push(s[i + 1]), ..l });
                    }
                } else {
                    lemma_lex_error_in_bounds(s, i + 1, Lexer { buf: l.buf.push(c), ..l });
                }
            },
            LexMode::Single(o) => {
                if c == SQ {
                    lemma_lex_error_in_bounds(s, i + 1, Lexer { mode: LexMode::Word, ..l });
                } else {
                    lemma_lex_error_in_bounds(s, i + 1, Lexer { buf: l.buf.push(c), ..l });
                }
            },
            LexMode::Double(o) => {
                if c == DQ {
                    lemma_lex_error_in_bounds(s, i + 1, Lexer { mode: LexMode::Word, ..l });
                } else if c == BS {
                    if i + 1 >= s.len() {
                    } else if continuation_len(s, i) > 0 {
                        lemma_lex_error_in_bounds(s, i + continuation_len(s, i), l);
                    } else if dq_escapable(s[i + 1]) {
                        lemma_lex_error_in_bounds(s, i + 2, Lexer { buf: l.buf.push(s[i + 1]), ..l });
                    } else {
                        lemma_lex_error_in_bounds(s, i + 1, Lexer { buf: l.buf.push(BS), ..l });
                    }
                } else {
                    lemma_lex_error_in_bounds(s, i + 1, Lexer { buf: l.buf.push(c), ..l });
                }
            },
        }
    }
}

/// A split error always points at a byte of the input.
pub proof fn lemma_split_error_within_input(s: Seq<u8>)
    requires
        s.len() <= usize::MAX,
    ensures
        spec_split(s) matches Err(e) ==> (e.pos as int) < s.len(),
{
    lemma_lex_error_in_bounds(s, 0, lexer_start());
}

proof fn lemma_sq_body_len(s: Seq<u8>)
    ensures
        sq_body(s).len() >= s.len(),
    decreases s.len(),
{
    if s.len() > 0 {
        lemma_sq_body_len(s.drop_first());
    }
}

/// A non-empty all-safe argument is written as is, so quoting it again changes nothing.
pub proof fn lemma_quote_safe_is_identity(s: Seq<u8>)
    requires
        s.len() > 0,
        all_safe(s),
    ensures
        spec_quote(s) == s,
        spec_quote(spec_quote(s)) == spec_quote(s),
{
}

/// Quoting is not idempotent on input that needs quoting: quoting the quoted
/// form again yields a different (longer) byte string.
pub proof fn lemma_quote_not_idempotent(s: Seq<u8>)
    requires
        !(s.len() > 0 && all_safe(s)),
    ensures
        spec_quote(spec_quote(s)) != spec_quote(s),
{
    let q = spec_quote(s);
    assert(q[0] == SQ);
    assert(!is_safe_byte(q[0]));
    assert(!all_safe(q));
    lemma_sq_body_len(q);
    assert(spec_quote(q).len() > q.len());
}

} // verus!
