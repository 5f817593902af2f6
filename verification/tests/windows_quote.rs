use subprocess::quote::windows::{first_token_and_rest_wide, first_token_wide, join_wide};

fn w(s: &str) -> Vec<u16> {
    s.encode_utf16().collect()
}
fn jw(args: &[&str]) -> String {
    let wides: Vec<Vec<u16>> = args.iter().map(|a| w(a)).collect();
    let refs: Vec<&[u16]> = wides.iter().map(|v| v.as_slice()).collect();
    String::from_utf16(&join_wide(&refs)).unwrap()
}

#[test]
fn simple_args_separated_by_space() {
    assert_eq!(jw(&["a", "b"]), "a b");
}

#[test]
fn args_with_space_or_tab_are_quoted() {
    assert_eq!(jw(&["a b"]), "\"a b\"");
    assert_eq!(jw(&["a\tb"]), "\"a\tb\"");
}

#[test]
fn empty_arg_becomes_empty_quotes() {
    assert_eq!(jw(&["a", "", "b"]), "a \"\" b");
}

#[test]
fn embedded_quote_is_backslash_escaped() {
    // a"b  ->  a\"b
    assert_eq!(jw(&["a\"b"]), "a\\\"b");
}

#[test]
fn empty_argv_returns_empty_vec() {
    let empty: Vec<&[u16]> = vec![];
    assert_eq!(join_wide(&empty), Vec::<u16>::new());
}

#[test]
fn lone_surrogate_passes_through_verbatim() {
    // 0xD800 is an unpaired surrogate — not representable in a Rust `String`,
    // which is the core justification for the u16-based API: routing through
    // String would lose or corrupt these code units. The surrogate is not a
    // space/tab/quote/backslash, so no quoting is applied.
    let arg: &[u16] = &[b'a' as u16, 0xD800u16, b'b' as u16];
    let result = join_wide(&[arg]);
    assert_eq!(result, &[b'a' as u16, 0xD800u16, b'b' as u16]);
}

#[test]
fn lone_backslashes_not_before_quote_stay_literal() {
    assert_eq!(jw(&["a\\b"]), "a\\b");
    assert_eq!(jw(&["a\\"]), "a\\");
}

#[test]
fn multiple_consecutive_backslashes_unquoted_stay_literal() {
    // Four backslashes between letters with no spaces: no quoting triggered,
    // so the backslashes must not be doubled.
    assert_eq!(jw(&["a\\\\\\\\b"]), "a\\\\\\\\b");
}

#[test]
fn backslashes_before_quote_are_doubled_plus_one() {
    // a\"b  ->  a\\\"b   (one backslash + escaped quote)
    assert_eq!(jw(&["a\\\"b"]), "a\\\\\\\"b");
}

#[test]
fn trailing_backslashes_doubled_before_closing_quote() {
    assert_eq!(jw(&["a\\ b"]), "\"a\\ b\""); // single backslash, space forces quotes
    assert_eq!(jw(&["a b\\"]), "\"a b\\\\\""); // trailing \ doubled before closing "
}

fn first(s: &str) -> Option<String> {
    first_token_wide(&w(s)).map(|t| String::from_utf16(&t).unwrap())
}

fn split_first(s: &str) -> Option<(String, String)> {
    first_token_and_rest_wide(&w(s)).map(|(a, b)| (String::from_utf16(&a).unwrap(), String::from_utf16(&b).unwrap()))
}

#[test]
fn first_token_and_rest_splits_unquoted() {
    assert_eq!(
        split_first("git status --short"),
        Some(("git".into(), "status --short".into()))
    );
}

#[test]
fn first_token_and_rest_splits_quoted_program_with_spaces() {
    assert_eq!(
        split_first("\"C:\\Program Files\\app.exe\" --flag x"),
        Some(("C:\\Program Files\\app.exe".into(), "--flag x".into()))
    );
}

#[test]
fn first_token_and_rest_empty_rest() {
    assert_eq!(split_first("solo"), Some(("solo".into(), "".into())));
}

#[test]
fn first_token_and_rest_none_for_blank() {
    assert_eq!(split_first("   "), None);
}

#[test]
fn first_token_stops_at_whitespace() {
    assert_eq!(first("git status --short").as_deref(), Some("git"));
}

#[test]
fn first_token_skips_leading_whitespace_by_design() {
    // Deliberate deviation from CommandLineToArgvW argv[0] (which does NOT skip):
    // we resolve a program from a user command line, so leading blanks are ignored.
    assert_eq!(first("   \t cmd arg").as_deref(), Some("cmd"));
}

#[test]
fn quoted_first_token_spans_to_closing_quote() {
    assert_eq!(
        first("\"C:\\Program Files\\app.exe\" --flag").as_deref(),
        Some("C:\\Program Files\\app.exe")
    );
}

#[test]
fn unterminated_opening_quote_consumes_to_end() {
    assert_eq!(first("\"C:\\no close").as_deref(), Some("C:\\no close"));
}

#[test]
fn backslashes_are_literal_in_first_token() {
    assert_eq!(first("C:\\bin\\tool.exe x").as_deref(), Some("C:\\bin\\tool.exe"));
}

#[test]
fn empty_or_whitespace_only_has_no_first_token() {
    assert_eq!(first(""), None);
    assert_eq!(first("   \t "), None);
}

#[test]
fn mid_token_embedded_quotes_are_not_terminators() {
    // In the unquoted branch, `"` is not a space/tab so the token continues
    // through it; quotes mid-token are passed through verbatim.
    assert_eq!(first("a\"b\"c").as_deref(), Some("a\"b\"c"));
}

#[test]
fn bare_empty_quotes_yield_empty_token() {
    // `""` enters the quoted branch; the inner loop exits immediately on the
    // closing quote, returning an empty token rather than None.
    assert_eq!(first("\"\"").as_deref(), Some(""));
}

/// The documented MSVCRT argument rules (arguments after the program name).
fn msvcrt_parse(s: &[u16]) -> Vec<Vec<u16>> {
    let (bs_unit, quote, space, tab) = (b'\\' as u16, b'"' as u16, b' ' as u16, b'\t' as u16);
    let mut args = Vec::new();
    let mut cur: Vec<u16> = Vec::new();
    let mut bs = 0usize;
    let mut inq = false;
    let mut started = false;
    for &c in s {
        if c == bs_unit {
            bs += 1;
            started = true;
        } else if c == quote {
            cur.extend(std::iter::repeat_n(bs_unit, bs / 2));
            if bs % 2 == 1 {
                cur.push(quote);
            } else {
                inq = !inq;
            }
            bs = 0;
            started = true;
        } else if (c == space || c == tab) && !inq {
            if started {
                cur.extend(std::iter::repeat_n(bs_unit, bs));
                args.push(std::mem::take(&mut cur));
                bs = 0;
                started = false;
            }
        } else {
            cur.extend(std::iter::repeat_n(bs_unit, bs));
            cur.push(c);
            bs = 0;
            started = true;
        }
    }
    if started {
        cur.extend(std::iter::repeat_n(bs_unit, bs));
        args.push(cur);
    }
    args
}

#[test]
fn join_wide_round_trips_through_msvcrt_rules() {
    let cases: Vec<Vec<&str>> = vec![
        vec![],
        vec!["plain", "args"],
        vec!["has space", "a\"b", "a\\b", "a\\\"b", "trail\\", "", "tab\tx"],
        vec!["prefix", "a\\\\\\\\ b"],
        vec!["\"", "\\", "\\\\\"", "\" \\", ""],
    ];
    for case in cases {
        let wides: Vec<Vec<u16>> = case.iter().map(|a| w(a)).collect();
        let refs: Vec<&[u16]> = wides.iter().map(|v| v.as_slice()).collect();
        let line = join_wide(&refs);
        assert_eq!(msvcrt_parse(&line), wides, "round-trip mismatch for {:?}", case);
    }
}

#[test]
fn join_wide_round_trips_the_whole_argv_with_a_plain_program() {
    let cases: Vec<Vec<&str>> = vec![
        vec!["plain"],
        vec!["plain", "args"],
        vec!["C:\\bin\\tool.exe", "has space", "a\"b", "a\\b", "a\\\"b", "trail\\", "", "tab\tx"],
        vec!["prefix", "a\\\\\\\\ b"],
    ];
    for case in cases {
        let wides: Vec<Vec<u16>> = case.iter().map(|a| w(a)).collect();
        let refs: Vec<&[u16]> = wides.iter().map(|v| v.as_slice()).collect();
        let line = join_wide(&refs);
        let (program, rest) = first_token_and_rest_wide(&line).expect("a program token");
        let mut argv = vec![program];
        argv.extend(msvcrt_parse(&rest));
        assert_eq!(argv, wides, "argv mismatch for {:?}", case);
    }
}
