use subprocess::error::{Error, QuoteError, QuoteErrorKind};

#[test]
fn quote_error_displays_kind_and_offset() {
    let e = QuoteError::new(7, QuoteErrorKind::UnterminatedSingleQuote);
    assert_eq!(e.message(), "unterminated single quote at offset 7");
}

#[test]
fn quote_error_kinds_have_distinct_messages() {
    assert_eq!(
        QuoteErrorKind::UnterminatedDoubleQuote.message(),
        "unterminated double quote"
    );
    assert_eq!(
        QuoteErrorKind::TrailingBackslash.message(),
        "trailing backslash"
    );
}

#[test]
fn error_wraps_quote_error_via_from() {
    let e: Error = QuoteError::new(0, QuoteErrorKind::TrailingBackslash).into();
    assert!(matches!(e, Error::Quote(_)));
    assert!(e.message().contains("trailing backslash"));
}

#[test]
fn quote_error_message_is_exact() {
    let e: Error = QuoteError::new(12, QuoteErrorKind::UnterminatedDoubleQuote).into();
    assert_eq!(e.message(), "argument parsing failed: unterminated double quote at offset 12");
}

#[test]
fn unsupported_and_containment_messages() {
    let e = Error::Unsupported {
        op: "pty".to_string(),
        platform: "linux",
        detail: "not built".to_string(),
    };
    assert_eq!(e.message(), "pty is not supported on linux: not built");
    let c = Error::Containment { detail: "gone".to_string() };
    assert_eq!(c.message(), "process containment failed: gone");
}
