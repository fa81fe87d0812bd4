use basalt::scrub::{redact, set_live_token};

#[test]
fn live_token_is_replaced() {
    let tok = set_live_token("MTU0NDk4MDg0NTI4OTQxMDU3MA.ABCDEF.hijklmnopqrstuvwxyz123456");
    let line = "connect failed with token MTU0NDk4MDg0NTI4OTQxMDU3MA.ABCDEF.hijklmnopqrstuvwxyz123456 in state";
    let out = redact(line, tok.as_deref());
    assert!(out.contains("[REDACTED]"));
    assert!(!out.contains("hijklmnopqrstuvwxyz"));
}

#[test]
fn generic_bot_token_shape_is_scrubbed() {
    let out = redact("dump: 123456789012345678901234.a1b2c3.abcdefghijklmnopqrstuvwxyzA1B2C3", None);
    assert!(out.contains("[REDACTED."), "got: {out}");
    assert!(!out.contains("abcdefghijklmnopqrstuvwxyzA1B2C3"));
}

#[test]
fn mfa_token_shape_is_scrubbed() {
    let out = redact("auth=mfa.abcdefghijklmnopqrstuvwxyzabcdef", None);
    assert_eq!(out, "auth=mfa.[REDACTED]");
}

#[test]
fn authorization_header_value_is_scrubbed() {
    let out = redact("request Authorization: Bot 1234567890abcdefghij done", None);
    assert!(!out.contains("1234567890abcdefghij"), "got: {out}");
    assert!(out.contains("[REDACTED]"));
}

#[test]
fn ordinary_text_is_untouched() {
    let tok = set_live_token("zzz-not-set-xyz");
    let line = "guild create for server 12345 with 67 channels";
    assert_eq!(redact(line, tok.as_deref()), line);
}

#[test]
fn uuid_like_words_are_not_scrubbed() {
    let line = "message id 1544986413471371336 in channel";
    assert_eq!(redact(line, None), line);
}

// ── Further cases ──

#[test]
fn blank_live_token_is_not_kept() {
    assert_eq!(set_live_token("   "), None);
    assert_eq!(set_live_token("  abc \n").as_deref(), Some("abc"));
}

#[test]
fn exact_redaction_shapes() {
    assert_eq!(
        redact("x 123456789012345678901234.a1b2c3.abcdefghijklmnopqrstuvwxyzA1B2C3 y", None),
        "x [REDACTED..] y"
    );
    let long = "a".repeat(72);
    assert_eq!(redact(&format!("k={long} x."), None), "k=[REDACTED] x.");
    assert_eq!(redact(&format!("k={long}."), None), format!("k={long}."));
    assert_eq!(redact("mfa.short", None), "mfa.short");
    assert_eq!(
        redact("AUTHORIZATION:   bearer abcdefghij.k rest", None),
        "AUTHORIZATION:   bearer [REDACTED] rest"
    );
    assert_eq!(redact("authorization: bot short", None), "authorization: bot short");
}

#[test]
fn live_token_everywhere() {
    let tok = set_live_token("secret-tok");
    assert_eq!(redact("a secret-tok b secret-tok", tok.as_deref()), "a [REDACTED] b [REDACTED]");
}

#[test]
fn upper_case_header_is_masked() {
    assert_eq!(
        redact("AUTHORIZATION: Bot 1234567890abcdefghij", None),
        "AUTHORIZATION: Bot [REDACTED]"
    );
}

#[test]
fn every_header_on_a_line_is_masked() {
    let line = "Authorization: Bot AAAAAAAAAAAAAAAAAAAA Authorization: Bot BBBBBBBBBBBBBBBBBBBB";
    assert_eq!(
        redact(line, None),
        "Authorization: Bot [REDACTED] Authorization: Bot [REDACTED]"
    );
}

#[test]
fn ordinary_lines_come_back_unchanged() {
    for line in [
        "guild create for server 12345 with 67 channels",
        "message id 1544986413471371336 in channel",
    ] {
        assert_eq!(redact(line, None), line);
    }
}

#[test]
fn live_token_never_survives() {
    let tok = "MTU0NDk4MDg0NTI4OTQxMDU3MA.ABCDEF.hijklmnopqrstuvwxyz123456";
    for line in [
        "token MTU0NDk4MDg0NTI4OTQxMDU3MA.ABCDEF.hijklmnopqrstuvwxyz123456 twice MTU0NDk4MDg0NTI4OTQxMDU3MA.ABCDEF.hijklmnopqrstuvwxyz123456",
        "Authorization: Bot MTU0NDk4MDg0NTI4OTQxMDU3MA.ABCDEF.hijklmnopqrstuvwxyz123456",
        "xMTU0NDk4MDg0NTI4OTQxMDU3MA.ABCDEF.hijklmnopqrstuvwxyz123456y",
    ] {
        let out = basalt::scrub::redact(line, Some(tok));
        assert!(!out.contains(tok), "got: {out}");
    }
}

#[test]
fn new_sign_in_replaces_the_masked_token() {
    let first = set_live_token("first-token-aaaa");
    assert_eq!(redact("tok first-token-aaaa end", first.as_deref()), "tok [REDACTED] end");
    let second = set_live_token("  second-token-bbbb ");
    assert_eq!(second.as_deref(), Some("second-token-bbbb"));
    assert_eq!(redact("tok second-token-bbbb end", second.as_deref()), "tok [REDACTED] end");
}
