use basalt::markdown::{parse, NoLookup, Token};
use basalt::model::Rgb;
use basalt::snowflake::Snowflake;

fn first(tokens: &[Token]) -> Option<&Token> {
    tokens.first()
}

#[test]
fn empty_input_yields_no_tokens() {
    let t = parse("", &NoLookup);
    assert!(t.is_empty(), "empty input should produce no tokens, got {t:?}");
}

#[test]
fn plain_text_emits_single_text() {
    let t = parse("hello world", &NoLookup);
    assert_eq!(t.len(), 1);
    assert!(matches!(&t[0], Token::Text(s) if s == "hello world"));
}

#[test]
fn bold_emits_bold_token() {
    let t = parse("**bold**", &NoLookup);
    assert_eq!(t.len(), 1);
    match &t[0] {
        Token::Bold(s) => assert_eq!(s, "bold"),
        other => panic!("expected Bold, got {other:?}"),
    }
}

#[test]
fn italic_emits_italic_token() {
    let t = parse(" *italic* ", &NoLookup);
    let italic = t.iter().find(|tok| matches!(tok, Token::Italic(_)));
    match italic {
        Some(Token::Italic(s)) => assert_eq!(s, "italic"),
        other => panic!("expected Italic, got {other:?}"),
    }
}

#[test]
fn inline_code_emits_code_token() {
    let t = parse("see `let x = 5;` here", &NoLookup);
    let code = t.iter().find(|tok| matches!(tok, Token::Code(_)));
    match code {
        Some(Token::Code(s)) => assert_eq!(s, "let x = 5;"),
        other => panic!("expected Code, got {other:?}"),
    }
}

#[test]
fn multiline_code_block_with_lang() {
    let input = "```rust\nfn main() {}\n```";
    let t = parse(input, &NoLookup);
    assert_eq!(t.len(), 1, "expected single CodeBlock token, got {t:?}");
    match &t[0] {
        Token::CodeBlock { lang, code } => {
            assert_eq!(lang.as_deref(), Some("rust"));
            assert_eq!(code, "fn main() {}");
        }
        other => panic!("expected CodeBlock, got {other:?}"),
    }
}

#[test]
fn multiline_code_block_without_lang() {
    let input = "```\nplain\ncode\n```";
    let t = parse(input, &NoLookup);
    assert_eq!(t.len(), 1, "got {t:?}");
    match &t[0] {
        Token::CodeBlock { lang, code } => {
            assert!(lang.is_none());
            assert_eq!(code, "plain\ncode");
        }
        other => panic!("expected CodeBlock, got {other:?}"),
    }
}

#[test]
fn unterminated_code_block_flushes_raw() {
    let input = "```rust\nfn main() {";
    let t = parse(input, &NoLookup);
    assert_eq!(t.len(), 1, "got {t:?}");
    match &t[0] {
        Token::CodeBlock { lang, code } => {
            assert_eq!(lang.as_deref(), Some("rust"));
            assert_eq!(code, "fn main() {");
        }
        other => panic!("expected CodeBlock, got {other:?}"),
    }
}

#[test]
fn user_mention_emits_user_mention() {
    let t = parse("hello <@12345>", &NoLookup);
    let mention = t.iter().find(|tok| matches!(tok, Token::UserMention { .. }));
    match mention {
        Some(Token::UserMention { id, label }) => {
            assert_eq!(u64::from(*id), 12345);
            assert!(label.starts_with('@'));
        }
        other => panic!("expected UserMention, got {other:?}"),
    }
}

#[test]
fn channel_mention_emits_channel_mention() {
    let t = parse("see <#67890>", &NoLookup);
    let m = t.iter().find(|tok| matches!(tok, Token::ChannelMention { .. }));
    match m {
        Some(Token::ChannelMention { id, .. }) => assert_eq!(u64::from(*id), 67890),
        other => panic!("expected ChannelMention, got {other:?}"),
    }
}

#[test]
fn url_emits_url_token() {
    let t = parse("https://example.com", &NoLookup);
    match first(&t) {
        Some(Token::Url { url, .. }) => assert_eq!(url, "https://example.com"),
        other => panic!("expected Url, got {other:?}"),
    }
}

#[test]
fn spoiler_token() {
    let t = parse("||secret||", &NoLookup);
    match first(&t) {
        Some(Token::Spoiler(s)) => assert_eq!(s, "secret"),
        other => panic!("expected Spoiler, got {other:?}"),
    }
}

#[test]
fn strike_token() {
    let t = parse("~~deleted~~", &NoLookup);
    match first(&t) {
        Some(Token::Strike(s)) => assert_eq!(s, "deleted"),
        other => panic!("expected Strike, got {other:?}"),
    }
}

#[test]
fn quote_emits_quote_token() {
    let t = parse("> quoted text", &NoLookup);
    match first(&t) {
        Some(Token::Quote(s)) => assert_eq!(s, "quoted text"),
        other => panic!("expected Quote, got {other:?}"),
    }
}

#[test]
fn multiline_text_emits_linebreaks() {
    let t = parse("line1\nline2\nline3", &NoLookup);
    let texts: Vec<&Token> = t.iter().filter(|tok| matches!(tok, Token::Text(_))).collect();
    let breaks: Vec<&Token> = t.iter().filter(|tok| matches!(tok, Token::LineBreak)).collect();
    assert_eq!(texts.len(), 3, "got {t:?}");
    assert_eq!(breaks.len(), 2, "got {t:?}");
}

#[test]
fn custom_emoji_animated() {
    let t = parse("<a:dance:7777>", &NoLookup);
    match first(&t) {
        Some(Token::CustomEmoji { animated, name, id, .. }) => {
            assert!(*animated);
            assert_eq!(name, "dance");
            assert_eq!(u64::from(*id), 7777);
        }
        other => panic!("expected CustomEmoji, got {other:?}"),
    }
}

#[test]
fn custom_emoji_static() {
    let t = parse("<:smile:1234>", &NoLookup);
    match first(&t) {
        Some(Token::CustomEmoji { animated, name, id, .. }) => {
            assert!(!*animated);
            assert_eq!(name, "smile");
            assert_eq!(u64::from(*id), 1234);
        }
        other => panic!("expected CustomEmoji, got {other:?}"),
    }
}

#[test]
fn mixed_inline_text_and_bold() {
    let t = parse("hello **world** end", &NoLookup);
    let mut it = t.iter();
    match it.next() {
        Some(Token::Text(s)) => assert_eq!(s, "hello "),
        other => panic!("expected Text, got {other:?}"),
    }
    match it.next() {
        Some(Token::Bold(s)) => assert_eq!(s, "world"),
        other => panic!("expected Bold, got {other:?}"),
    }
    match it.next() {
        Some(Token::Text(s)) => assert_eq!(s, " end"),
        other => panic!("expected Text, got {other:?}"),
    }
}

// ── Further cases ──

#[test]
fn role_mention_uses_lookup_label_and_color() {
    let t = parse("<@&42>", &NoLookup);
    assert_eq!(
        t,
        vec![Token::RoleMention {
            id: Snowflake::from_u64(42),
            label: "@role-42".into(),
            color: Rgb { r: 0xB5, g: 0xBA, b: 0xC1 },
        }]
    );
    let t = parse("<@!7>", &NoLookup);
    assert_eq!(t, vec![Token::UserMention { id: Snowflake::from_u64(7), label: "@7".into() }]);
}

#[test]
fn single_line_code_block_splits_language() {
    let t = parse("```rust let x = 1;```", &NoLookup);
    assert_eq!(t, vec![Token::CodeBlock { lang: Some("rust let x".into()), code: "= 1;".into() }]);
    let t = parse("```abc```", &NoLookup);
    assert_eq!(t, vec![Token::CodeBlock { lang: Some("abc".into()), code: String::new() }]);
}

#[test]
fn quote_then_text_gets_paragraph_break() {
    let t = parse("> a\nb", &NoLookup);
    assert_eq!(t, vec![Token::Quote("a".into()), Token::ParagraphBreak, Token::Text("b".into())]);
}

#[test]
fn emoji_url_and_bad_ids_stay_text() {
    let t = parse("<:x:12>", &NoLookup);
    match &t[0] {
        Token::CustomEmoji { url, .. } => {
            assert_eq!(url, "https://cdn.discordapp.com/emojis/12.webp?size=48&quality=lossless")
        }
        other => panic!("expected CustomEmoji, got {other:?}"),
    }
    assert_eq!(parse("<@abc>", &NoLookup), vec![Token::Text("<@abc>".into())]);
    assert_eq!(parse("a*b*", &NoLookup), vec![Token::Text("a*b*".into())]);
}

#[test]
fn url_stops_at_whitespace_and_needs_host() {
    let t = parse("go https://x.org/p now", &NoLookup);
    assert_eq!(
        t,
        vec![
            Token::Text("go ".into()),
            Token::Url { url: "https://x.org/p".into(), label: None },
            Token::Text(" now".into()),
        ]
    );
    assert_eq!(parse("http://", &NoLookup), vec![Token::Text("http://".into())]);
}

#[test]
fn bold_italic_underline() {
    assert_eq!(parse("***x***", &NoLookup), vec![Token::BoldItalic("x".into())]);
    assert_eq!(parse("__u__", &NoLookup), vec![Token::Underline("u".into())]);
}
