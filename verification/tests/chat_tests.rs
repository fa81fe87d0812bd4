use basalt::chat::ChatState;
use basalt::snowflake::Snowflake;

fn chat_with(input: &str) -> ChatState {
    let mut c = ChatState::default();
    c.input = input.to_string();
    c
}

#[test]
fn chat_state_defaults() {
    let c = ChatState::default();
    assert!(c.input.is_empty());
    assert!(c.reply_to.is_none());
    assert!(c.spoilers_revealed.is_empty());
    assert!(c.auto_scroll);
    assert!(c.want_composer_focus);
    assert!(c.reaction_picker_for.is_none());
    assert!(c.reaction_search.is_empty());
    assert!(c.reaction_picker_opened.is_none());
    assert!(c.send_error.is_none());
}

#[test]
fn one_enter_sends_once() {
    let mut c = chat_with("  hello world \n");
    c.send_error = Some("earlier failure".to_string());
    let req = c.compose_send(Some(Snowflake::from_u64(42)), Snowflake::from_u64(7)).expect("a send");
    assert_eq!(req.0, Snowflake::from_u64(42));
    assert_eq!(req.1.content.as_deref(), Some("hello world"));
    assert_eq!(req.1.nonce.as_deref(), Some("7"));
    assert_eq!(req.2, "7");
    assert_eq!(req.1.tts, Some(false));
    assert!(req.1.message_reference.is_none());
    let am = req.1.allowed_mentions.as_ref().expect("allowed mentions");
    assert_eq!(am.parse, vec!["users".to_string(), "roles".to_string()]);
    assert!(c.input.is_empty(), "input clears after send");
    assert!(c.send_error.is_none());
    // A second press before typing again sends nothing.
    assert!(c.compose_send(Some(Snowflake::from_u64(42)), Snowflake::from_u64(8)).is_none());
}

#[test]
fn two_presses_two_sends_with_distinct_nonces() {
    let mut c = chat_with("first");
    let a = c.compose_send(Some(Snowflake::from_u64(1)), Snowflake::from_u64(100)).unwrap();
    c.input = "second".to_string();
    let b = c.compose_send(Some(Snowflake::from_u64(1)), Snowflake::from_u64(101)).unwrap();
    assert_eq!(a.1.content.as_deref(), Some("first"));
    assert_eq!(b.1.content.as_deref(), Some("second"));
    assert_ne!(a.2, b.2);
}

#[test]
fn blank_draft_or_no_channel_sends_nothing() {
    let mut c = chat_with("   ");
    assert!(c.compose_send(Some(Snowflake::from_u64(1)), Snowflake::from_u64(5)).is_none());
    assert_eq!(c.input, "   ", "the draft is kept");
    let mut d = chat_with("hello");
    d.reply_to = Some(Snowflake::from_u64(9));
    assert!(d.compose_send(None, Snowflake::from_u64(5)).is_none());
    assert_eq!(d.input, "hello");
    assert_eq!(d.reply_to, Some(Snowflake::from_u64(9)));
}

#[test]
fn reply_reference_is_taken() {
    let mut c = chat_with("yes");
    c.reply_to = Some(Snowflake::from_u64(555));
    let req = c.compose_send(Some(Snowflake::from_u64(3)), Snowflake::from_u64(1)).unwrap();
    let r = req.1.message_reference.as_ref().expect("reply");
    assert_eq!(r.message_id, Some(Snowflake::from_u64(555)));
    assert_eq!(r.channel_id, Some(Snowflake::from_u64(3)));
    assert!(r.guild_id.is_none());
    assert!(c.reply_to.is_none());
}

#[test]
fn typing_labels() {
    let n = |v: &[&str]| v.iter().map(|s| s.to_string()).collect::<Vec<String>>();
    assert_eq!(basalt::chat::typing_label(&n(&[])), None);
    assert_eq!(basalt::chat::typing_label(&n(&["alice"])).as_deref(), Some("alice is typing..."));
    assert_eq!(basalt::chat::typing_label(&n(&["alice", "bob"])).as_deref(), Some("alice and bob are typing..."));
    assert_eq!(
        basalt::chat::typing_label(&n(&["alice", "bob", "carol", "dan"])).as_deref(),
        Some("alice and 3 others are typing...")
    );
}
