use basalt::events::{Event, MessageDelete, MessageDeleteBulk, PartialMessage, ReactionEvent};
use basalt::model::{Channel, ChannelType, Guild, Message, PartialUser, PresenceUpdate, ReactionEmoji, User};
use basalt::snowflake::Snowflake;
use basalt::state::{AppState, Selection, MAX_CACHED_USERS, MAX_MESSAGES_PER_CHANNEL, TYPING_WINDOW_MS};

fn msg(id: u64, channel: u64, content: &str) -> Message {
    let mut m = Message::default();
    m.id = Snowflake::from_u64(id);
    m.channel_id = Snowflake::from_u64(channel);
    m.content = content.to_string();
    m
}

fn user(id: u64, name: &str) -> User {
    let mut u = User::default();
    u.id = Snowflake::from_u64(id);
    u.username = name.to_string();
    u
}

fn fire() -> ReactionEvent {
    ReactionEvent {
        channel_id: Some("42".to_string()),
        message_id: Some("1".to_string()),
        emoji: Some(ReactionEmoji { id: None, name: Some("🔥".to_string()), animated: false }),
    }
}

#[test]
fn per_channel_cache_isolated() {
    let mut s = AppState::new();
    s.set_messages(Snowflake::from_u64(1), vec![msg(10, 1, "a")]);
    s.set_messages(Snowflake::from_u64(2), vec![msg(20, 2, "b")]);
    assert_eq!(s.messages_for(Snowflake::from_u64(1)).len(), 1);
    assert_eq!(s.messages_for(Snowflake::from_u64(2)).len(), 1);
    assert_eq!(s.messages_for(Snowflake::from_u64(3)).len(), 0);
    assert!(s.is_fetched(Snowflake::from_u64(1)));
    assert!(!s.is_fetched(Snowflake::from_u64(3)));
}

#[test]
fn dispatch_message_create_appends_to_channel() {
    let mut s = AppState::new();
    s.dispatch_event(Event::MessageCreate { d: msg(1, 42, "hello") }, 0);
    s.dispatch_event(Event::MessageCreate { d: msg(2, 43, "other channel") }, 0);
    assert_eq!(s.messages_for(Snowflake::from_u64(42)).len(), 1);
    assert_eq!(s.messages_for(Snowflake::from_u64(43)).len(), 1);
}

#[test]
fn duplicate_message_not_duplicated() {
    let mut s = AppState::new();
    s.dispatch_event(Event::MessageCreate { d: msg(1, 42, "hello") }, 0);
    s.dispatch_event(Event::MessageCreate { d: msg(1, 42, "hello") }, 0);
    assert_eq!(s.messages_for(Snowflake::from_u64(42)).len(), 1);
}

#[test]
fn unread_bumps_only_for_other_channels() {
    let mut s = AppState::new();
    s.set_selection(Selection { guild_id: None, channel_id: Some(Snowflake::from_u64(7)) });
    s.dispatch_event(Event::MessageCreate { d: msg(1, 7, "live") }, 0);
    s.dispatch_event(Event::MessageCreate { d: msg(2, 9, "away") }, 0);
    assert_eq!(s.unread_count(Snowflake::from_u64(7)), 0);
    assert_eq!(s.unread_count(Snowflake::from_u64(9)), 1);
    s.mark_read(Snowflake::from_u64(9));
    assert_eq!(s.unread_count(Snowflake::from_u64(9)), 0);
}

#[test]
fn mention_count_for_mentioned_user() {
    let mut s = AppState::new();
    let me = user(100, "me");
    s.set_current_user(Some(me.clone()));
    let mut m = msg(1, 9, "hi");
    m.mentions.push(me);
    s.dispatch_event(Event::MessageCreate { d: m }, 0);
    assert_eq!(s.mention_count(Snowflake::from_u64(9)), 1);
    assert_eq!(s.total_mentions(), 1);
}

#[test]
fn presence_map_updates() {
    let mut s = AppState::new();
    s.set_presence(Snowflake::from_u64(5), "idle");
    assert_eq!(s.presence(Snowflake::from_u64(5)).as_deref(), Some("idle"));
    assert_eq!(s.presence(Snowflake::from_u64(6)), None);
}

#[test]
fn typing_expires() {
    let mut s = AppState::new();
    let t0: u64 = 1_000_000;
    s.set_typing(Snowflake::from_u64(1), Snowflake::from_u64(2), "alice", t0);
    assert_eq!(s.typing_in(Snowflake::from_u64(1), t0), vec!["alice".to_string()]);
    // One second past the window.
    assert!(s.typing_in(Snowflake::from_u64(1), t0 + TYPING_WINDOW_MS + 1_000).is_empty());
}

#[test]
fn stale_rest_response_keeps_live_cache() {
    let mut s = AppState::new();
    // Gateway delivered a live message (id 50).
    s.dispatch_event(Event::MessageCreate { d: msg(50, 42, "live") }, 0);
    // A late REST response only has older messages (id 10).
    s.set_messages(Snowflake::from_u64(42), vec![msg(10, 42, "rest")]);
    let msgs = s.messages_for(Snowflake::from_u64(42));
    assert_eq!(msgs.len(), 1);
    assert_eq!(msgs[0].id, Snowflake::from_u64(50));
}

#[test]
fn reaction_add_updates_cached_message() {
    let mut s = AppState::new();
    s.dispatch_event(Event::MessageCreate { d: msg(1, 42, "react to me") }, 0);
    let d = fire();
    s.apply_reaction(&d, true);
    let msgs = s.messages_for(Snowflake::from_u64(42));
    assert_eq!(msgs[0].reactions.len(), 1);
    assert_eq!(msgs[0].reactions[0].count, 1);
    s.apply_reaction(&d, true);
    assert_eq!(s.messages_for(Snowflake::from_u64(42))[0].reactions[0].count, 2);
    s.apply_reaction(&d, false);
    assert_eq!(s.messages_for(Snowflake::from_u64(42))[0].reactions[0].count, 1);
    s.apply_reaction(&d, false);
    assert_eq!(s.messages_for(Snowflake::from_u64(42))[0].reactions.len(), 0);
}

#[test]
fn reaction_events_go_through_dispatch() {
    let mut s = AppState::new();
    s.dispatch_event(Event::MessageCreate { d: msg(1, 42, "x") }, 0);
    s.dispatch_event(Event::MessageReactionAdd { d: fire() }, 0);
    assert_eq!(s.messages_for(Snowflake::from_u64(42))[0].reactions[0].count, 1);
    s.dispatch_event(Event::MessageReactionRemove { d: fire() }, 0);
    assert!(s.messages_for(Snowflake::from_u64(42))[0].reactions.is_empty());
}

#[test]
fn reaction_with_bad_ids_is_ignored() {
    let mut s = AppState::new();
    s.dispatch_event(Event::MessageCreate { d: msg(1, 42, "x") }, 0);
    let mut d = fire();
    d.channel_id = Some("forty-two".to_string());
    s.apply_reaction(&d, true);
    assert!(s.messages_for(Snowflake::from_u64(42))[0].reactions.is_empty());
    let mut d2 = fire();
    d2.message_id = Some("2".to_string());
    s.apply_reaction(&d2, true);
    assert!(s.messages_for(Snowflake::from_u64(42))[0].reactions.is_empty());
}

#[test]
fn channel_history_is_capped_to_newest() {
    let mut s = AppState::new();
    let n = MAX_MESSAGES_PER_CHANNEL as u64 + 5;
    for i in 1..=n {
        s.dispatch_event(Event::MessageCreate { d: msg(i, 3, "m") }, 0);
    }
    let msgs = s.messages_for(Snowflake::from_u64(3));
    assert_eq!(msgs.len(), MAX_MESSAGES_PER_CHANNEL);
    assert_eq!(msgs[0].id, Snowflake::from_u64(6));
    assert_eq!(msgs[msgs.len() - 1].id, Snowflake::from_u64(n));
    // A REST page longer than the cap keeps its newest messages.
    let page: Vec<Message> = (1..=150u64).map(|i| msg(1000 + i, 4, "p")).collect();
    s.set_messages(Snowflake::from_u64(4), page);
    let msgs = s.messages_for(Snowflake::from_u64(4));
    assert_eq!(msgs.len(), MAX_MESSAGES_PER_CHANNEL);
    assert_eq!(msgs[0].id, Snowflake::from_u64(1051));
}

#[test]
fn selecting_a_channel_marks_it_read() {
    let mut s = AppState::new();
    s.dispatch_event(Event::MessageCreate { d: msg(1, 9, "away") }, 0);
    assert_eq!(s.unread_count(Snowflake::from_u64(9)), 1);
    s.set_selection(Selection { guild_id: None, channel_id: Some(Snowflake::from_u64(9)) });
    assert_eq!(s.unread_count(Snowflake::from_u64(9)), 0);
}

#[test]
fn everyone_mention_counts_and_totals_add_up() {
    let mut s = AppState::new();
    let mut a = msg(1, 1, "@everyone");
    a.mention_everyone = true;
    let mut b = msg(2, 2, "@everyone");
    b.mention_everyone = true;
    let mut c = msg(3, 2, "@everyone again");
    c.mention_everyone = true;
    s.dispatch_event(Event::MessageCreate { d: a }, 0);
    s.dispatch_event(Event::MessageCreate { d: b }, 0);
    s.dispatch_event(Event::MessageCreate { d: c }, 0);
    assert_eq!(s.mention_count(Snowflake::from_u64(2)), 2);
    assert_eq!(s.total_mentions(), 3);
    assert_eq!(s.checked_total_mentions(), Some(3));
}

#[test]
fn user_lru_keeps_latest_record_and_caps() {
    let mut s = AppState::new();
    s.touch_user(&user(1, "old"), 1);
    s.touch_user(&user(1, "new"), 2);
    assert_eq!(s.user(Snowflake::from_u64(1)).unwrap().username, "new");
    for i in 0..(MAX_CACHED_USERS as u64 + 1) {
        s.touch_user(&user(10 + i, "u"), 3);
    }
    // The least recently touched id (1) was evicted.
    assert!(s.user(Snowflake::from_u64(1)).is_none());
    assert!(s.user(Snowflake::from_u64(10 + MAX_CACHED_USERS as u64)).is_some());
}

#[test]
fn message_update_and_deletes() {
    let mut s = AppState::new();
    s.dispatch_event(Event::MessageCreate { d: msg(1, 5, "one") }, 0);
    s.dispatch_event(Event::MessageCreate { d: msg(2, 5, "two") }, 0);
    s.dispatch_event(Event::MessageCreate { d: msg(3, 5, "three") }, 0);
    let mut up = PartialMessage::default();
    up.id = Snowflake::from_u64(2);
    up.channel_id = Snowflake::from_u64(5);
    up.content = Some("deux".to_string());
    up.edited_timestamp = Some("2024-01-01T00:00:00Z".to_string());
    s.dispatch_event(Event::MessageUpdate { d: up }, 0);
    let msgs = s.messages_for(Snowflake::from_u64(5));
    assert_eq!(msgs[1].content, "deux");
    assert_eq!(msgs[1].edited_timestamp.as_deref(), Some("2024-01-01T00:00:00Z"));
    assert_eq!(msgs[0].content, "one");
    let del = MessageDelete { id: Snowflake::from_u64(1), channel_id: Snowflake::from_u64(5), guild_id: None };
    s.dispatch_event(Event::MessageDelete { d: del }, 0);
    assert_eq!(s.messages_for(Snowflake::from_u64(5)).len(), 2);
    let bulk = MessageDeleteBulk {
        ids: vec![Snowflake::from_u64(2), Snowflake::from_u64(3)],
        channel_id: Snowflake::from_u64(5),
        guild_id: None,
    };
    s.dispatch_event(Event::MessageDeleteBulk { d: bulk }, 0);
    assert!(s.messages_for(Snowflake::from_u64(5)).is_empty());
}

#[test]
fn first_dm_message_registers_channel_or_asks_for_fetch() {
    let mut s = AppState::new();
    let mut m = msg(7, 77, "hey");
    m.author = user(5, "friend");
    let fetch = s.dispatch_event(Event::MessageCreate { d: m }, 0);
    assert_eq!(fetch, None);
    let dms = s.dm_channels();
    assert_eq!(dms.len(), 1);
    assert_eq!(dms[0].id, Snowflake::from_u64(77));
    assert_eq!(dms[0].kind, ChannelType::Dm);
    assert_eq!(dms[0].last_message_id, Some(Snowflake::from_u64(7)));
    assert_eq!(dms[0].recipients[0].username, "friend");
    // Our own message in an unknown DM: the channel must be fetched.
    s.set_current_user(Some(user(100, "me")));
    let mut mine = msg(8, 88, "hello");
    mine.author = user(100, "me");
    let fetch = s.dispatch_event(Event::MessageCreate { d: mine }, 0);
    assert_eq!(fetch, Some(Snowflake::from_u64(88)));
    let mut ch = Channel::default();
    ch.id = Snowflake::from_u64(88);
    ch.kind = ChannelType::Dm;
    s.add_channel_if_absent(ch);
    assert!(s.channel_by_id(Snowflake::from_u64(88)).is_some());
}

#[test]
fn guild_create_update_delete() {
    let mut s = AppState::new();
    let mut g = Guild::default();
    g.id = Snowflake::from_u64(1);
    g.name = "First".to_string();
    let mut c = Channel::default();
    c.id = Snowflake::from_u64(11);
    c.name = "general".to_string();
    g.channels.push(c);
    let mut p = PresenceUpdate::default();
    p.user = PartialUser { id: Snowflake::from_u64(5), ..Default::default() };
    p.status = "dnd".to_string();
    g.presences.push(p);
    s.dispatch_event(Event::GuildCreate { d: g }, 0);
    assert_eq!(s.channels_for_guild(Snowflake::from_u64(1)).len(), 1);
    assert_eq!(s.channels_for_guild(Snowflake::from_u64(1))[0].guild_id, Some(Snowflake::from_u64(1)));
    assert_eq!(s.presence(Snowflake::from_u64(5)).as_deref(), Some("dnd"));
    let mut g2 = Guild::default();
    g2.id = Snowflake::from_u64(1);
    g2.name = "Renamed".to_string();
    s.dispatch_event(Event::GuildUpdate { d: g2 }, 0);
    assert_eq!(s.guild_by_id(Snowflake::from_u64(1)).unwrap().name, "Renamed");
    s.dispatch_event(Event::GuildDelete { id: Some("1".to_string()) }, 0);
    assert!(s.guild_by_id(Snowflake::from_u64(1)).is_none());
    assert!(s.channels_for_guild(Snowflake::from_u64(1)).is_empty());
}

#[test]
fn presence_update_caches_named_users_only() {
    let mut s = AppState::new();
    let mut p = PresenceUpdate::default();
    p.user = PartialUser { id: Snowflake::from_u64(9), global_name: Some("Neo".to_string()), ..Default::default() };
    p.status = "online".to_string();
    s.dispatch_event(Event::PresenceUpdate { d: p }, 0);
    let u = s.user(Snowflake::from_u64(9)).unwrap();
    assert_eq!(u.username, "Neo");
    let mut q = PresenceUpdate::default();
    q.user = PartialUser { id: Snowflake::from_u64(10), ..Default::default() };
    q.status = "idle".to_string();
    s.dispatch_event(Event::PresenceUpdate { d: q }, 0);
    assert!(s.user(Snowflake::from_u64(10)).is_none());
    assert_eq!(s.presence(Snowflake::from_u64(10)).as_deref(), Some("idle"));
}

#[test]
fn sending_a_message_ends_typing() {
    let mut s = AppState::new();
    s.set_typing(Snowflake::from_u64(3), Snowflake::from_u64(5), "bob", 10);
    let mut m = msg(1, 3, "done typing");
    m.author = user(5, "bob");
    m.guild_id = Some(Snowflake::from_u64(1));
    s.dispatch_event(Event::MessageCreate { d: m }, 20);
    assert!(s.typing_in(Snowflake::from_u64(3), 20).is_empty());
}

#[test]
fn session_and_heartbeat_flags() {
    let mut s = AppState::new();
    assert!(s.heartbeat_acked());
    assert_eq!(s.own_status(), "online");
    s.set_session("abc".to_string(), "wss://resume".to_string());
    s.set_last_seq(Snowflake::from_u64(42));
    assert_eq!(s.session_snapshot().unwrap().session_id, "abc");
    s.clear_session();
    assert!(s.session_snapshot().is_none());
    assert!(s.last_seq().is_none());
    s.reset_heartbeat_ack();
    assert!(!s.heartbeat_acked());
    match s.request_presence("dnd") {
        Event::PresenceRequested { status } => assert_eq!(status, "dnd"),
        _ => panic!("expected a presence request"),
    }
    assert_eq!(s.own_status(), "dnd");
}

#[test]
fn auto_select_picks_first_text_channel_in_sidebar_order() {
    let mut s = AppState::new();
    let mut g = Guild::default();
    g.id = Snowflake::from_u64(1);
    let mk = |id: u64, kind: ChannelType, parent: Option<u64>, pos: Option<i32>| {
        let mut c = Channel::default();
        c.id = Snowflake::from_u64(id);
        c.kind = kind;
        c.parent_id = parent.map(Snowflake::from_u64);
        c.position = pos;
        c
    };
    g.channels.push(mk(10, ChannelType::Text, Some(99), Some(0)));
    g.channels.push(mk(11, ChannelType::Voice, None, Some(0)));
    g.channels.push(mk(12, ChannelType::Text, None, Some(5)));
    g.channels.push(mk(13, ChannelType::Text, None, Some(2)));
    g.channels.push(mk(14, ChannelType::Text, None, Some(2)));
    s.dispatch_event(Event::GuildCreate { d: g }, 0);
    s.set_selection(Selection { guild_id: Some(Snowflake::from_u64(1)), channel_id: None });
    s.auto_select_first_channel();
    assert_eq!(s.selection().channel_id, Some(Snowflake::from_u64(13)));
    // With a channel already selected nothing changes.
    s.auto_select_first_channel();
    assert_eq!(s.selection().channel_id, Some(Snowflake::from_u64(13)));
}

#[test]
fn guild_unread_sums_guild_channel_mentions() {
    let mut s = AppState::new();
    let me = user(100, "me");
    s.set_current_user(Some(me.clone()));
    let mut g = Guild::default();
    g.id = Snowflake::from_u64(1);
    let mut c1 = Channel::default();
    c1.id = Snowflake::from_u64(11);
    c1.guild_id = Some(Snowflake::from_u64(1));
    let mut c2 = Channel::default();
    c2.id = Snowflake::from_u64(12);
    c2.guild_id = Some(Snowflake::from_u64(1));
    g.channels = vec![c1, c2];
    s.dispatch_event(Event::GuildCreate { d: g }, 0);
    for (id, ch) in [(1u64, 11u64), (2, 11), (3, 12), (4, 99)] {
        let mut m = msg(id, ch, "ping");
        m.mentions.push(me.clone());
        let e = Event::MessageCreate { d: m };
        assert!(s.can_dispatch(&e));
        s.dispatch_event(e, 0);
    }
    assert_eq!(basalt::state::guild_unread(&s, Snowflake::from_u64(1)), 3);
    assert_eq!(s.checked_guild_unread(Snowflake::from_u64(2)), Some(0));
    assert_eq!(s.total_mentions(), 4);
}

#[test]
fn sync_accessors_match() {
    let mut s = AppState::new();
    s.dispatch_event(Event::MessageCreate { d: msg(1, 5, "x") }, 0);
    assert_eq!(s.unread_count(Snowflake::from_u64(5)), 1);
    s.set_selection_sync(Selection { guild_id: None, channel_id: Some(Snowflake::from_u64(5)) });
    assert_eq!(s.selection_sync().channel_id, Some(Snowflake::from_u64(5)));
    assert_eq!(s.unread_count(Snowflake::from_u64(5)), 0);
    assert_eq!(s.connection_status_sync(), s.connection_status());
}

#[test]
fn marking_read_takes_exactly_its_mentions_off_the_total() {
    let mut s = AppState::new();
    let me = user(100, "me");
    s.set_current_user(Some(me.clone()));
    for (id, ch) in [(1, 9), (2, 9), (3, 11)] {
        let mut m = msg(id, ch, "hi");
        m.mentions.push(me.clone());
        s.dispatch_event(Event::MessageCreate { d: m }, 0);
    }
    assert_eq!(s.total_mentions(), 3);
    s.mark_read(Snowflake::from_u64(9));
    assert_eq!(s.mention_count(Snowflake::from_u64(9)), 0);
    assert_eq!(s.unread_count(Snowflake::from_u64(9)), 0);
    assert_eq!(s.mention_count(Snowflake::from_u64(11)), 1);
    assert_eq!(s.unread_count(Snowflake::from_u64(11)), 1);
    assert_eq!(s.total_mentions(), 1);
}
