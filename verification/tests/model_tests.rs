use basalt::model::{Channel, ChannelType, Guild, ReactionEmoji, User};
use basalt::snowflake::Snowflake;

#[test]
fn user_display_name_prefers_global_name() {
    let mut u = User::default();
    u.username = "user123".into();
    u.global_name = Some("Alice".into());
    assert_eq!(u.display_name(), "Alice");
}

#[test]
fn user_display_name_falls_back_to_username() {
    let mut u = User::default();
    u.username = "user123".into();
    u.global_name = None;
    assert_eq!(u.display_name(), "user123");
}

#[test]
fn user_display_name_handles_empty_global_name() {
    let mut u = User::default();
    u.username = "user123".into();
    u.global_name = Some(String::new());
    assert_eq!(u.display_name(), "user123");
}

#[test]
fn user_display_name_handles_both_empty() {
    let u = User::default();
    assert_eq!(u.display_name(), "Unknown");
}

#[test]
fn user_avatar_url_for_animated_avatar() {
    let mut u = User::default();
    u.id = Snowflake::from_u64(1);
    u.avatar = Some("a_abcdef".into());
    let url = u.avatar_url();
    assert!(url.contains(".gif?"), "animated avatars should use .gif, got {url}");
    assert!(url.contains("/avatars/1/"));
}

#[test]
fn user_avatar_url_for_static_avatar() {
    let mut u = User::default();
    u.id = Snowflake::from_u64(42);
    u.avatar = Some("abcdef0123456789".into());
    let url = u.avatar_url();
    assert!(url.contains(".webp?"), "static avatars should use .webp, got {url}");
}

#[test]
fn user_avatar_url_for_default_avatar_uses_embed() {
    let mut u = User::default();
    u.id = Snowflake::from_u64(7);
    u.avatar = None;
    let url = u.avatar_url();
    assert!(url.contains("/embed/avatars/"), "missing avatar should fall back to embed, got {url}");
    assert!(url.contains("avatars/0."), "(7>>22)%6 == 0 must map to avatar 0, got {url}");
}

#[test]
fn default_avatar_bucket_is_id_shifted() {
    let mut u = User::default();
    u.avatar = None;
    u.id = Snowflake::from_u64(1 << 22);
    assert!(u.avatar_url().contains("avatars/1."));
    u.id = Snowflake::from_u64(2 << 22 | 5);
    assert!(u.avatar_url().contains("avatars/2."));
}

#[test]
fn guild_initials_single_word() {
    let mut g = Guild::default();
    g.name = "Discord".into();
    assert_eq!(g.initials(), "D");
}

#[test]
fn guild_initials_two_words() {
    let mut g = Guild::default();
    g.name = "Foo Bar".into();
    assert_eq!(g.initials(), "FB");
}

#[test]
fn guild_initials_empty_name() {
    let g = Guild::default();
    assert_eq!(g.initials(), "?");
}

#[test]
fn guild_icon_url_for_animated_icon() {
    let mut g = Guild::default();
    g.id = Snowflake::from_u64(100);
    g.icon = Some("a_1234567890abcdef".into());
    let url = g.icon_url().unwrap();
    assert!(url.contains(".gif"), "animated guild icons should use .gif, got {url}");
}

#[test]
fn guild_icon_url_for_static_icon() {
    let mut g = Guild::default();
    g.id = Snowflake::from_u64(101);
    g.icon = Some("abcdef0123456789".into());
    let url = g.icon_url().unwrap();
    assert!(url.contains(".png"), "static guild icons should use .png, got {url}");
}

#[test]
fn channel_display_name_for_text_uses_name() {
    let mut c = Channel::default();
    c.name = "general".into();
    c.kind = ChannelType::Text;
    assert_eq!(c.display_name(), "general");
}

#[test]
fn channel_display_name_empty_text_shows_placeholder() {
    let mut c = Channel::default();
    c.name = "".into();
    c.kind = ChannelType::Text;
    assert_eq!(c.display_name(), "empty-channel");
}

#[test]
fn channel_display_name_dm_uses_recipient_name() {
    let mut c = Channel::default();
    c.kind = ChannelType::Dm;
    let mut u = User::default();
    u.username = "bob".into();
    u.global_name = Some("Bob".into());
    c.recipients.push(u);
    assert_eq!(c.display_name(), "Bob");
}

#[test]
fn reaction_emoji_content_string_custom_static() {
    let mut r = ReactionEmoji::default();
    r.id = Some(Snowflake::from_u64(123));
    r.name = Some("smile".into());
    assert_eq!(r.content_string(), "<:smile:123>");
}

#[test]
fn reaction_emoji_content_string_custom_animated() {
    let mut r = ReactionEmoji::default();
    r.id = Some(Snowflake::from_u64(456));
    r.name = Some("dance".into());
    r.animated = true;
    assert_eq!(r.content_string(), "<a:dance:456>");
}

#[test]
fn reaction_emoji_content_string_unicode() {
    let mut r = ReactionEmoji::default();
    r.name = Some("🔥".into());
    assert_eq!(r.content_string(), "🔥");
}

// ── Further cases ──

#[test]
fn avatar_url_exact_forms() {
    let mut u = User::default();
    u.id = Snowflake::from_u64(42);
    u.avatar = Some("abc".into());
    assert_eq!(u.avatar_url(), "https://cdn.discordapp.com/avatars/42/abc.webp?size=256");
    u.avatar = None;
    u.id = Snowflake::from_u64(5 << 22);
    assert_eq!(u.avatar_url(), "https://cdn.discordapp.com/embed/avatars/5.png?size=128");
    u.id = Snowflake::from_u64(6 << 22);
    assert_eq!(u.avatar_url(), "https://cdn.discordapp.com/embed/avatars/0.png?size=128");
}

#[test]
fn banner_urls() {
    let mut u = User::default();
    u.id = Snowflake::from_u64(9);
    assert_eq!(u.banner_url(), None);
    u.banner = Some("a_x".into());
    assert_eq!(u.banner_url().unwrap(), "https://cdn.discordapp.com/banners/9/a_x.gif?size=600");
    let mut g = Guild::default();
    g.id = Snowflake::from_u64(3);
    g.banner = Some("h".into());
    assert_eq!(g.banner_url().unwrap(), "https://cdn.discordapp.com/banners/3/h.png?size=600");
}

#[test]
fn group_dm_display_name_lists_three_and_counts_rest() {
    let mut c = Channel::default();
    c.kind = ChannelType::GroupDm;
    assert_eq!(c.display_name(), "Empty Group");
    for n in ["a", "b", "c", "d", "e"] {
        let mut u = User::default();
        u.username = n.into();
        c.recipients.push(u);
    }
    assert_eq!(c.display_name(), "a, b, c +2");
    c.recipients.truncate(2);
    assert_eq!(c.display_name(), "a, b");
}

#[test]
fn dm_recipient_uses_fallback_lookup() {
    let mut c = Channel::default();
    c.kind = ChannelType::Dm;
    c.recipient_ids.push(Snowflake::from_u64(77));
    let got = c.dm_recipient(|id| {
        let mut u = User::default();
        u.id = id;
        Some(u)
    });
    assert_eq!(got.unwrap().id, Snowflake::from_u64(77));
    let empty = Channel::default();
    assert!(empty.dm_recipient(|_| None).is_none());
}

#[test]
fn channel_type_codes_round_trip() {
    for n in 0u8..=20 {
        let t = ChannelType::from_code(n);
        if n <= 5 || (10..=16).contains(&n) {
            assert_eq!(t.code(), n);
        } else {
            assert_eq!(t, ChannelType::Text);
        }
    }
}

#[test]
fn custom_emoji_urls() {
    let mut r = ReactionEmoji::default();
    assert!(r.custom_emoji_url().is_none());
    r.id = Some(Snowflake::from_u64(5));
    assert_eq!(r.custom_emoji_url().unwrap(), "https://cdn.discordapp.com/emojis/5.webp?size=64&quality=lossless");
    r.animated = true;
    assert_eq!(r.custom_emoji_url().unwrap(), "https://cdn.discordapp.com/emojis/5.gif?size=64&quality=lossless");
}

#[test]
fn accent_color_splits_bytes() {
    let mut u = User::default();
    assert!(u.accent().is_none());
    u.accent_color = Some(0x123456);
    let c = u.accent().unwrap();
    assert_eq!((c.r, c.g, c.b), (0x12, 0x34, 0x56));
}
