use basalt::rest::{text_message_body, CreateMessageBody, HttpAuth};
use basalt::rest::{
    guess_mime, is_global_limit, members_path, messages_path, rate_limit_plan, retry_after_ms, InviteCode, RateLimitPlan,
    RateLimiter, Route,
};
use basalt::snowflake::Snowflake;

#[test]
fn route_paths_are_bucket_keys() {
    assert_eq!(Route::CurrentUser.path(), "/users/@me");
    assert_eq!(Route::MyGuilds.path(), "/users/@me/guilds");
    assert_eq!(Route::Guild(Snowflake(7)).path(), "/guilds/7");
    assert_eq!(Route::GuildChannels(Snowflake(7)).path(), "/guilds/7/channels");
    assert_eq!(Route::ChannelMessages(Snowflake(42)).path(), "/channels/42/messages");
    assert_eq!(Route::ChannelReactions(Snowflake(42)).path(), "/channels/42/messages/%/reactions");
    assert_eq!(Route::User(Snowflake(1)).path(), "/users/1");
}

#[test]
fn mime_types_by_extension() {
    assert_eq!(guess_mime("photo.PNG"), "image/png");
    assert_eq!(guess_mime("a.jpeg"), "image/jpeg");
    assert_eq!(guess_mime("notes.md"), "text/markdown");
    assert_eq!(guess_mime("clip.webm"), "video/webm");
    assert_eq!(guess_mime("archive.tar"), "application/octet-stream");
    assert_eq!(guess_mime("xpng"), "image/png");
}

#[test]
fn invite_and_paths() {
    assert_eq!(InviteCode { code: "abc123".to_string() }.url(), "https://discord.gg/abc123");
    assert_eq!(messages_path(Snowflake(9), 0, None), "/channels/9/messages?limit=1");
    assert_eq!(messages_path(Snowflake(9), 200, Some(Snowflake(5))), "/channels/9/messages?limit=100&before=5");
    assert_eq!(members_path(Snowflake(3), 0), "/guilds/3/members?limit=1");
    assert_eq!(members_path(Snowflake(3), 250), "/guilds/3/members?limit=250");
}

#[test]
fn rate_limit_decisions() {
    assert_eq!(retry_after_ms(Some(1500), Some(3000)), 1500);
    assert_eq!(retry_after_ms(None, Some(3000)), 3000);
    assert_eq!(retry_after_ms(None, None), 1000);
    assert!(is_global_limit(Some("true")));
    assert!(!is_global_limit(Some("false")));
    assert!(!is_global_limit(None));
    assert_eq!(
        rate_limit_plan(1000, true),
        RateLimitPlan { global_pause_ms: Some(1250), bucket_window_ms: None, sleep_ms: None }
    );
    assert_eq!(
        rate_limit_plan(1000, false),
        RateLimitPlan { global_pause_ms: None, bucket_window_ms: Some(1000), sleep_ms: Some(1050) }
    );
}

#[test]
fn exhausted_bucket_makes_requests_wait() {
    let mut l = RateLimiter::new();
    let r = Route::ChannelMessages(Snowflake(1));
    assert_eq!(l.acquire_wait_ms(r, 10_000), None);
    l.mark_exhausted(r, 2_000, 10_000);
    assert_eq!(l.acquire_wait_ms(r, 10_000), Some(2_055));
    assert_eq!(l.acquire_wait_ms(r, 12_049), Some(6));
    assert_eq!(l.acquire_wait_ms(r, 12_050), None);
    // Other routes are unaffected.
    assert_eq!(l.acquire_wait_ms(Route::ChannelMessages(Snowflake(2)), 10_000), None);
    // Headers with budget left clear the wait.
    l.update_from_headers(r, "bucket-a".to_string(), Some(5), Some(4), Some(1_000), 10_000);
    assert_eq!(l.acquire_wait_ms(r, 10_000), None);
    l.update_from_headers(r, "bucket-a".to_string(), None, Some(0), None, 10_000);
    assert_eq!(l.acquire_wait_ms(r, 10_500), Some(505));
}

#[test]
fn auth_headers_follow_the_identity() {
    let mut a = HttpAuth::new(Some("tok".to_string()));
    assert!(!a.uses_bot_prefix());
    let (ua, auth) = a.request_headers("linux");
    assert!(ua.contains("X11; Linux x86_64"));
    assert_eq!(auth.as_deref(), Some("tok"));
    a.set_bot_prefix(true);
    let (ua, auth) = a.request_headers("linux");
    assert_eq!(ua, "Basalt (https://github.com/sandinok/basalt, 0.1.1)");
    assert_eq!(auth.as_deref(), Some("Bot tok"));
    a.set_token("new".to_string());
    assert!(!a.uses_bot_prefix(), "a new token starts as a user token");
    a.clear_token();
    assert!(a.request_headers("windows").1.is_none());
    let empty = HttpAuth::new(Some(String::new()));
    assert!(empty.request_headers("linux").1.is_none());
}

#[test]
fn message_bodies() {
    let d = CreateMessageBody::default();
    assert!(d.content.is_none() && d.nonce.is_none() && d.tts.is_none() && d.embeds.is_empty());
    assert!(d.attachments.is_empty() && d.message_reference.is_none() && d.flags.is_none() && d.allowed_mentions.is_none());
    let b = text_message_body(Snowflake::from_u64(4), "hi".to_string(), "99".to_string(), None);
    assert_eq!(b.content.as_deref(), Some("hi"));
    assert_eq!(b.nonce.as_deref(), Some("99"));
    assert!(b.message_reference.is_none());
    let am = b.allowed_mentions.unwrap();
    assert_eq!(am.parse, vec!["users".to_string(), "roles".to_string()]);
    assert!(am.users.is_empty() && am.roles.is_empty() && am.replied_user.is_none());
}

#[test]
fn mime_guess_ignores_case() {
    assert_eq!(guess_mime("PHOTO.PNG"), guess_mime("photo.png"));
    assert_eq!(guess_mime("Clip.Mp4"), "video/mp4");
    assert_eq!(guess_mime("notes"), "application/octet-stream");
}

#[test]
fn every_route_path_is_absolute() {
    let id = Snowflake(42);
    for r in [
        Route::CurrentUser,
        Route::MyGuilds,
        Route::Guild(id),
        Route::GuildChannels(id),
        Route::GuildEmojis(id),
        Route::Channel(id),
        Route::ChannelMessages(id),
        Route::ChannelTyping(id),
        Route::ChannelReactions(id),
        Route::ChannelPins(id),
        Route::ChannelThreads(id),
        Route::User(id),
    ] {
        assert!(r.path().starts_with('/'));
    }
    assert_eq!(Route::ChannelPins(id).path(), "/channels/42/pins");
}

#[test]
fn whole_mime_table_in_any_case() {
    let table = [
        ("png", "image/png"), ("jpg", "image/jpeg"), ("jpeg", "image/jpeg"), ("gif", "image/gif"),
        ("webp", "image/webp"), ("txt", "text/plain"), ("md", "text/markdown"), ("pdf", "application/pdf"),
        ("mp4", "video/mp4"), ("webm", "video/webm"), ("mp3", "audio/mpeg"), ("ogg", "audio/ogg"),
        ("zip", "application/zip"),
    ];
    for (ext, mime) in table {
        assert_eq!(guess_mime(&format!("file.{ext}")), mime);
        assert_eq!(guess_mime(&format!("A.B.{}", ext.to_uppercase())), mime);
    }
    assert_eq!(guess_mime("archive.tar.gz"), "application/octet-stream");
}

#[test]
fn distinct_routes_have_distinct_paths() {
    let a = Snowflake(123);
    let b = Snowflake(1234);
    let routes = [
        Route::CurrentUser, Route::MyGuilds, Route::Guild(a), Route::Guild(b), Route::GuildChannels(a),
        Route::GuildEmojis(a), Route::Channel(a), Route::Channel(b), Route::ChannelMessages(a),
        Route::ChannelTyping(a), Route::ChannelReactions(a), Route::ChannelPins(a), Route::ChannelThreads(a),
        Route::User(a), Route::User(b),
    ];
    for (i, r) in routes.iter().enumerate() {
        assert!(!r.path().contains('?'));
        for (j, q) in routes.iter().enumerate() {
            assert_eq!(r.path() == q.path(), i == j);
        }
    }
    assert_eq!(Route::ChannelMessages(a).path(), "/channels/123/messages");
}
