//! REST v10 routing, request shaping and per-bucket rate limiting.
//!
//! `Route::path()` is the bucket-key form of a path (no query string), so
//! requests that share a bucket share a `Route`. The rate limiter keeps,
//! per route, the bucket Discord reported, its remaining budget and when
//! it resets; a request on an exhausted bucket waits for the reset.
use vstd::prelude::*;
use crate::model::MessageReference;
use crate::identity::{bot_user_agent, web_ua_spec, web_user_agent};
use crate::snowflake::Snowflake;
use crate::text::{is_digit, chars_end_with, chars_of, dec, has_suffix, lower_chars, lower_seq, push_dec, push_str, str_eq};

verus! {

#[derive(Debug, Clone, Copy, PartialEq, Eq, Structural, Hash)]
pub enum Route {
    CurrentUser,
    MyGuilds,
    Guild(Snowflake),
    GuildChannels(Snowflake),
    GuildEmojis(Snowflake),
    Channel(Snowflake),
    ChannelMessages(Snowflake),
    ChannelTyping(Snowflake),
    ChannelReactions(Snowflake),
    ChannelPins(Snowflake),
    ChannelThreads(Snowflake),
    User(Snowflake),
}

pub open spec fn route_path(r: Route) -> Seq<char> {
    match r {
        Route::CurrentUser => "/users/@me"@,
        Route::MyGuilds => "/users/@me/guilds"@,
        Route::Guild(id) => "/guilds/"@ + dec(id.0 as nat),
        Route::GuildChannels(id) => "/guilds/"@ + dec(id.0 as nat) + "/channels"@,
        Route::GuildEmojis(id) => "/guilds/"@ + dec(id.0 as nat) + "/emojis"@,
        Route::Channel(id) => "/channels/"@ + dec(id.0 as nat),
        Route::ChannelMessages(id) => "/channels/"@ + dec(id.0 as nat) + "/messages"@,
        Route::ChannelTyping(id) => "/channels/"@ + dec(id.0 as nat) + "/typing"@,
        Route::ChannelReactions(id) => "/channels/"@ + dec(id.0 as nat) + "/messages/%/reactions"@,
        Route::ChannelPins(id) => "/channels/"@ + dec(id.0 as nat) + "/pins"@,
        Route::ChannelThreads(id) => "/channels/"@ + dec(id.0 as nat) + "/threads"@,
        Route::User(id) => "/users/"@ + dec(id.0 as nat),
    }
}

/// Every route path is absolute, starting with `/`, and holds no `?`
/// (a path is a bucket key, never a query).
pub proof fn law_route_paths_absolute(r: Route)
    ensures
        route_path(r).len() > 0 && route_path(r)[0] == '/',
        forall|i: int| 0 <= i < route_path(r).len() ==> #[trigger] route_path(r)[i] != '?',
{
    reveal_strlit("/users/@me");
    reveal_strlit("/users/@me/guilds");
    reveal_strlit("/guilds/");
    reveal_strlit("/users/");
    reveal_strlit("/channels/");
    reveal_strlit("/channels");
    reveal_strlit("/emojis");
    reveal_strlit("/messages");
    reveal_strlit("/typing");
    reveal_strlit("/messages/%/reactions");
    reveal_strlit("/pins");
    reveal_strlit("/threads");
    lemma_route_shape(r);
    let h = route_head(r);
    let d = opt_dec(route_num(r));
    let t = route_tail(r);
    if let Some(n) = route_num(r) {
        lemma_dec_shape(n as nat);
    }
    let p = route_path(r);
    assert(p[0] == h[0]);
    assert forall|i: int| 0 <= i < p.len() implies #[trigger] p[i] != '?' by {
        if i < h.len() {
            assert(p[i] == h[i]);
        } else if i < h.len() + d.len() {
            assert(p[i] == d[i - h.len()]);
        } else {
            assert(p[i] == t[i - h.len() - d.len()]);
        }
    }
}

/// Which kind of route this is, in declaration order.
pub open spec fn route_tag(r: Route) -> int {
    match r {
        Route::CurrentUser => 0,
        Route::MyGuilds => 1,
        Route::Guild(_) => 2,
        Route::GuildChannels(_) => 3,
        Route::GuildEmojis(_) => 4,
        Route::Channel(_) => 5,
        Route::ChannelMessages(_) => 6,
        Route::ChannelTyping(_) => 7,
        Route::ChannelReactions(_) => 8,
        Route::ChannelPins(_) => 9,
        Route::ChannelThreads(_) => 10,
        Route::User(_) => 11,
    }
}

/// The id a route names, if any.
pub open spec fn route_num(r: Route) -> Option<u64> {
    match r {
        Route::CurrentUser => None,
        Route::MyGuilds => None,
        Route::Guild(id) => Some(id.0),
        Route::GuildChannels(id) => Some(id.0),
        Route::GuildEmojis(id) => Some(id.0),
        Route::Channel(id) => Some(id.0),
        Route::ChannelMessages(id) => Some(id.0),
        Route::ChannelTyping(id) => Some(id.0),
        Route::ChannelReactions(id) => Some(id.0),
        Route::ChannelPins(id) => Some(id.0),
        Route::ChannelThreads(id) => Some(id.0),
        Route::User(id) => Some(id.0),
    }
}

/// The path before the id (the whole path when there is none).
pub open spec fn route_head(r: Route) -> Seq<char> {
    match r {
        Route::CurrentUser => "/users/@me"@,
        Route::MyGuilds => "/users/@me/guilds"@,
        Route::Guild(_) | Route::GuildChannels(_) | Route::GuildEmojis(_) => "/guilds/"@,
        Route::User(_) => "/users/"@,
        _ => "/channels/"@,
    }
}

/// The path after the id.
pub open spec fn route_tail(r: Route) -> Seq<char> {
    match r {
        Route::GuildChannels(_) => "/channels"@,
        Route::GuildEmojis(_) => "/emojis"@,
        Route::ChannelMessages(_) => "/messages"@,
        Route::ChannelTyping(_) => "/typing"@,
        Route::ChannelReactions(_) => "/messages/%/reactions"@,
        Route::ChannelPins(_) => "/pins"@,
        Route::ChannelThreads(_) => "/threads"@,
        _ => seq![],
    }
}

pub open spec fn opt_dec(n: Option<u64>) -> Seq<char> {
    match n {
        Some(x) => dec(x as nat),
        None => seq![],
    }
}

proof fn lemma_route_shape(r: Route)
    ensures
        route_path(r) == route_head(r) + opt_dec(route_num(r)) + route_tail(r),
{
    assert(route_path(r) =~= route_head(r) + opt_dec(route_num(r)) + route_tail(r));
}

/// Digits followed by a tail that does not start with a digit split only
/// one way.
proof fn lemma_digit_split(d1: Seq<char>, t1: Seq<char>, d2: Seq<char>, t2: Seq<char>)
    requires
        d1.len() > 0,
        d2.len() > 0,
        forall|i: int| 0 <= i < d1.len() ==> is_digit(#[trigger] d1[i]),
        forall|i: int| 0 <= i < d2.len() ==> is_digit(#[trigger] d2[i]),
        t1.len() == 0 || !is_digit(t1[0]),
        t2.len() == 0 || !is_digit(t2[0]),
        d1 + t1 == d2 + t2,
    ensures
        d1 == d2,
        t1 == t2,
{
    let x = d1 + t1;
    if d1.len() < d2.len() {
        assert(x[d1.len() as int] == t1[0]);
        assert(x[d1.len() as int] == d2[d1.len() as int]);
    } else if d2.len() < d1.len() {
        assert((d2 + t2)[d2.len() as int] == t2[0]);
        assert(x[d2.len() as int] == d1[d2.len() as int]);
    } else {
        assert(d1 =~= x.subrange(0, d1.len() as int));
        assert(d2 =~= (d2 + t2).subrange(0, d2.len() as int));
        assert(t1 =~= x.subrange(d1.len() as int, x.len() as int));
        assert(t2 =~= (d2 + t2).subrange(d2.len() as int, x.len() as int));
    }
}

proof fn lemma_dec_shape(n: nat)
    ensures
        dec(n).len() > 0,
        forall|i: int| 0 <= i < dec(n).len() ==> is_digit(#[trigger] dec(n)[i]),
        crate::text::digits_value(dec(n)) == n,
{
    crate::snowflake::lemma_dec_digits(n);
    assert forall|i: int| 0 <= i < dec(n).len() implies is_digit(#[trigger] dec(n)[i]) by {
        assert(is_digit(dec(n)[i]));
    }
}

/// Distinct routes have distinct paths, so a path names one bucket key.
pub proof fn law_route_paths_distinct(r1: Route, r2: Route)
    ensures
        route_path(r1) == route_path(r2) <==> r1 == r2,
{
    if route_path(r1) == route_path(r2) {
        reveal_strlit("/users/@me");
        reveal_strlit("/users/@me/guilds");
        reveal_strlit("/guilds/");
        reveal_strlit("/users/");
        reveal_strlit("/channels/");
        reveal_strlit("/channels");
        reveal_strlit("/emojis");
        reveal_strlit("/messages");
        reveal_strlit("/typing");
        reveal_strlit("/messages/%/reactions");
        reveal_strlit("/pins");
        reveal_strlit("/threads");
        lemma_route_shape(r1);
        lemma_route_shape(r2);
        let p = route_path(r1);
        let h1 = route_head(r1);
        let h2 = route_head(r2);
        let d1 = opt_dec(route_num(r1));
        let d2 = opt_dec(route_num(r2));
        let t1 = route_tail(r1);
        let t2 = route_tail(r2);
        if let Some(n) = route_num(r1) {
            lemma_dec_shape(n as nat);
        }
        if let Some(n) = route_num(r2) {
            lemma_dec_shape(n as nat);
        }
        assert(p[1] == h1[1] && p[1] == h2[1]);
        if h1.len() == 7 && h2.len() > 7 {
            assert(p[7] == d1[0]);
            assert(p[7] == h2[7]);
        }
        if h2.len() == 7 && h1.len() > 7 {
            assert(p[7] == d2[0]);
            assert(p[7] == h1[7]);
        }
        assert(h1 == h2);
        if route_num(r1) is Some && route_num(r2) is Some {
            let n1 = route_num(r1)->0;
            let n2 = route_num(r2)->0;
            assert(h1 + (d1 + t1) == p && h2 + (d2 + t2) == p);
            assert(d1 + t1 =~= p.skip(h1.len() as int));
            assert(d2 + t2 =~= p.skip(h2.len() as int));
            lemma_digit_split(d1, t1, d2, t2);
            assert(n1 == n2);
        }
        assert(route_tag(r1) == route_tag(r2));
        assert(route_num(r1) == route_num(r2));
    }
}

fn id_path(prefix: &str, id: Snowflake, suffix: &str) -> (r: String)
    ensures
        r@ == prefix@ + dec(id.0 as nat) + suffix@,
{
    let mut s = String::new();
    push_str(&mut s, prefix);
    push_dec(&mut s, id.0);
    push_str(&mut s, suffix);
    s
}

impl Route {
    pub fn path(&self) -> (r: String)
        ensures
            r@ == route_path(*self),
    {
        proof {
            reveal_strlit("");
            reveal_strlit("/users/@me");
            reveal_strlit("/users/@me/guilds");
        }
        match *self {
            Route::CurrentUser => "/users/@me".to_string(),
            Route::MyGuilds => "/users/@me/guilds".to_string(),
            Route::Guild(id) => id_path("/guilds/", id, ""),
            Route::GuildChannels(id) => id_path("/guilds/", id, "/channels"),
            Route::GuildEmojis(id) => id_path("/guilds/", id, "/emojis"),
            Route::Channel(id) => id_path("/channels/", id, ""),
            Route::ChannelMessages(id) => id_path("/channels/", id, "/messages"),
            Route::ChannelTyping(id) => id_path("/channels/", id, "/typing"),
            Route::ChannelReactions(id) => id_path("/channels/", id, "/messages/%/reactions"),
            Route::ChannelPins(id) => id_path("/channels/", id, "/pins"),
            Route::ChannelThreads(id) => id_path("/channels/", id, "/threads"),
            Route::User(id) => id_path("/users/", id, ""),
        }
    }
}

/// Allowed mentions: parse `["users","roles","everyone"]` to restrict.
#[derive(Debug, Clone, Default)]
pub struct AllowedMentions {
    pub parse: Vec<String>,
    pub users: Vec<String>,
    pub roles: Vec<String>,
    pub replied_user: Option<bool>,
}

/// Per-attachment metadata: filename, description (alt text).
#[derive(Debug, Clone, Default)]
pub struct AttachmentMeta {
    pub id: u32,
    pub filename: String,
    pub description: Option<String>,
}

#[verifier::external_type_specification]
#[verifier::external_body]
pub struct ExJsonValue(serde_json::Value);

/// JSON body of `POST /channels/{id}/messages`. Files are sent as separate
/// multipart parts; `attachments` carries their metadata.
#[derive(Debug, Clone)]
pub struct CreateMessageBody {
    pub content: Option<String>,
    pub nonce: Option<String>,
    pub tts: Option<bool>,
    pub embeds: Vec<serde_json::Value>,
    pub attachments: Vec<AttachmentMeta>,
    pub message_reference: Option<MessageReference>,
    pub flags: Option<u32>,
    pub allowed_mentions: Option<AllowedMentions>,
}

impl Default for CreateMessageBody {
    fn default() -> (b: Self)
        ensures
            b.content is None,
            b.nonce is None,
            b.tts is None,
            b.embeds@.len() == 0,
            b.attachments@.len() == 0,
            b.message_reference is None,
            b.flags is None,
            b.allowed_mentions is None,
    {
        CreateMessageBody {
            content: None,
            nonce: None,
            tts: None,
            embeds: Vec::new(),
            attachments: Vec::new(),
            message_reference: None,
            flags: None,
            allowed_mentions: None,
        }
    }
}

/// What a plain text send from the composer carries: its text, the nonce
/// that the gateway echoes back, no TTS, an optional reply reference in
/// the same channel, and mentions limited to users and roles.
pub open spec fn is_text_message_body(b: CreateMessageBody, channel_id: Snowflake, content: Seq<char>, nonce: Seq<char>, reply_to: Option<Snowflake>) -> bool {
    &&& b.content matches Some(c) && c@ == content
    &&& b.nonce matches Some(n) && n@ == nonce
    &&& b.tts == Some(false)
    &&& b.embeds@.len() == 0
    &&& b.attachments@.len() == 0
    &&& match reply_to {
        Some(id) => b.message_reference matches Some(r)
            && r.message_id == Some(id) && r.channel_id == Some(channel_id) && r.guild_id is None,
        None => b.message_reference is None,
    }
    &&& b.flags is None
    &&& b.allowed_mentions matches Some(a) && a.parse@.len() == 2
        && a.parse@[0]@ == "users"@ && a.parse@[1]@ == "roles"@
        && a.users@.len() == 0 && a.roles@.len() == 0 && a.replied_user is None
}

pub fn text_message_body(channel_id: Snowflake, content: String, nonce: String, reply_to: Option<Snowflake>) -> (b: CreateMessageBody)
    ensures
        is_text_message_body(b, channel_id, content@, nonce@, reply_to),
{
    let mut parse: Vec<String> = Vec::new();
    parse.push("users".to_string());
    parse.push("roles".to_string());
    let message_reference = match reply_to {
        Some(id) => Some(MessageReference { message_id: Some(id), channel_id: Some(channel_id), guild_id: None }),
        None => None,
    };
    CreateMessageBody {
        content: Some(content),
        nonce: Some(nonce),
        tts: Some(false),
        embeds: Vec::new(),
        attachments: Vec::new(),
        message_reference,
        flags: None,
        allowed_mentions: Some(AllowedMentions { parse, users: Vec::new(), roles: Vec::new(), replied_user: None }),
    }
}

/// Who the REST client speaks as: the token, and whether it is sent with
/// the `Bot ` prefix (bot accounts, detected on the first 401).
#[derive(Debug)]
pub struct HttpAuth {
    token: Option<String>,
    bot_prefix: bool,
}

pub open spec fn auth_value_spec(token: Seq<char>, bot_prefix: bool) -> Seq<char> {
    if bot_prefix { "Bot "@ + token } else { token }
}

impl HttpAuth {
    pub closed spec fn token_view(&self) -> Option<Seq<char>> {
        match self.token {
            Some(t) => Some(t@),
            None => None,
        }
    }

    pub closed spec fn bot_prefix_view(&self) -> bool {
        self.bot_prefix
    }

    pub fn new(token: Option<String>) -> (a: Self)
        ensures
            a.token_view() == (match token { Some(t) => Some(t@), None => None::<Seq<char>> }),
            !a.bot_prefix_view(),
    {
        HttpAuth { token, bot_prefix: false }
    }

    /// A new token starts out as a user token.
    pub fn set_token(&mut self, token: String)
        ensures
            final(self).token_view() == Some(token@),
            !final(self).bot_prefix_view(),
    {
        self.token = Some(token);
        self.bot_prefix = false;
    }

    pub fn clear_token(&mut self)
        ensures
            final(self).token_view() is None,
            final(self).bot_prefix_view() == old(self).bot_prefix_view(),
    {
        self.token = None;
    }

    /// Use the `Bot <token>` Authorization prefix (for bot accounts).
    pub fn set_bot_prefix(&mut self, on: bool)
        ensures
            final(self).bot_prefix_view() == on,
            final(self).token_view() == old(self).token_view(),
    {
        self.bot_prefix = on;
    }

    pub fn uses_bot_prefix(&self) -> (r: bool)
        ensures
            r == self.bot_prefix_view(),
    {
        self.bot_prefix
    }

    /// The per-request headers: the User-Agent of the identity in use (the
    /// documented bot form, or the web client's on `os`), and the
    /// Authorization value when a non-empty token is set.
    pub fn request_headers(&self, os: &str) -> (r: (String, Option<String>))
        ensures
            r.0@ == (if self.bot_prefix_view() { "Basalt (https://github.com/sandinok/basalt, 0.1.1)"@ } else { web_ua_spec(os@) }),
            r.1 is Some <==> (self.token_view() matches Some(t) && t.len() > 0),
            r.1 matches Some(v) ==> v@ == auth_value_spec(self.token_view()->0, self.bot_prefix_view()),
    {
        let ua = if self.bot_prefix { bot_user_agent() } else { web_user_agent(os) };
        let auth = match &self.token {
            Some(t) => {
                if t.as_str().is_empty() {
                    None
                } else if self.bot_prefix {
                    let mut v = String::new();
                    push_str(&mut v, "Bot ");
                    push_str(&mut v, t.as_str());
                    Some(v)
                } else {
                    Some(t.clone())
                }
            }
            None => None,
        };
        (ua, auth)
    }
}

/// The bits of a created invite we show.
#[derive(Debug, Clone)]
pub struct InviteCode {
    pub code: String,
}

impl InviteCode {
    /// Full URL, ready to share.
    pub fn url(&self) -> (r: String)
        ensures
            r@ == "https://discord.gg/"@ + self.code@,
    {
        let mut s = String::new();
        push_str(&mut s, "https://discord.gg/");
        push_str(&mut s, self.code.as_str());
        s
    }
}

/// The upload MIME type for a filename: the first extension of the table
/// the lowercased name ends with (no dot required), else octet-stream.
pub open spec fn mime_spec(name: Seq<char>) -> Seq<char> {
    let low = lower_seq(name);
    if has_suffix(low, "png"@) { "image/png"@ }
    else if has_suffix(low, "jpg"@) { "image/jpeg"@ }
    else if has_suffix(low, "jpeg"@) { "image/jpeg"@ }
    else if has_suffix(low, "gif"@) { "image/gif"@ }
    else if has_suffix(low, "webp"@) { "image/webp"@ }
    else if has_suffix(low, "txt"@) { "text/plain"@ }
    else if has_suffix(low, "md"@) { "text/markdown"@ }
    else if has_suffix(low, "pdf"@) { "application/pdf"@ }
    else if has_suffix(low, "mp4"@) { "video/mp4"@ }
    else if has_suffix(low, "webm"@) { "video/webm"@ }
    else if has_suffix(low, "mp3"@) { "audio/mpeg"@ }
    else if has_suffix(low, "ogg"@) { "audio/ogg"@ }
    else if has_suffix(low, "zip"@) { "application/zip"@ }
    else { "application/octet-stream"@ }
}

/// The MIME type ignores letter case: names that lower-case alike get
/// the same type.
pub proof fn law_mime_ignores_case(a: Seq<char>, b: Seq<char>)
    requires
        lower_seq(a) == lower_seq(b),
    ensures
        mime_spec(a) == mime_spec(b),
{
}

/// The extensions `guess_mime` knows, with their types, in the order
/// they are tried.
pub open spec fn mime_table() -> Seq<(Seq<char>, Seq<char>)> {
    seq![
        ("png"@, "image/png"@),
        ("jpg"@, "image/jpeg"@),
        ("jpeg"@, "image/jpeg"@),
        ("gif"@, "image/gif"@),
        ("webp"@, "image/webp"@),
        ("txt"@, "text/plain"@),
        ("md"@, "text/markdown"@),
        ("pdf"@, "application/pdf"@),
        ("mp4"@, "video/mp4"@),
        ("webm"@, "video/webm"@),
        ("mp3"@, "audio/mpeg"@),
        ("ogg"@, "audio/ogg"@),
        ("zip"@, "application/zip"@),
    ]
}

proof fn lemma_dot_suffix(pre: Seq<char>, e: Seq<char>, p: Seq<char>)
    requires
        forall|i: int| 0 <= i < p.len() ==> #[trigger] p[i] != '.',
    ensures
        has_suffix(pre + seq!['.'] + e, p) == (p.len() <= e.len() && has_suffix(e, p)),
{
    let x = pre + seq!['.'] + e;
    if p.len() <= e.len() {
        assert(x.subrange(x.len() - p.len(), x.len() as int) =~= e.subrange(e.len() - p.len(), e.len() as int));
    } else if p.len() <= x.len() {
        let k = p.len() - e.len() - 1;
        assert(x.subrange(x.len() - p.len(), x.len() as int)[k] == '.');
        assert(p[k] != '.');
    }
}

proof fn lemma_lower_join(stem: Seq<char>, e: Seq<char>)
    ensures
        lower_seq(stem + "."@ + e) == lower_seq(stem) + seq!['.'] + lower_seq(e),
{
    reveal_strlit(".");
    assert(lower_seq(stem + "."@ + e) =~= lower_seq(stem) + seq!['.'] + lower_seq(e));
}

/// The whole type table, in any letter case: a name ending in `.` and a
/// known extension gets that extension's type, whatever comes before.
pub proof fn law_mime_table(stem: Seq<char>, ext: Seq<char>, k: int)
    requires
        0 <= k < mime_table().len(),
        lower_seq(ext) == mime_table()[k].0,
    ensures
        mime_spec(stem + "."@ + ext) == mime_table()[k].1,
{
    lemma_table_suffixes();
    lemma_lower_join(stem, ext);
    let pre = lower_seq(stem);
    let e = mime_table()[k].0;
    let t = mime_table();
    assert forall|j: int| 0 <= j < t.len() implies #[trigger] has_suffix(pre + seq!['.'] + e, t[j].0) == (j == k) by {
        assert(forall|i: int| 0 <= i < t[j].0.len() ==> #[trigger] t[j].0[i] != '.');
        lemma_dot_suffix(pre, e, t[j].0);
        assert(has_suffix(e, t[j].0) == (j == k));
        if j == k {
            assert(e.subrange(0, e.len() as int) =~= e);
        }
    }
    assert(has_suffix(pre + seq!['.'] + e, t[0].0) == (0 == k));
    assert(has_suffix(pre + seq!['.'] + e, t[1].0) == (1 == k));
    assert(has_suffix(pre + seq!['.'] + e, t[2].0) == (2 == k));
    assert(has_suffix(pre + seq!['.'] + e, t[3].0) == (3 == k));
    assert(has_suffix(pre + seq!['.'] + e, t[4].0) == (4 == k));
    assert(has_suffix(pre + seq!['.'] + e, t[5].0) == (5 == k));
    assert(has_suffix(pre + seq!['.'] + e, t[6].0) == (6 == k));
    assert(has_suffix(pre + seq!['.'] + e, t[7].0) == (7 == k));
    assert(has_suffix(pre + seq!['.'] + e, t[8].0) == (8 == k));
    assert(has_suffix(pre + seq!['.'] + e, t[9].0) == (9 == k));
    assert(has_suffix(pre + seq!['.'] + e, t[10].0) == (10 == k));
    assert(has_suffix(pre + seq!['.'] + e, t[11].0) == (11 == k));
    assert(has_suffix(pre + seq!['.'] + e, t[12].0) == (12 == k));
}

/// No known extension ends another one, and none holds a dot.
proof fn lemma_table_suffixes()
    ensures
        forall|j: int, k: int| 0 <= j < 13 && 0 <= k < 13 ==>
            #[trigger] has_suffix(mime_table()[k].0, mime_table()[j].0) == (j == k),
        forall|j: int, i: int| 0 <= j < 13 && 0 <= i < mime_table()[j].0.len() ==> #[trigger] mime_table()[j].0[i] != '.',
        mime_table().len() == 13,
{
    reveal_strlit("png");
    reveal_strlit("jpg");
    reveal_strlit("jpeg");
    reveal_strlit("gif");
    reveal_strlit("webp");
    reveal_strlit("txt");
    reveal_strlit("md");
    reveal_strlit("pdf");
    reveal_strlit("mp4");
    reveal_strlit("webm");
    reveal_strlit("mp3");
    reveal_strlit("ogg");
    reveal_strlit("zip");
    assert forall|j: int, k: int| 0 <= j < 13 && 0 <= k < 13 implies
        #[trigger] has_suffix(mime_table()[k].0, mime_table()[j].0) == (j == k) by {
        let a = mime_table()[k].0;
        let b = mime_table()[j].0;
        if j == k {
            assert(a.subrange(0, a.len() as int) =~= a);
        } else if has_suffix(a, b) {
            lemma_suffix_tail(a, b);
        }
    }
}

/// A suffix shares the last two characters of the text it ends.
proof fn lemma_suffix_tail(s: Seq<char>, p: Seq<char>)
    requires
        has_suffix(s, p),
        p.len() >= 2,
    ensures
        s[s.len() - 1] == p[p.len() - 1],
        s[s.len() - 2] == p[p.len() - 2],
{
    let t = s.subrange(s.len() - p.len(), s.len() as int);
    assert(t[p.len() - 1] == p[p.len() - 1]);
    assert(t[p.len() - 2] == p[p.len() - 2]);
}

fn ends(low: &[char], ext: &str) -> (r: bool)
    ensures
        r == has_suffix(low@, ext@),
{
    let e = chars_of(ext);
    chars_end_with(low, e.as_slice())
}

pub fn guess_mime(filename: &str) -> (r: &'static str)
    ensures
        r@ == mime_spec(filename@),
{
    let cs = chars_of(filename);
    let low = lower_chars(cs.as_slice());
    let l = low.as_slice();
    if ends(l, "png") { "image/png" }
    else if ends(l, "jpg") { "image/jpeg" }
    else if ends(l, "jpeg") { "image/jpeg" }
    else if ends(l, "gif") { "image/gif" }
    else if ends(l, "webp") { "image/webp" }
    else if ends(l, "txt") { "text/plain" }
    else if ends(l, "md") { "text/markdown" }
    else if ends(l, "pdf") { "application/pdf" }
    else if ends(l, "mp4") { "video/mp4" }
    else if ends(l, "webm") { "video/webm" }
    else if ends(l, "mp3") { "audio/mpeg" }
    else if ends(l, "ogg") { "audio/ogg" }
    else if ends(l, "zip") { "application/zip" }
    else { "application/octet-stream" }
}

/// `/channels/{id}/messages?limit={1..=100}[&before={id}]`.
pub fn messages_path(channel_id: Snowflake, limit: u8, before: Option<Snowflake>) -> (r: String)
    ensures
        r@ == "/channels/"@ + dec(channel_id.0 as nat) + "/messages?limit="@
            + dec((if limit < 1 { 1 } else if limit > 100 { 100 } else { limit }) as nat)
            + (match before { Some(b) => "&before="@ + dec(b.0 as nat), None => seq![] }),
{
    let lim: u8 = if limit < 1 { 1 } else if limit > 100 { 100 } else { limit };
    let mut s = String::new();
    push_str(&mut s, "/channels/");
    push_dec(&mut s, channel_id.0);
    push_str(&mut s, "/messages?limit=");
    push_dec(&mut s, lim as u64);
    if let Some(b) = before {
        push_str(&mut s, "&before=");
        push_dec(&mut s, b.0);
    }
    s
}

/// `/guilds/{id}/members?limit={n}`: the limit is clamped to 1..=1000 and
/// then truncated to a byte, as the member-list call always did.
pub fn members_path(guild_id: Snowflake, limit: u8) -> (r: String)
    ensures
        r@ == "/guilds/"@ + dec(guild_id.0 as nat) + "/members?limit="@
            + dec((if limit < 1 { 1u8 } else { limit }) as nat),
{
    // (limit as u16).clamp(1, 1000) never exceeds 255, so the byte cast keeps it.
    let lim: u8 = if limit < 1 { 1 } else { limit };
    let mut s = String::new();
    push_str(&mut s, "/guilds/");
    push_dec(&mut s, guild_id.0);
    push_str(&mut s, "/members?limit=");
    push_dec(&mut s, lim as u64);
    s
}

// ── 429 handling ──

/// Retry delay of a 429: the body's `retry_after`, else the `Retry-After`
/// header, else one second (both already in ms).
pub fn retry_after_ms(body_ms: Option<u64>, header_ms: Option<u64>) -> (r: u64)
    ensures
        r == (match body_ms { Some(b) => b, None => match header_ms { Some(h) => h, None => 1000 } }),
{
    match body_ms {
        Some(b) => b,
        None => match header_ms {
            Some(h) => h,
            None => 1000,
        },
    }
}

/// `X-RateLimit-Global: true` marks a global (Cloudflare-level) limit.
pub fn is_global_limit(header: Option<&str>) -> (r: bool)
    ensures
        r == (header matches Some(h) && h@ == "true"@),
{
    match header {
        Some(h) => str_eq(h, "true"),
        None => false,
    }
}

/// What a 429 makes the client do before reporting the failure (the
/// request itself is never resent).
#[derive(Debug, Clone, Copy, PartialEq, Eq, Structural)]
pub struct RateLimitPlan {
    /// Park every route for this long (global limit).
    pub global_pause_ms: Option<u64>,
    /// Mark this route's bucket exhausted for this long.
    pub bucket_window_ms: Option<u64>,
    /// Sleep the caller this long.
    pub sleep_ms: Option<u64>,
}

pub fn rate_limit_plan(retry_ms: u64, global: bool) -> (p: RateLimitPlan)
    requires
        retry_ms <= u64::MAX - 250,
    ensures
        global ==> p == (RateLimitPlan { global_pause_ms: Some((retry_ms + 250) as u64), bucket_window_ms: None, sleep_ms: None }),
        !global ==> p == (RateLimitPlan { global_pause_ms: None, bucket_window_ms: Some(retry_ms), sleep_ms: Some((retry_ms + 50) as u64) }),
{
    if global {
        RateLimitPlan { global_pause_ms: Some(retry_ms + 250), bucket_window_ms: None, sleep_ms: None }
    } else {
        RateLimitPlan { global_pause_ms: None, bucket_window_ms: Some(retry_ms), sleep_ms: Some(retry_ms + 50) }
    }
}

// ── Per-bucket limiter ──

/// Latest reset time the limiter stores (keeps the wait arithmetic exact).
pub const MAX_RESET_MS: u64 = 0xFFFF_FFFF_FFFF_FF00;

#[derive(Debug, Default)]
pub struct BucketState {
    /// Bucket id (from `X-RateLimit-Bucket`); none until the first response.
    pub bucket_id: Option<String>,
    /// Remaining requests in the current window.
    pub remaining: i64,
    /// When the window resets (local ms clock).
    pub reset_at_ms: Option<u64>,
    /// Limit per window (informational).
    pub limit: Option<u64>,
}

pub open spec fn empty_bucket() -> BucketState {
    BucketState { bucket_id: None, remaining: 0, reset_at_ms: None, limit: None }
}

/// How long a request on this bucket waits at `now_ms`.
pub open spec fn wait_spec(b: BucketState, now_ms: u64) -> Option<u64> {
    if b.remaining == 0 && (b.reset_at_ms matches Some(r) && r > now_ms) {
        Some((b.reset_at_ms->0 - now_ms + 5) as u64)
    } else {
        None
    }
}

pub open spec fn has_route(s: Seq<(Route, BucketState)>, r: Route) -> bool {
    exists|i: int| 0 <= i < s.len() && #[trigger] s[i].0 == r
}

pub open spec fn route_pos(s: Seq<(Route, BucketState)>, r: Route) -> int {
    choose|i: int| 0 <= i < s.len() && #[trigger] s[i].0 == r
}

pub open spec fn routes_distinct(s: Seq<(Route, BucketState)>) -> bool {
    forall|i: int, j: int| 0 <= i < j < s.len() ==> #[trigger] s[i].0 != #[trigger] s[j].0
}

pub open spec fn lookup_bucket(s: Seq<(Route, BucketState)>, r: Route) -> Option<BucketState> {
    if has_route(s, r) { Some(s[route_pos(s, r)].1) } else { None }
}

pub open spec fn resets_bounded(s: Seq<(Route, BucketState)>) -> bool {
    forall|i: int| 0 <= i < s.len() ==> ((#[trigger] s[i]).1.reset_at_ms matches Some(t) ==> t <= MAX_RESET_MS)
}

/// In a table of distinct routes, the entry at `i` is the one found for
/// its route.
pub proof fn lemma_pos_unique(s: Seq<(Route, BucketState)>, i: int)
    requires
        routes_distinct(s),
        0 <= i < s.len(),
    ensures
        has_route(s, s[i].0),
        route_pos(s, s[i].0) == i,
{
    let p = route_pos(s, s[i].0);
    if p != i {
        if p < i { assert(s[p].0 != s[i].0); } else { assert(s[i].0 != s[p].0); }
    }
}

/// Replacing the entry at `i` by one with the same route changes only
/// that route's bucket.
pub proof fn lemma_replace_entry(s: Seq<(Route, BucketState)>, i: int, b: BucketState)
    requires
        routes_distinct(s),
        0 <= i < s.len(),
    ensures
        routes_distinct(s.update(i, (s[i].0, b))),
        lookup_bucket(s.update(i, (s[i].0, b)), s[i].0) == Some(b),
        forall|r: Route| r != s[i].0 ==> lookup_bucket(s.update(i, (s[i].0, b)), r) == lookup_bucket(s, r),
{
    let t = s.update(i, (s[i].0, b));
    assert forall|x: int, y: int| 0 <= x < y < t.len() implies #[trigger] t[x].0 != #[trigger] t[y].0 by {
        assert(t[x].0 == s[x].0 && t[y].0 == s[y].0);
    }
    lemma_pos_unique(t, i);
    assert forall|r: Route| r != s[i].0 implies lookup_bucket(t, r) == lookup_bucket(s, r) by {
        if has_route(s, r) {
            let p = route_pos(s, r);
            assert(t[p] == s[p]);
            lemma_pos_unique(t, p);
            lemma_pos_unique(s, p);
        } else {
            if has_route(t, r) {
                let q = route_pos(t, r);
                assert(t[q] == s[q]);
            }
        }
    }
}

/// Appending an entry for a new route leaves the other routes' buckets.
pub proof fn lemma_push_entry(s: Seq<(Route, BucketState)>, r0: Route, b: BucketState)
    requires
        routes_distinct(s),
        !has_route(s, r0),
    ensures
        routes_distinct(s.push((r0, b))),
        lookup_bucket(s.push((r0, b)), r0) == Some(b),
        forall|r: Route| r != r0 ==> lookup_bucket(s.push((r0, b)), r) == lookup_bucket(s, r),
{
    let t = s.push((r0, b));
    assert forall|x: int, y: int| 0 <= x < y < t.len() implies #[trigger] t[x].0 != #[trigger] t[y].0 by {
        if y == s.len() {
            assert(t[x] == s[x]);
        } else {
            assert(t[x] == s[x] && t[y] == s[y]);
        }
    }
    lemma_pos_unique(t, s.len() as int);
    assert forall|r: Route| r != r0 implies lookup_bucket(t, r) == lookup_bucket(s, r) by {
        if has_route(s, r) {
            let p = route_pos(s, r);
            assert(t[p] == s[p]);
            lemma_pos_unique(t, p);
            lemma_pos_unique(s, p);
        } else {
            if has_route(t, r) {
                let q = route_pos(t, r);
                assert(q < s.len());
                assert(t[q] == s[q]);
            }
        }
    }
}

pub struct RateLimiter {
    buckets: Vec<(Route, BucketState)>,
}

impl RateLimiter {
    /// The state of a route's bucket (`None` before its first use).
    pub closed spec fn bucket(&self, r: Route) -> Option<BucketState> {
        lookup_bucket(self.buckets@, r)
    }

    /// One entry per route; stored reset times stay below `MAX_RESET_MS`.
    pub closed spec fn wf(&self) -> bool {
        routes_distinct(self.buckets@) && resets_bounded(self.buckets@)
    }

    pub fn new() -> (l: Self)
        ensures
            l.wf(),
            forall|r: Route| l.bucket(r) is None,
    {
        RateLimiter { buckets: Vec::new() }
    }

    /// Index of the route's bucket, creating an empty one on first use.
    fn slot(&mut self, route: Route) -> (i: usize)
        requires
            old(self).wf(),
        ensures
            final(self).wf(),
            i < final(self).buckets@.len(),
            final(self).buckets@[i as int].0 == route,
            final(self).bucket(route) == Some(match old(self).bucket(route) { Some(b) => b, None => empty_bucket() }),
            forall|r: Route| r != route ==> final(self).bucket(r) == old(self).bucket(r),
    {
        let mut i: usize = 0;
        while i < self.buckets.len()
            invariant
                i <= self.buckets@.len(),
                self.buckets@ == old(self).buckets@,
                self.wf(),
                forall|j: int| 0 <= j < i ==> self.buckets@[j].0 != route,
            decreases self.buckets.len() - i,
        {
            if self.buckets[i].0 == route {
                proof { lemma_pos_unique(self.buckets@, i as int); }
                return i;
            }
            i += 1;
        }
        let ghost before = self.buckets@;
        assert(!has_route(before, route));
        let e = BucketState { bucket_id: None, remaining: 0, reset_at_ms: None, limit: None };
        proof { lemma_push_entry(before, route, e); }
        self.buckets.push((route, e));
        assert(self.buckets@ == before.push((route, e)));
        i
    }

    /// How long a request on `route` must wait at `now_ms` before it goes
    /// out: until the bucket's reset (plus 5 ms) when it has no requests
    /// left and the reset lies ahead.
    pub fn acquire_wait_ms(&mut self, route: Route, now_ms: u64) -> (w: Option<u64>)
        requires
            old(self).wf(),
        ensures
            final(self).wf(),
            final(self).bucket(route) == Some(match old(self).bucket(route) { Some(b) => b, None => empty_bucket() }),
            forall|r: Route| r != route ==> final(self).bucket(r) == old(self).bucket(r),
            w == wait_spec(final(self).bucket(route)->0, now_ms),
    {
        let i = self.slot(route);
        proof { lemma_pos_unique(self.buckets@, i as int); }
        let b = &self.buckets[i].1;
        if b.remaining == 0 {
            if let Some(reset) = b.reset_at_ms {
                if reset > now_ms {
                    return Some(reset - now_ms + 5);
                }
            }
        }
        None
    }

    fn replace_at(&mut self, i: usize, b: BucketState)
        requires
            old(self).wf(),
            i < old(self).buckets@.len(),
            b.reset_at_ms matches Some(t) ==> t <= MAX_RESET_MS,
        ensures
            final(self).wf(),
            final(self).bucket(old(self).buckets@[i as int].0) == Some(b),
            forall|r: Route| r != old(self).buckets@[i as int].0 ==> final(self).bucket(r) == old(self).bucket(r),
    {
        let ghost s = self.buckets@;
        let (r, _old) = self.buckets.remove(i);
        self.buckets.insert(i, (r, b));
        assert(self.buckets@ =~= s.update(i as int, (s[i as int].0, b)));
        proof { lemma_replace_entry(s, i as int, b); }
    }

    /// Records the rate-limit headers of a response on `route` (already
    /// parsed; `reset_after_ms` is `X-RateLimit-Reset-After` in ms).
    pub fn update_from_headers(&mut self, route: Route, bucket_id: String, limit: Option<u64>, remaining: Option<i64>, reset_after_ms: Option<u64>, now_ms: u64)
        requires
            old(self).wf(),
            reset_after_ms matches Some(x) ==> now_ms + x <= MAX_RESET_MS,
        ensures
            final(self).wf(),
            ({
                let b = match old(self).bucket(route) { Some(b) => b, None => empty_bucket() };
                final(self).bucket(route) == Some(BucketState {
                    bucket_id: Some(bucket_id),
                    limit: match limit { Some(n) => Some(n), None => b.limit },
                    remaining: match remaining { Some(n) => n, None => b.remaining },
                    reset_at_ms: match reset_after_ms { Some(x) => Some((now_ms + x) as u64), None => b.reset_at_ms },
                })
            }),
            forall|r: Route| r != route ==> final(self).bucket(r) == old(self).bucket(r),
    {
        let i = self.slot(route);
        proof { lemma_pos_unique(self.buckets@, i as int); }
        let cur = &self.buckets[i].1;
        let nb = BucketState {
            bucket_id: Some(bucket_id),
            limit: match limit { Some(n) => Some(n), None => cur.limit },
            remaining: match remaining { Some(n) => n, None => cur.remaining },
            reset_at_ms: match reset_after_ms { Some(x) => Some(now_ms + x), None => cur.reset_at_ms },
        };
        self.replace_at(i, nb);
    }

    /// Marks `route`'s bucket exhausted for `window_ms` (plus 50 ms) after
    /// a 429, so queued requests wait instead of stacking more 429s.
    pub fn mark_exhausted(&mut self, route: Route, window_ms: u64, now_ms: u64)
        requires
            old(self).wf(),
            now_ms + window_ms + 50 <= MAX_RESET_MS,
        ensures
            final(self).wf(),
            ({
                let b = match old(self).bucket(route) { Some(b) => b, None => empty_bucket() };
                final(self).bucket(route) == Some(BucketState {
                    remaining: 0,
                    reset_at_ms: Some((now_ms + window_ms + 50) as u64),
                    ..b
                })
            }),
            forall|r: Route| r != route ==> final(self).bucket(r) == old(self).bucket(r),
    {
        let i = self.slot(route);
        proof { lemma_pos_unique(self.buckets@, i as int); }
        let cur = &self.buckets[i].1;
        let nb = BucketState {
            bucket_id: match &cur.bucket_id { Some(s) => Some(s.clone()), None => None },
            remaining: 0,
            reset_at_ms: Some(now_ms + window_ms + 50),
            limit: cur.limit,
        };
        self.replace_at(i, nb);
    }
}

/// A route whose bucket was just marked exhausted makes the next request
/// wait out the whole window (plus the safety margins).
pub proof fn law_exhausted_bucket_waits(b: BucketState, window_ms: u64, now_ms: u64)
    requires
        now_ms + window_ms + 50 <= MAX_RESET_MS,
    ensures
        wait_spec(BucketState { remaining: 0, reset_at_ms: Some((now_ms + window_ms + 50) as u64), ..b }, now_ms)
            == Some((window_ms + 55) as u64),
{
}

} // verus!
