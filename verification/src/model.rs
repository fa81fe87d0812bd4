//! Discord data types (REST v10 / Gateway v10 payload shapes) and the
//! pure functions over them: display names, CDN URLs and mention strings.
use vstd::prelude::*;
use crate::snowflake::Snowflake;
use crate::text::{all_ws, ascii_upper, is_ascii_seq, chars_of, dec, has_prefix, push_dec, push_str, str_starts_with, string_of, to_uppercase, unicode_upper, word_start_chars, word_starts};

verus! {

pub open spec fn cdn() -> Seq<char> {
    "https://cdn.discordapp.com/"@
}

/// `Some(s)` with `s` non-empty.
pub open spec fn non_empty(o: Option<String>) -> bool {
    o matches Some(s) && s@.len() > 0
}

pub open spec fn animated_hash(h: Seq<char>) -> bool {
    has_prefix(h, "a_"@)
}

/// Copy of an optional string.
pub fn copy_opt_string(o: &Option<String>) -> (r: Option<String>)
    ensures
        r == *o,
{
    match o {
        Some(s) => Some(s.clone()),
        None => None,
    }
}

// ───────────────────────────── Users ─────────────────────────────

#[derive(Debug, Clone, Default)]
pub struct User {
    pub id: Snowflake,
    pub username: String,
    pub global_name: Option<String>,
    pub discriminator: String,
    pub avatar: Option<String>,
    pub bot: bool,
    pub system: bool,
    pub public_flags: Option<u64>,
    pub banner: Option<String>,
    pub accent_color: Option<u32>,
    pub locale: Option<String>,
    pub email: Option<String>,
    pub flags: Option<u64>,
    pub mfa_enabled: Option<bool>,
    pub premium_type: Option<u8>,
}

/// Display name preference: non-empty global name, then non-empty
/// username, then "Unknown".
pub open spec fn user_display_name(u: User) -> Seq<char> {
    if non_empty(u.global_name) {
        u.global_name->0@
    } else if u.username@.len() > 0 {
        u.username@
    } else {
        "Unknown"@
    }
}

pub open spec fn avatar_url_spec(u: User) -> Seq<char> {
    match u.avatar {
        Some(h) => cdn() + "avatars/"@ + dec(u.id.0 as nat) + "/"@ + h@ + "."@
            + (if animated_hash(h@) { "gif"@ } else { "webp"@ }) + "?size=256"@,
        None => cdn() + "embed/avatars/"@ + dec(((u.id.0 / 4_194_304) % 6) as nat)
            + ".png?size=128"@,
    }
}

pub open spec fn banner_url_spec(u: User) -> Option<Seq<char>> {
    match u.banner {
        Some(h) => Some(cdn() + "banners/"@ + dec(u.id.0 as nat) + "/"@ + h@ + "."@
            + (if animated_hash(h@) { "gif"@ } else { "webp"@ }) + "?size=600"@),
        None => None,
    }
}

/// An sRGB color.
#[derive(Debug, Clone, Copy, PartialEq, Eq, Structural)]
pub struct Rgb {
    pub r: u8,
    pub g: u8,
    pub b: u8,
}

impl User {
    pub fn display_name(&self) -> (r: &str)
        ensures
            r@ == user_display_name(*self),
    {
        if let Some(g) = &self.global_name {
            if !g.as_str().is_empty() {
                return g.as_str();
            }
        }
        if !self.username.as_str().is_empty() {
            self.username.as_str()
        } else {
            "Unknown"
        }
    }

    /// Avatar URL; users without an avatar get the numbered default avatar
    /// `(id >> 22) % 6`.
    pub fn avatar_url(&self) -> (r: String)
        ensures
            r@ == avatar_url_spec(*self),
    {
        let mut s = String::new();
        match &self.avatar {
            Some(h) => {
                push_str(&mut s, "https://cdn.discordapp.com/");
                push_str(&mut s, "avatars/");
                push_dec(&mut s, self.id.0);
                push_str(&mut s, "/");
                push_str(&mut s, h.as_str());
                push_str(&mut s, ".");
                if str_starts_with(h.as_str(), "a_") {
                    push_str(&mut s, "gif");
                } else {
                    push_str(&mut s, "webp");
                }
                push_str(&mut s, "?size=256");
            }
            None => {
                push_str(&mut s, "https://cdn.discordapp.com/");
                push_str(&mut s, "embed/avatars/");
                let x = self.id.0;
                assert(x >> 22u64 == x / 4_194_304) by (bit_vector);
                push_dec(&mut s, (x >> 22) % 6);
                push_str(&mut s, ".png?size=128");
            }
        }
        s
    }

    /// Profile banner URL, when the user has one.
    pub fn banner_url(&self) -> (r: Option<String>)
        ensures
            r matches Some(s) ==> banner_url_spec(*self) == Some(s@),
            r is None <==> banner_url_spec(*self) is None,
    {
        match &self.banner {
            Some(h) => {
                let mut s = String::new();
                push_str(&mut s, "https://cdn.discordapp.com/");
                push_str(&mut s, "banners/");
                push_dec(&mut s, self.id.0);
                push_str(&mut s, "/");
                push_str(&mut s, h.as_str());
                push_str(&mut s, ".");
                if str_starts_with(h.as_str(), "a_") {
                    push_str(&mut s, "gif");
                } else {
                    push_str(&mut s, "webp");
                }
                push_str(&mut s, "?size=600");
                Some(s)
            }
            None => None,
        }
    }

    /// Accent color split into its red, green and blue bytes.
    pub fn accent(&self) -> (r: Option<Rgb>)
        ensures
            r matches Some(c) ==> self.accent_color matches Some(a) && c.r == (a / 65536) % 256
                && c.g == (a / 256) % 256 && c.b == a % 256,
            r is None <==> self.accent_color is None,
    {
        match self.accent_color {
            Some(c) => {
                assert((c >> 16u32) & 0xFFu32 == (c / 65536) % 256) by (bit_vector);
                assert((c >> 8u32) & 0xFFu32 == (c / 256) % 256) by (bit_vector);
                assert(c & 0xFFu32 == c % 256) by (bit_vector);
                Some(Rgb {
                    r: ((c >> 16) & 0xFF) as u8,
                    g: ((c >> 8) & 0xFF) as u8,
                    b: (c & 0xFF) as u8,
                })
            }
            None => None,
        }
    }

    /// A field-for-field copy.
    pub fn duplicate(&self) -> (r: User)
        ensures
            r == *self,
    {
        User {
            id: self.id,
            username: self.username.clone(),
            global_name: copy_opt_string(&self.global_name),
            discriminator: self.discriminator.clone(),
            avatar: copy_opt_string(&self.avatar),
            bot: self.bot,
            system: self.system,
            public_flags: self.public_flags,
            banner: copy_opt_string(&self.banner),
            accent_color: self.accent_color,
            locale: copy_opt_string(&self.locale),
            email: copy_opt_string(&self.email),
            flags: self.flags,
            mfa_enabled: self.mfa_enabled,
            premium_type: self.premium_type,
        }
    }
}


// ───────────────────────────── Guilds ─────────────────────────────

#[derive(Debug, Clone, Default)]
pub struct Guild {
    pub id: Snowflake,
    pub name: String,
    pub icon: Option<String>,
    pub banner: Option<String>,
    pub owner: Option<bool>,
    pub owner_id: Option<Snowflake>,
    pub permissions: Option<String>,
    pub premium_tier: Option<u8>,
    pub premium_subscription_count: Option<u32>,
    pub vanity_url_code: Option<String>,
    pub member_count: Option<u32>,
    pub approximate_member_count: Option<u32>,
    pub approximate_presence_count: Option<u32>,
    pub roles: Vec<Role>,
    pub emojis: Vec<Emoji>,
    pub stickers: Vec<StickerItem>,
    pub channels: Vec<Channel>,
    pub members: Vec<Member>,
    pub presences: Vec<PresenceUpdate>,
    pub unavailable: bool,
}

pub open spec fn guild_icon_url_spec(g: Guild) -> Option<Seq<char>> {
    match g.icon {
        Some(h) => Some(cdn() + "icons/"@ + dec(g.id.0 as nat) + "/"@ + h@ + "."@
            + (if animated_hash(h@) { "gif"@ } else { "png"@ }) + "?size=128"@),
        None => None,
    }
}

pub open spec fn guild_banner_url_spec(g: Guild) -> Option<Seq<char>> {
    match g.banner {
        Some(h) => Some(cdn() + "banners/"@ + dec(g.id.0 as nat) + "/"@ + h@ + ".png?size=600"@),
        None => None,
    }
}

/// Up to two word initials, uppercased; "?" for a blank name.
/// The first characters of the first two words (of the one word, when
/// there is one).
pub open spec fn first_two_starts(name: Seq<char>) -> Seq<char> {
    let w = word_starts(name);
    if w.len() >= 2 { w.take(2) } else { w }
}

pub open spec fn guild_initials_spec(name: Seq<char>) -> Seq<char> {
    if all_ws(name) {
        "?"@
    } else {
        unicode_upper(first_two_starts(name))
    }
}

impl Guild {
    pub fn icon_url(&self) -> (r: Option<String>)
        ensures
            r matches Some(s) ==> guild_icon_url_spec(*self) == Some(s@),
            r is None <==> guild_icon_url_spec(*self) is None,
    {
        match &self.icon {
            Some(h) => {
                let mut s = String::new();
                push_str(&mut s, "https://cdn.discordapp.com/");
                push_str(&mut s, "icons/");
                push_dec(&mut s, self.id.0);
                push_str(&mut s, "/");
                push_str(&mut s, h.as_str());
                push_str(&mut s, ".");
                if str_starts_with(h.as_str(), "a_") {
                    push_str(&mut s, "gif");
                } else {
                    push_str(&mut s, "png");
                }
                push_str(&mut s, "?size=128");
                Some(s)
            }
            None => None,
        }
    }

    pub fn banner_url(&self) -> (r: Option<String>)
        ensures
            r matches Some(s) ==> guild_banner_url_spec(*self) == Some(s@),
            r is None <==> guild_banner_url_spec(*self) is None,
    {
        match &self.banner {
            Some(h) => {
                let mut s = String::new();
                push_str(&mut s, "https://cdn.discordapp.com/");
                push_str(&mut s, "banners/");
                push_dec(&mut s, self.id.0);
                push_str(&mut s, "/");
                push_str(&mut s, h.as_str());
                push_str(&mut s, ".png?size=600");
                Some(s)
            }
            None => None,
        }
    }

    pub fn initials(&self) -> (r: String)
        ensures
            r@ == guild_initials_spec(self.name@),
            !all_ws(self.name@) && is_ascii_seq(first_two_starts(self.name@))
                ==> r@ == first_two_starts(self.name@).map_values(|c: char| ascii_upper(c)),
    {
        let cs = chars_of(self.name.as_str());
        let starts = word_start_chars(cs.as_slice());
        if starts.len() == 0 {
            return "?".to_string();
        }
        let mut first: Vec<char> = Vec::new();
        first.push(starts[0]);
        if starts.len() > 1 {
            first.push(starts[1]);
        }
        proof {
            let w = word_starts(self.name@);
            assert(first@ =~= (if w.len() >= 2 { w.take(2) } else { w }));
        }
        let joined = string_of(first.as_slice());
        to_uppercase(joined.as_str())
    }
}

#[derive(Debug, Clone, Default)]
pub struct Role {
    pub id: Snowflake,
    pub name: String,
    pub color: u32,
    pub hoist: bool,
    pub icon: Option<String>,
    pub unicode_emoji: Option<String>,
    pub position: i32,
    pub permissions: String,
    pub mentionable: bool,
}

// ───────────────────────────── Channels ─────────────────────────────

#[derive(Debug, Clone, Copy, PartialEq, Eq, Structural, Default)]
pub enum ChannelType {
    #[default]
    Text,
    Dm,
    Voice,
    GroupDm,
    Category,
    News,
    NewsThread,
    PublicThread,
    PrivateThread,
    StageVoice,
    Directory,
    Forum,
    Media,
}

/// Wire code of each channel type.
pub open spec fn channel_type_code(t: ChannelType) -> u8 {
    match t {
        ChannelType::Text => 0,
        ChannelType::Dm => 1,
        ChannelType::Voice => 2,
        ChannelType::GroupDm => 3,
        ChannelType::Category => 4,
        ChannelType::News => 5,
        ChannelType::NewsThread => 10,
        ChannelType::PublicThread => 11,
        ChannelType::PrivateThread => 12,
        ChannelType::StageVoice => 13,
        ChannelType::Directory => 14,
        ChannelType::Forum => 15,
        ChannelType::Media => 16,
    }
}

pub open spec fn is_known_channel_code(n: u8) -> bool {
    n <= 5 || (10 <= n <= 16)
}

impl ChannelType {
    /// Decodes a wire code; unknown codes read as `Text`.
    pub fn from_code(n: u8) -> (t: ChannelType)
        ensures
            is_known_channel_code(n) ==> channel_type_code(t) == n,
            !is_known_channel_code(n) ==> t == ChannelType::Text,
    {
        match n {
            0 => ChannelType::Text,
            1 => ChannelType::Dm,
            2 => ChannelType::Voice,
            3 => ChannelType::GroupDm,
            4 => ChannelType::Category,
            5 => ChannelType::News,
            10 => ChannelType::NewsThread,
            11 => ChannelType::PublicThread,
            12 => ChannelType::PrivateThread,
            13 => ChannelType::StageVoice,
            14 => ChannelType::Directory,
            15 => ChannelType::Forum,
            16 => ChannelType::Media,
            _ => ChannelType::Text,
        }
    }

    pub fn code(&self) -> (n: u8)
        ensures
            n == channel_type_code(*self),
    {
        match self {
            ChannelType::Text => 0,
            ChannelType::Dm => 1,
            ChannelType::Voice => 2,
            ChannelType::GroupDm => 3,
            ChannelType::Category => 4,
            ChannelType::News => 5,
            ChannelType::NewsThread => 10,
            ChannelType::PublicThread => 11,
            ChannelType::PrivateThread => 12,
            ChannelType::StageVoice => 13,
            ChannelType::Directory => 14,
            ChannelType::Forum => 15,
            ChannelType::Media => 16,
        }
    }
}

/// Decoding a type's own code gives the type back.
pub proof fn lemma_channel_type_code_round_trip(t: ChannelType)
    ensures
        is_known_channel_code(channel_type_code(t)),
{
}

#[derive(Debug, Clone, Default)]
pub struct Channel {
    pub id: Snowflake,
    pub kind: ChannelType,
    pub name: String,
    pub topic: Option<String>,
    pub guild_id: Option<Snowflake>,
    pub parent_id: Option<Snowflake>,
    pub position: Option<i32>,
    pub last_message_id: Option<Snowflake>,
    pub bitrate: Option<u32>,
    pub user_limit: Option<u32>,
    pub recipients: Vec<User>,
    pub recipient_ids: Vec<Snowflake>,
    pub nsfw: bool,
    pub flags: Option<u32>,
}

/// Display names joined with ", ".
pub open spec fn join_names(us: Seq<User>) -> Seq<char>
    decreases us.len(),
{
    if us.len() == 0 {
        seq![]
    } else if us.len() == 1 {
        user_display_name(us[0])
    } else {
        join_names(us.drop_last()) + ", "@ + user_display_name(us.last())
    }
}

pub open spec fn channel_display_name_spec(c: Channel) -> Seq<char> {
    match c.kind {
        ChannelType::Dm => if c.recipients@.len() > 0 {
            user_display_name(c.recipients@[0])
        } else {
            "Unknown"@
        },
        ChannelType::GroupDm => if c.recipients@.len() == 0 {
            "Empty Group"@
        } else if c.recipients@.len() > 3 {
            join_names(c.recipients@.take(3)) + " +"@ + dec((c.recipients@.len() - 3) as nat)
        } else {
            join_names(c.recipients@)
        },
        _ => if c.name@.len() == 0 { "empty-channel"@ } else { c.name@ },
    }
}

pub open spec fn is_text_like_kind(t: ChannelType) -> bool {
    t == ChannelType::Text || t == ChannelType::Dm || t == ChannelType::GroupDm
        || t == ChannelType::News || t == ChannelType::NewsThread
        || t == ChannelType::PublicThread || t == ChannelType::PrivateThread
}

pub open spec fn is_voice_like_kind(t: ChannelType) -> bool {
    t == ChannelType::Voice || t == ChannelType::StageVoice
}

impl Channel {
    pub fn display_name(&self) -> (r: String)
        ensures
            r@ == channel_display_name_spec(*self),
    {
        match self.kind {
            ChannelType::Dm => {
                if self.recipients.len() > 0 {
                    self.recipients[0].display_name().to_string()
                } else {
                    "Unknown".to_string()
                }
            }
            ChannelType::GroupDm => {
                let n = self.recipients.len();
                if n == 0 {
                    return "Empty Group".to_string();
                }
                let upto: usize = if n > 3 { 3 } else { n };
                let mut s = String::new();
                let mut i: usize = 0;
                while i < upto
                    invariant
                        upto <= n,
                        n == self.recipients@.len(),
                        upto == (if n > 3 { 3 } else { n }),
                        0 < n,
                        i <= upto,
                        s@ == join_names(self.recipients@.take(i as int)),
                    decreases upto - i,
                {
                    if i > 0 {
                        push_str(&mut s, ", ");
                    }
                    push_str(&mut s, self.recipients[i].display_name());
                    i += 1;
                    proof {
                        let t = self.recipients@.take(i as int);
                        assert(t.drop_last() =~= self.recipients@.take(i - 1));
                        assert(t.last() == self.recipients@[i - 1]);
                    }
                }
                if n > 3 {
                    push_str(&mut s, " +");
                    push_dec(&mut s, (n - 3) as u64);
                } else {
                    assert(self.recipients@.take(n as int) =~= self.recipients@);
                }
                s
            }
            _ => {
                if self.name.as_str().is_empty() {
                    "empty-channel".to_string()
                } else {
                    self.name.clone()
                }
            }
        }
    }

    pub fn is_text_like(&self) -> (r: bool)
        ensures
            r == is_text_like_kind(self.kind),
    {
        match self.kind {
            ChannelType::Text | ChannelType::Dm | ChannelType::GroupDm | ChannelType::News
            | ChannelType::NewsThread | ChannelType::PublicThread | ChannelType::PrivateThread => true,
            _ => false,
        }
    }

    pub fn is_voice_like(&self) -> (r: bool)
        ensures
            r == is_voice_like_kind(self.kind),
    {
        match self.kind {
            ChannelType::Voice | ChannelType::StageVoice => true,
            _ => false,
        }
    }

    /// Recipient of a DM: the first embedded recipient, else whatever
    /// `fallback` resolves for the first recipient id.
    pub fn dm_recipient<F: Fn(Snowflake) -> Option<User>>(&self, fallback: F) -> (r: Option<User>)
        requires
            self.recipients@.len() == 0 && self.recipient_ids@.len() > 0
                ==> call_requires(fallback, (self.recipient_ids@[0],)),
        ensures
            self.recipients@.len() > 0 ==> r == Some(self.recipients@[0]),
            self.recipients@.len() == 0 && self.recipient_ids@.len() > 0
                ==> call_ensures(fallback, (self.recipient_ids@[0],), r),
            self.recipients@.len() == 0 && self.recipient_ids@.len() == 0 ==> r is None,
    {
        if self.recipients.len() > 0 {
            return Some(self.recipients[0].duplicate());
        }
        if self.recipient_ids.len() > 0 {
            fallback(self.recipient_ids[0])
        } else {
            None
        }
    }
}

/// A channel's contents with its lists taken by their elements, so two
/// channels with equal fields and equal list elements have equal views.
pub struct ChannelV {
    pub id: Snowflake,
    pub kind: ChannelType,
    pub name: Seq<char>,
    pub topic: Option<Seq<char>>,
    pub guild_id: Option<Snowflake>,
    pub parent_id: Option<Snowflake>,
    pub position: Option<i32>,
    pub last_message_id: Option<Snowflake>,
    pub bitrate: Option<u32>,
    pub user_limit: Option<u32>,
    pub recipients: Seq<User>,
    pub recipient_ids: Seq<Snowflake>,
    pub nsfw: bool,
    pub flags: Option<u32>,
}

pub open spec fn channel_view(c: Channel) -> ChannelV {
    ChannelV {
        id: c.id,
        kind: c.kind,
        name: c.name@,
        topic: opt_view(c.topic),
        guild_id: c.guild_id,
        parent_id: c.parent_id,
        position: c.position,
        last_message_id: c.last_message_id,
        bitrate: c.bitrate,
        user_limit: c.user_limit,
        recipients: c.recipients@,
        recipient_ids: c.recipient_ids@,
        nsfw: c.nsfw,
        flags: c.flags,
    }
}

/// Copy of a list of users.
pub fn copy_users(v: &Vec<User>) -> (r: Vec<User>)
    ensures
        r@ == v@,
{
    let mut r: Vec<User> = Vec::new();
    for i in 0..v.len()
        invariant
            r@ == v@.subrange(0, i as int),
    {
        r.push(v[i].duplicate());
        assert(r@ =~= v@.subrange(0, i + 1));
    }
    assert(r@ =~= v@);
    r
}

/// Copy of a list of ids.
pub fn copy_ids(v: &Vec<Snowflake>) -> (r: Vec<Snowflake>)
    ensures
        r@ == v@,
{
    let mut r: Vec<Snowflake> = Vec::new();
    for i in 0..v.len()
        invariant
            r@ == v@.subrange(0, i as int),
    {
        r.push(v[i]);
        assert(r@ =~= v@.subrange(0, i + 1));
    }
    assert(r@ =~= v@);
    r
}

impl Channel {
    /// A field-for-field copy.
    pub fn duplicate(&self) -> (r: Channel)
        ensures
            channel_view(r) == channel_view(*self),
    {
        Channel {
            id: self.id,
            kind: self.kind,
            name: self.name.clone(),
            topic: copy_opt_string(&self.topic),
            guild_id: self.guild_id,
            parent_id: self.parent_id,
            position: self.position,
            last_message_id: self.last_message_id,
            bitrate: self.bitrate,
            user_limit: self.user_limit,
            recipients: copy_users(&self.recipients),
            recipient_ids: copy_ids(&self.recipient_ids),
            nsfw: self.nsfw,
            flags: self.flags,
        }
    }
}


// ───────────────────────────── Messages ─────────────────────────────

#[derive(Debug, Default)]
pub struct Message {
    pub id: Snowflake,
    pub channel_id: Snowflake,
    pub guild_id: Option<Snowflake>,
    pub author: User,
    pub content: String,
    pub timestamp: Option<String>,
    pub edited_timestamp: Option<String>,
    pub mentions: Vec<User>,
    pub mention_roles: Vec<Snowflake>,
    pub mention_everyone: bool,
    pub attachments: Vec<Attachment>,
    pub embeds: Vec<Embed>,
    pub reactions: Vec<Reaction>,
    pub pinned: bool,
    pub kind: u8,
    pub flags: u32,
    pub message_reference: Option<MessageReference>,
    pub sticker_items: Vec<StickerItem>,
    pub referenced_message: Option<Box<Message>>,
    pub nonce: Option<String>,
}

#[derive(Debug, Clone, Default)]
pub struct Attachment {
    pub id: Snowflake,
    pub filename: String,
    pub size: u64,
    pub url: String,
    pub proxy_url: Option<String>,
    pub content_type: Option<String>,
    pub width: Option<u32>,
    pub height: Option<u32>,
}

#[derive(Debug, Clone, Default)]
pub struct Embed {
    pub title: Option<String>,
    pub description: Option<String>,
    pub url: Option<String>,
    pub color: Option<u32>,
    pub timestamp: Option<String>,
    pub footer: Option<EmbedFooter>,
    pub image: Option<EmbedImage>,
    pub thumbnail: Option<EmbedImage>,
    pub author: Option<EmbedAuthor>,
    pub fields: Vec<EmbedField>,
}

#[derive(Debug, Clone, Default)]
pub struct EmbedFooter {
    pub text: String,
    pub icon_url: Option<String>,
}

#[derive(Debug, Clone, Default)]
pub struct EmbedImage {
    pub url: String,
    pub proxy_url: Option<String>,
    pub width: Option<u32>,
    pub height: Option<u32>,
}

#[derive(Debug, Clone, Default)]
pub struct EmbedAuthor {
    pub name: String,
    pub url: Option<String>,
    pub icon_url: Option<String>,
}

#[derive(Debug, Clone, Default)]
pub struct EmbedField {
    pub name: String,
    pub value: String,
    pub inline: bool,
}

#[derive(Debug, Clone, Default)]
pub struct Reaction {
    pub count: u32,
    pub me: bool,
    pub emoji: ReactionEmoji,
}

/// Custom emoji: `{ id, name, animated }`; unicode emoji: `{ name }`.
#[derive(Debug, Clone, Default)]
pub struct ReactionEmoji {
    pub id: Option<Snowflake>,
    pub name: Option<String>,
    pub animated: bool,
}

/// The Discord content string of an emoji: `<:name:id>`, `<a:name:id>`,
/// the bare unicode name, or empty.
pub open spec fn emoji_content_spec(id: Option<Snowflake>, name: Option<Seq<char>>, animated: bool) -> Seq<char> {
    match (id, name) {
        (Some(i), Some(n)) => (if animated { "<a:"@ } else { "<:"@ }) + n + ":"@ + dec(i.0 as nat) + ">"@,
        (None, Some(n)) => n,
        (_, None) => seq![],
    }
}

pub open spec fn opt_view(o: Option<String>) -> Option<Seq<char>> {
    match o {
        Some(s) => Some(s@),
        None => None,
    }
}

pub open spec fn custom_emoji_url_spec(e: ReactionEmoji) -> Option<Seq<char>> {
    match e.id {
        Some(i) => Some(cdn() + "emojis/"@ + dec(i.0 as nat) + "."@
            + (if e.animated { "gif"@ } else { "webp"@ }) + "?size=64&quality=lossless"@),
        None => None,
    }
}

impl ReactionEmoji {
    pub fn content_string(&self) -> (r: String)
        ensures
            r@ == emoji_content_spec(self.id, opt_view(self.name), self.animated),
    {
        match (&self.id, &self.name) {
            (Some(id), Some(name)) => {
                let mut s = String::new();
                if self.animated {
                    push_str(&mut s, "<a:");
                } else {
                    push_str(&mut s, "<:");
                }
                push_str(&mut s, name.as_str());
                push_str(&mut s, ":");
                push_dec(&mut s, id.0);
                push_str(&mut s, ">");
                s
            }
            (None, Some(name)) => name.clone(),
            _ => String::new(),
        }
    }

    /// CDN URL of a custom emoji (GIF when animated, WebP otherwise).
    pub fn custom_emoji_url(&self) -> (r: Option<String>)
        ensures
            r matches Some(s) ==> custom_emoji_url_spec(*self) == Some(s@),
            r is None <==> custom_emoji_url_spec(*self) is None,
    {
        match self.id {
            Some(id) => {
                let mut s = String::new();
                push_str(&mut s, "https://cdn.discordapp.com/");
                push_str(&mut s, "emojis/");
                push_dec(&mut s, id.0);
                push_str(&mut s, ".");
                if self.animated {
                    push_str(&mut s, "gif");
                } else {
                    push_str(&mut s, "webp");
                }
                push_str(&mut s, "?size=64&quality=lossless");
                Some(s)
            }
            None => None,
        }
    }

    /// A field-for-field copy.
    pub fn duplicate(&self) -> (r: ReactionEmoji)
        ensures
            r == *self,
    {
        ReactionEmoji { id: self.id, name: copy_opt_string(&self.name), animated: self.animated }
    }
}

#[derive(Debug, Clone, Default)]
pub struct MessageReference {
    pub message_id: Option<Snowflake>,
    pub channel_id: Option<Snowflake>,
    pub guild_id: Option<Snowflake>,
}

// ───────────────────────────── Presence / Member ─────────────────────────────

#[derive(Debug, Clone, Default)]
pub struct Member {
    pub user: Option<User>,
    pub nick: Option<String>,
    pub roles: Vec<Snowflake>,
    pub joined_at: Option<String>,
    pub premium_since: Option<String>,
    pub avatar: Option<String>,
    pub deaf: bool,
    pub mute: bool,
    pub pending: bool,
    pub communication_disabled_until: Option<String>,
}

/// The partial user that rides along presence payloads; only `id` is
/// guaranteed.
#[derive(Debug, Clone, Default)]
pub struct PartialUser {
    pub id: Snowflake,
    pub username: Option<String>,
    pub global_name: Option<String>,
    pub discriminator: String,
    pub avatar: Option<String>,
    pub bot: bool,
}

pub open spec fn partial_display_name(u: PartialUser) -> Option<Seq<char>> {
    if non_empty(u.global_name) {
        Some(u.global_name->0@)
    } else if non_empty(u.username) {
        Some(u.username->0@)
    } else {
        None
    }
}

impl PartialUser {
    /// Display name, when the payload carried a non-empty one.
    pub fn display_name(&self) -> (r: Option<&str>)
        ensures
            r matches Some(s) ==> partial_display_name(*self) == Some(s@),
            r is None <==> partial_display_name(*self) is None,
    {
        if let Some(g) = &self.global_name {
            if !g.as_str().is_empty() {
                return Some(g.as_str());
            }
        }
        if let Some(u) = &self.username {
            if !u.as_str().is_empty() {
                return Some(u.as_str());
            }
        }
        None
    }
}

#[derive(Debug, Clone, Default)]
pub struct PresenceUpdate {
    pub user: PartialUser,
    pub status: String,
    pub activities: Vec<Activity>,
}

#[derive(Debug, Clone, Default)]
pub struct Activity {
    pub kind: u8,
    pub name: String,
    pub state: Option<String>,
    pub details: Option<String>,
    pub application_id: Option<Snowflake>,
    pub timestamps: Vec<(String, u64)>,
    pub emoji: Option<ReactionEmoji>,
    pub assets: Vec<(String, String)>,
}

#[derive(Debug, Clone, Default)]
pub struct VoiceState {
    pub user_id: Snowflake,
    pub guild_id: Option<Snowflake>,
    pub channel_id: Option<Snowflake>,
    pub self_mute: bool,
    pub self_deaf: bool,
    pub suppress: bool,
}

#[derive(Debug, Clone, Default)]
pub struct TypingStart {
    pub channel_id: Snowflake,
    pub user_id: Snowflake,
    pub timestamp: u64,
    pub guild_id: Option<Snowflake>,
    pub member: Option<Member>,
}

/// A custom guild emoji.
#[derive(Debug, Clone, Default)]
pub struct Emoji {
    pub id: Snowflake,
    pub name: String,
    pub animated: bool,
    pub managed: bool,
    pub available: bool,
}

pub open spec fn emoji_url_spec(e: Emoji) -> Seq<char> {
    cdn() + "emojis/"@ + dec(e.id.0 as nat) + "."@ + (if e.animated { "gif"@ } else { "png"@ })
}

impl Emoji {
    pub fn url(&self) -> (r: String)
        ensures
            r@ == emoji_url_spec(*self),
    {
        let mut s = String::new();
        push_str(&mut s, "https://cdn.discordapp.com/");
        push_str(&mut s, "emojis/");
        push_dec(&mut s, self.id.0);
        push_str(&mut s, ".");
        if self.animated {
            push_str(&mut s, "gif");
        } else {
            push_str(&mut s, "png");
        }
        s
    }

    /// The `<:name:id>` / `<a:name:id>` form used in message content.
    pub fn mention(&self) -> (r: String)
        ensures
            r@ == emoji_content_spec(Some(self.id), Some(self.name@), self.animated),
    {
        let mut s = String::new();
        if self.animated {
            push_str(&mut s, "<a:");
        } else {
            push_str(&mut s, "<:");
        }
        push_str(&mut s, self.name.as_str());
        push_str(&mut s, ":");
        push_dec(&mut s, self.id.0);
        push_str(&mut s, ">");
        s
    }
}

/// YouTube oEmbed metadata.
#[derive(Debug, Clone, Default)]
pub struct OEmbedInfo {
    pub title: Option<String>,
    pub author_name: Option<String>,
    pub thumbnail_url: Option<String>,
}

/// A sticker attached to a message. Format 1 = PNG, 2 = APNG,
/// 3 = Lottie, 4 = GIF.
#[derive(Debug, Clone, Default)]
pub struct StickerItem {
    pub id: Snowflake,
    pub name: String,
    pub description: Option<String>,
    pub format_type: u8,
}

pub open spec fn sticker_url_spec(s: StickerItem) -> Seq<char> {
    cdn() + "stickers/"@ + dec(s.id.0 as nat) + "."@
        + (if s.format_type == 3 { "json"@ } else if s.format_type == 4 { "gif"@ } else { "png"@ })
}

impl StickerItem {
    pub fn url(&self) -> (r: String)
        ensures
            r@ == sticker_url_spec(*self),
    {
        let mut s = String::new();
        push_str(&mut s, "https://cdn.discordapp.com/");
        push_str(&mut s, "stickers/");
        push_dec(&mut s, self.id.0);
        push_str(&mut s, ".");
        if self.format_type == 3 {
            push_str(&mut s, "json");
        } else if self.format_type == 4 {
            push_str(&mut s, "gif");
        } else {
            push_str(&mut s, "png");
        }
        s
    }
}

/// User profile extras (bio, pronouns).
#[derive(Debug, Clone, Default)]
pub struct UserProfile {
    pub bio: Option<String>,
    pub pronouns: Option<String>,
    pub banner: Option<String>,
    pub accent_color: Option<u32>,
    pub premium_type: Option<u8>,
    pub user: Option<User>,
}

/// A guild scheduled event.
#[derive(Debug, Clone, Default)]
pub struct ScheduledEvent {
    pub id: Snowflake,
    pub name: String,
    pub description: Option<String>,
    pub status: u8,
    pub start: Option<String>,
    pub end: Option<String>,
    pub user_count: Option<u32>,
}

} // verus!
