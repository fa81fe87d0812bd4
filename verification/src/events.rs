//! Gateway dispatch events (op 0) as the state layer consumes them.
//!
//! Known event names select a typed payload; everything else is kept as
//! `Unknown` with its name so new Discord events never break a session.
use vstd::prelude::*;
use crate::model::{Attachment, Channel, Embed, Guild, Member, Message, PresenceUpdate, ReactionEmoji, TypingStart, User, VoiceState};
use crate::snowflake::Snowflake;
use crate::text::str_eq;

verus! {

/// The READY payload: the account, its guilds, its DM channels and the
/// session to resume.
#[derive(Debug, Default)]
pub struct ReadyPayload {
    pub session_id: String,
    pub resume_gateway_url: String,
    pub shard: Option<[u32; 2]>,
    pub v: Option<u32>,
    pub user: User,
    pub guilds: Vec<Guild>,
    pub private_channels_v1: Vec<Channel>,
    pub private_channels_v2: Vec<Channel>,
    pub users: Vec<User>,
    pub merged_members: Vec<Vec<Member>>,
    pub session_type: Option<String>,
    pub geo: Option<String>,
}

/// A slice of a guild's member list with live presences.
#[derive(Debug, Default)]
pub struct GuildMembersChunkData {
    pub guild_id: Snowflake,
    pub members: Vec<Member>,
    pub presences: Vec<PresenceUpdate>,
    pub chunk_index: u32,
    pub chunk_count: u32,
    pub not_found: Vec<Snowflake>,
}

/// MESSAGE_UPDATE: only the fields that changed are present.
#[derive(Debug, Default)]
pub struct PartialMessage {
    pub id: Snowflake,
    pub channel_id: Snowflake,
    pub guild_id: Option<Snowflake>,
    pub author: Option<User>,
    pub content: Option<String>,
    pub edited_timestamp: Option<String>,
    pub attachments: Option<Vec<Attachment>>,
    pub embeds: Option<Vec<Embed>>,
    pub mentions: Option<Vec<User>>,
    pub flags: Option<u32>,
}

#[derive(Debug, Clone, Copy, Default)]
pub struct MessageDelete {
    pub id: Snowflake,
    pub channel_id: Snowflake,
    pub guild_id: Option<Snowflake>,
}

#[derive(Debug, Default)]
pub struct MessageDeleteBulk {
    pub ids: Vec<Snowflake>,
    pub channel_id: Snowflake,
    pub guild_id: Option<Snowflake>,
}

#[derive(Debug, Default)]
pub struct VoiceServerUpdate {
    pub token: String,
    pub guild_id: Option<Snowflake>,
    pub endpoint: Option<String>,
}

/// MESSAGE_REACTION_ADD / _REMOVE as read off the wire: the two ids as
/// their JSON strings (absent when missing or not a string) and the
/// emoji when it decoded.
#[derive(Debug, Default)]
pub struct ReactionEvent {
    pub channel_id: Option<String>,
    pub message_id: Option<String>,
    pub emoji: Option<ReactionEmoji>,
}

/// A dispatch event, plus the two internal events the UI raises.
#[derive(Debug)]
pub enum Event {
    Ready { d: Box<ReadyPayload> },
    Resumed,
    GuildCreate { d: Guild },
    GuildMembersChunk { d: Box<GuildMembersChunkData> },
    /// GUILD_DELETE: the guild id as its JSON string, when present.
    GuildDelete { id: Option<String> },
    GuildUpdate { d: Guild },
    ChannelCreate { d: Channel },
    ChannelUpdate { d: Channel },
    ChannelDelete { d: Channel },
    ChannelPinsUpdate,
    MessageCreate { d: Message },
    MessageUpdate { d: PartialMessage },
    MessageDelete { d: MessageDelete },
    MessageDeleteBulk { d: MessageDeleteBulk },
    MessageReactionAdd { d: ReactionEvent },
    MessageReactionRemove { d: ReactionEvent },
    MessageReactionRemoveAll,
    MessageReactionRemoveEmoji,
    TypingStart { d: TypingStart },
    PresenceUpdate { d: PresenceUpdate },
    VoiceStateUpdate { d: VoiceState },
    VoiceServerUpdate { d: VoiceServerUpdate },
    UserUpdate { d: User },
    /// The UI asks for a presence change; the app forwards it to the gateway.
    PresenceRequested { status: String },
    /// A background task changed what the UI renders.
    RepaintRequested,
    /// An event this client does not model.
    Unknown { name: String },
}

/// Which payload a dispatch event name carries.
#[derive(Debug, Clone, Copy, PartialEq, Eq, Structural)]
pub enum EventKind {
    Ready,
    Resumed,
    GuildCreate,
    GuildDelete,
    GuildMembersChunk,
    GuildUpdate,
    ChannelCreate,
    ChannelUpdate,
    ChannelDelete,
    ChannelPinsUpdate,
    MessageCreate,
    MessageUpdate,
    MessageDelete,
    MessageDeleteBulk,
    MessageReactionAdd,
    MessageReactionRemove,
    MessageReactionRemoveAll,
    MessageReactionRemoveEmoji,
    TypingStart,
    PresenceUpdate,
    VoiceStateUpdate,
    VoiceServerUpdate,
    UserUpdate,
    Unknown,
}

/// The event-name table of the gateway's dispatch frames.
pub open spec fn dispatch_kind_spec(name: Seq<char>) -> EventKind {
    if name == "READY"@ { EventKind::Ready }
    else if name == "RESUMED"@ { EventKind::Resumed }
    else if name == "GUILD_CREATE"@ { EventKind::GuildCreate }
    else if name == "GUILD_DELETE"@ { EventKind::GuildDelete }
    else if name == "GUILD_MEMBERS_CHUNK"@ { EventKind::GuildMembersChunk }
    else if name == "GUILD_UPDATE"@ { EventKind::GuildUpdate }
    else if name == "CHANNEL_CREATE"@ { EventKind::ChannelCreate }
    else if name == "CHANNEL_UPDATE"@ { EventKind::ChannelUpdate }
    else if name == "CHANNEL_DELETE"@ { EventKind::ChannelDelete }
    else if name == "CHANNEL_PINS_UPDATE"@ { EventKind::ChannelPinsUpdate }
    else if name == "MESSAGE_CREATE"@ { EventKind::MessageCreate }
    else if name == "MESSAGE_UPDATE"@ { EventKind::MessageUpdate }
    else if name == "MESSAGE_DELETE"@ { EventKind::MessageDelete }
    else if name == "MESSAGE_DELETE_BULK"@ { EventKind::MessageDeleteBulk }
    else if name == "MESSAGE_REACTION_ADD"@ { EventKind::MessageReactionAdd }
    else if name == "MESSAGE_REACTION_REMOVE"@ { EventKind::MessageReactionRemove }
    else if name == "MESSAGE_REACTION_REMOVE_ALL"@ { EventKind::MessageReactionRemoveAll }
    else if name == "MESSAGE_REACTION_REMOVE_EMOJI"@ { EventKind::MessageReactionRemoveEmoji }
    else if name == "TYPING_START"@ { EventKind::TypingStart }
    else if name == "PRESENCE_UPDATE"@ { EventKind::PresenceUpdate }
    else if name == "VOICE_STATE_UPDATE"@ { EventKind::VoiceStateUpdate }
    else if name == "VOICE_SERVER_UPDATE"@ { EventKind::VoiceServerUpdate }
    else if name == "USER_UPDATE"@ { EventKind::UserUpdate }
    else { EventKind::Unknown }
}

/// Classifies a dispatch event by its `t` field.
pub fn dispatch_kind(name: &str) -> (k: EventKind)
    ensures
        k == dispatch_kind_spec(name@),
{
    if str_eq(name, "READY") { EventKind::Ready }
    else if str_eq(name, "RESUMED") { EventKind::Resumed }
    else if str_eq(name, "GUILD_CREATE") { EventKind::GuildCreate }
    else if str_eq(name, "GUILD_DELETE") { EventKind::GuildDelete }
    else if str_eq(name, "GUILD_MEMBERS_CHUNK") { EventKind::GuildMembersChunk }
    else if str_eq(name, "GUILD_UPDATE") { EventKind::GuildUpdate }
    else if str_eq(name, "CHANNEL_CREATE") { EventKind::ChannelCreate }
    else if str_eq(name, "CHANNEL_UPDATE") { EventKind::ChannelUpdate }
    else if str_eq(name, "CHANNEL_DELETE") { EventKind::ChannelDelete }
    else if str_eq(name, "CHANNEL_PINS_UPDATE") { EventKind::ChannelPinsUpdate }
    else if str_eq(name, "MESSAGE_CREATE") { EventKind::MessageCreate }
    else if str_eq(name, "MESSAGE_UPDATE") { EventKind::MessageUpdate }
    else if str_eq(name, "MESSAGE_DELETE") { EventKind::MessageDelete }
    else if str_eq(name, "MESSAGE_DELETE_BULK") { EventKind::MessageDeleteBulk }
    else if str_eq(name, "MESSAGE_REACTION_ADD") { EventKind::MessageReactionAdd }
    else if str_eq(name, "MESSAGE_REACTION_REMOVE") { EventKind::MessageReactionRemove }
    else if str_eq(name, "MESSAGE_REACTION_REMOVE_ALL") { EventKind::MessageReactionRemoveAll }
    else if str_eq(name, "MESSAGE_REACTION_REMOVE_EMOJI") { EventKind::MessageReactionRemoveEmoji }
    else if str_eq(name, "TYPING_START") { EventKind::TypingStart }
    else if str_eq(name, "PRESENCE_UPDATE") { EventKind::PresenceUpdate }
    else if str_eq(name, "VOICE_STATE_UPDATE") { EventKind::VoiceStateUpdate }
    else if str_eq(name, "VOICE_SERVER_UPDATE") { EventKind::VoiceServerUpdate }
    else if str_eq(name, "USER_UPDATE") { EventKind::UserUpdate }
    else { EventKind::Unknown }
}

} // verus!
