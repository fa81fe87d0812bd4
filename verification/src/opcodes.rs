//! Discord gateway opcodes, close codes, intents and the reconnect
//! backoff ladder.
use vstd::prelude::*;

verus! {

#[derive(Debug, Clone, Copy, PartialEq, Eq, Structural, Hash)]
pub enum GatewayOp {
    Heartbeat,
    Identify,
    PresenceUpdate,
    VoiceStateUpdate,
    VoiceServerPing,
    Resume,
    Reconnect,
    RequestGuildMembers,
    InvalidSession,
    Hello,
    HeartbeatAck,
    GuildSync,
}

/// Wire number of each opcode.
pub open spec fn op_code(op: GatewayOp) -> u8 {
    match op {
        GatewayOp::Heartbeat => 1,
        GatewayOp::Identify => 2,
        GatewayOp::PresenceUpdate => 3,
        GatewayOp::VoiceStateUpdate => 4,
        GatewayOp::VoiceServerPing => 5,
        GatewayOp::Resume => 6,
        GatewayOp::Reconnect => 7,
        GatewayOp::RequestGuildMembers => 8,
        GatewayOp::InvalidSession => 9,
        GatewayOp::Hello => 10,
        GatewayOp::HeartbeatAck => 11,
        GatewayOp::GuildSync => 12,
    }
}

impl GatewayOp {
    pub fn from_u8(n: u8) -> (r: Option<GatewayOp>)
        ensures
            r matches Some(op) ==> op_code(op) == n,
            r is None <==> (n == 0 || n > 12),
    {
        match n {
            1 => Some(GatewayOp::Heartbeat),
            2 => Some(GatewayOp::Identify),
            3 => Some(GatewayOp::PresenceUpdate),
            4 => Some(GatewayOp::VoiceStateUpdate),
            5 => Some(GatewayOp::VoiceServerPing),
            6 => Some(GatewayOp::Resume),
            7 => Some(GatewayOp::Reconnect),
            8 => Some(GatewayOp::RequestGuildMembers),
            9 => Some(GatewayOp::InvalidSession),
            10 => Some(GatewayOp::Hello),
            11 => Some(GatewayOp::HeartbeatAck),
            12 => Some(GatewayOp::GuildSync),
            _ => None,
        }
    }

    pub fn code(&self) -> (n: u8)
        ensures
            n == op_code(*self),
    {
        match self {
            GatewayOp::Heartbeat => 1,
            GatewayOp::Identify => 2,
            GatewayOp::PresenceUpdate => 3,
            GatewayOp::VoiceStateUpdate => 4,
            GatewayOp::VoiceServerPing => 5,
            GatewayOp::Resume => 6,
            GatewayOp::Reconnect => 7,
            GatewayOp::RequestGuildMembers => 8,
            GatewayOp::InvalidSession => 9,
            GatewayOp::Hello => 10,
            GatewayOp::HeartbeatAck => 11,
            GatewayOp::GuildSync => 12,
        }
    }
}

/// Every opcode decodes back from its own wire number.
pub proof fn lemma_op_round_trip(op: GatewayOp)
    ensures
        1 <= op_code(op) <= 12,
{
}

/// Gateway close codes; they decide between RESUME, re-IDENTIFY and
/// giving up.
#[derive(Debug, Clone, Copy, PartialEq, Eq, Structural)]
pub enum GatewayCloseCode {
    UnknownError,
    UnknownOpcode,
    DecodeError,
    NotAuthenticated,
    AuthenticationFailed,
    AlreadyAuthenticated,
    InvalidSeq,
    RateLimited,
    SessionTimedOut,
    InvalidShard,
    ShardingRequired,
    InvalidApiVersion,
    InvalidIntents,
    DisallowedIntents,
    VoiceDisconnected,
    VoiceReconnect,
}

pub open spec fn close_code_value(c: GatewayCloseCode) -> u16 {
    match c {
        GatewayCloseCode::UnknownError => 4000,
        GatewayCloseCode::UnknownOpcode => 4001,
        GatewayCloseCode::DecodeError => 4002,
        GatewayCloseCode::NotAuthenticated => 4003,
        GatewayCloseCode::AuthenticationFailed => 4004,
        GatewayCloseCode::AlreadyAuthenticated => 4005,
        GatewayCloseCode::InvalidSeq => 4007,
        GatewayCloseCode::RateLimited => 4008,
        GatewayCloseCode::SessionTimedOut => 4009,
        GatewayCloseCode::InvalidShard => 4010,
        GatewayCloseCode::ShardingRequired => 4011,
        GatewayCloseCode::InvalidApiVersion => 4012,
        GatewayCloseCode::InvalidIntents => 4013,
        GatewayCloseCode::DisallowedIntents => 4014,
        GatewayCloseCode::VoiceDisconnected => 1000,
        GatewayCloseCode::VoiceReconnect => 1012,
    }
}

pub open spec fn is_known_close_code(n: u16) -> bool {
    (4000 <= n <= 4014 && n != 4006) || n == 1000 || n == 1012
}

impl GatewayCloseCode {
    /// Reconnecting is allowed for every code but `AuthenticationFailed`
    /// (a bad token will not get better).
    pub fn reconnect_allowed(self) -> (r: bool)
        ensures
            r == (self != GatewayCloseCode::AuthenticationFailed),
    {
        !matches!(self, GatewayCloseCode::AuthenticationFailed)
    }

    pub fn value(&self) -> (n: u16)
        ensures
            n == close_code_value(*self),
    {
        match self {
            GatewayCloseCode::UnknownError => 4000,
            GatewayCloseCode::UnknownOpcode => 4001,
            GatewayCloseCode::DecodeError => 4002,
            GatewayCloseCode::NotAuthenticated => 4003,
            GatewayCloseCode::AuthenticationFailed => 4004,
            GatewayCloseCode::AlreadyAuthenticated => 4005,
            GatewayCloseCode::InvalidSeq => 4007,
            GatewayCloseCode::RateLimited => 4008,
            GatewayCloseCode::SessionTimedOut => 4009,
            GatewayCloseCode::InvalidShard => 4010,
            GatewayCloseCode::ShardingRequired => 4011,
            GatewayCloseCode::InvalidApiVersion => 4012,
            GatewayCloseCode::InvalidIntents => 4013,
            GatewayCloseCode::DisallowedIntents => 4014,
            GatewayCloseCode::VoiceDisconnected => 1000,
            GatewayCloseCode::VoiceReconnect => 1012,
        }
    }
}

pub fn from_close_code(code: u16) -> (r: Option<GatewayCloseCode>)
    ensures
        r matches Some(c) ==> close_code_value(c) == code,
        r is None <==> !is_known_close_code(code),
{
    match code {
        4000 => Some(GatewayCloseCode::UnknownError),
        4001 => Some(GatewayCloseCode::UnknownOpcode),
        4002 => Some(GatewayCloseCode::DecodeError),
        4003 => Some(GatewayCloseCode::NotAuthenticated),
        4004 => Some(GatewayCloseCode::AuthenticationFailed),
        4005 => Some(GatewayCloseCode::AlreadyAuthenticated),
        4007 => Some(GatewayCloseCode::InvalidSeq),
        4008 => Some(GatewayCloseCode::RateLimited),
        4009 => Some(GatewayCloseCode::SessionTimedOut),
        4010 => Some(GatewayCloseCode::InvalidShard),
        4011 => Some(GatewayCloseCode::ShardingRequired),
        4012 => Some(GatewayCloseCode::InvalidApiVersion),
        4013 => Some(GatewayCloseCode::InvalidIntents),
        4014 => Some(GatewayCloseCode::DisallowedIntents),
        1000 => Some(GatewayCloseCode::VoiceDisconnected),
        1012 => Some(GatewayCloseCode::VoiceReconnect),
        _ => None,
    }
}

/// Decoding the value of a close code gives the same code back.
pub proof fn lemma_close_code_round_trip(c: GatewayCloseCode)
    ensures
        is_known_close_code(close_code_value(c)),
{
}

// ── Intents ──

pub const GUILDS: u32 = 1;
pub const GUILD_MEMBERS: u32 = 2;
pub const GUILD_MODERATION: u32 = 4;
pub const GUILD_EMOJIS_AND_STICKERS: u32 = 8;
pub const GUILD_INTEGRATIONS: u32 = 16;
pub const GUILD_WEBHOOKS: u32 = 32;
pub const GUILD_INVITES: u32 = 64;
pub const GUILD_VOICE_STATES: u32 = 128;
pub const GUILD_PRESENCES: u32 = 256;
pub const GUILD_MESSAGES: u32 = 512;
pub const GUILD_MESSAGE_REACTIONS: u32 = 1024;
pub const GUILD_MESSAGE_TYPING: u32 = 2048;
pub const DIRECT_MESSAGES: u32 = 4096;
pub const DIRECT_MESSAGE_REACTIONS: u32 = 8192;
pub const DIRECT_MESSAGE_TYPING: u32 = 16384;
pub const MESSAGE_CONTENT: u32 = 32768;

/// Non-privileged baseline: guilds, voice states, messages, reactions
/// and typing, in guilds and DMs.
pub const BASELINE_INTENTS: u32 = 32385;
/// Baseline plus the privileged members, presences and message content.
pub const FULL_INTENTS: u32 = 65411;
/// Baseline plus message content.
pub const DEFAULT_INTENTS: u32 = 65153;

/// Capabilities bitmask sent in IDENTIFY.
pub const CLIENT_CAPABILITIES: u32 = 16381;

/// The intent sets are the unions their documentation names.
pub proof fn lemma_intent_sets()
    ensures
        BASELINE_INTENTS == GUILDS | GUILD_VOICE_STATES | GUILD_MESSAGES | GUILD_MESSAGE_REACTIONS
            | GUILD_MESSAGE_TYPING | DIRECT_MESSAGES | DIRECT_MESSAGE_REACTIONS | DIRECT_MESSAGE_TYPING,
        FULL_INTENTS == BASELINE_INTENTS | GUILD_MEMBERS | GUILD_PRESENCES | MESSAGE_CONTENT,
        DEFAULT_INTENTS == BASELINE_INTENTS | MESSAGE_CONTENT,
        BASELINE_INTENTS & (GUILD_MEMBERS | GUILD_PRESENCES | MESSAGE_CONTENT) == 0,
{
    assert(32385u32 == 1u32 | 128u32 | 512u32 | 1024u32 | 2048u32 | 4096u32 | 8192u32 | 16384u32) by (bit_vector);
    assert(65411u32 == 32385u32 | 2u32 | 256u32 | 32768u32) by (bit_vector);
    assert(65153u32 == 32385u32 | 32768u32) by (bit_vector);
    assert(32385u32 & (2u32 | 256u32 | 32768u32) == 0) by (bit_vector);
}

// ── Reconnect backoff ──

/// First reconnect delay, ms.
pub const BASE_BACKOFF_MS: u64 = 1_000;
/// Longest reconnect delay, ms.
pub const MAX_BACKOFF_MS: u64 = 60_000;
/// A connection that lived this long counts as stable (ms).
pub const STABLE_CONN_MS: u64 = 30_000;

pub open spec fn next_backoff_spec(backoff: u64, lived_ms: u64) -> u64 {
    if lived_ms < STABLE_CONN_MS {
        let base = if backoff >= BASE_BACKOFF_MS { backoff } else { BASE_BACKOFF_MS };
        if base as nat * 2 > MAX_BACKOFF_MS as nat { MAX_BACKOFF_MS } else { (base * 2) as u64 }
    } else {
        BASE_BACKOFF_MS
    }
}

/// Delay before the next reconnect after a connection that lived
/// `lived_ms`: a short-lived connection doubles the previous delay
/// (at least the base, at most the cap); a stable one resets it.
pub fn next_backoff(backoff: u64, lived_ms: u64) -> (r: u64)
    ensures
        r == next_backoff_spec(backoff, lived_ms),
        BASE_BACKOFF_MS <= r <= MAX_BACKOFF_MS,
{
    if lived_ms < STABLE_CONN_MS {
        let base = if backoff >= BASE_BACKOFF_MS { backoff } else { BASE_BACKOFF_MS };
        ladder_step(base)
    } else {
        BASE_BACKOFF_MS
    }
}

/// One step of the doubling ladder: `min(b * 2, MAX)`, saturating.
pub fn ladder_step(b: u64) -> (r: u64)
    ensures
        r == (if b as nat * 2 > MAX_BACKOFF_MS as nat { MAX_BACKOFF_MS } else { (b * 2) as u64 }),
{
    if b > MAX_BACKOFF_MS / 2 { MAX_BACKOFF_MS } else { b * 2 }
}

/// The ladder starting from the base never exceeds the cap and
/// reaches it after at most six doublings.
pub proof fn lemma_backoff_bounded(backoff: u64, lived_ms: u64)
    ensures
        BASE_BACKOFF_MS <= next_backoff_spec(backoff, lived_ms) <= MAX_BACKOFF_MS,
        lived_ms < STABLE_CONN_MS && backoff >= MAX_BACKOFF_MS / 2
            ==> next_backoff_spec(backoff, lived_ms) == MAX_BACKOFF_MS,
        lived_ms >= STABLE_CONN_MS ==> next_backoff_spec(backoff, lived_ms) == BASE_BACKOFF_MS,
{
}

} // verus!
