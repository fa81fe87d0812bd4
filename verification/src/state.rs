//! Shared app state: the in-memory cache of guilds, channels and messages,
//! the current selection, the gateway session, presence, unread and typing
//! tracking, and the user's own status.
//!
//! Bounded memory policy: at most `MAX_MESSAGES_PER_CHANNEL` messages per
//! channel (the newest ones) and at most `MAX_CACHED_USERS` user records,
//! least recently touched first out.
use vstd::prelude::*;
use crate::events::Event;
use crate::events::ReactionEvent;
use crate::model::{channel_view, emoji_content_spec, non_empty, opt_view, partial_display_name, user_display_name, ChannelV, ChannelType, Channel, Guild, Member, Message, PartialUser, PresenceUpdate, Reaction, ReactionEmoji, TypingStart, User};
use crate::events::{MessageDelete, MessageDeleteBulk, PartialMessage, ReadyPayload};
use crate::seqs::{keep_flagged, lemma_flagged_filter};
use crate::text::parse_u64_spec;
use crate::snowflake::Snowflake;
use crate::table::Table;

verus! {

pub const MAX_MESSAGES_PER_CHANNEL: usize = 100;
pub const MAX_CACHED_USERS: usize = 5000;
/// How long a typing indicator stays alive after TYPING_START, in ms.
pub const TYPING_WINDOW_MS: u64 = 8000;

#[derive(Debug, Clone, Copy, PartialEq, Eq, Structural)]
pub enum ConnectionStatus {
    Disconnected,
    Connecting,
    Connected,
    AuthFailed,
    DisallowedIntent,
    Reconnecting,
}

#[derive(Debug)]
pub struct SessionInfo {
    pub session_id: String,
    pub resume_gateway_url: String,
}

impl SessionInfo {
    /// A field-for-field copy.
    pub fn duplicate(&self) -> (r: SessionInfo)
        ensures
            r == *self,
    {
        SessionInfo { session_id: self.session_id.clone(), resume_gateway_url: self.resume_gateway_url.clone() }
    }
}

#[derive(Debug, Clone, Copy, Default)]
pub struct Selection {
    pub guild_id: Option<Snowflake>,
    pub channel_id: Option<Snowflake>,
}

/// Entry of the user LRU: the record and when it was last touched.
#[derive(Debug)]
pub struct UserEntry {
    pub user: User,
    pub last_touched_ms: u64,
}

/// A live typing indicator.
#[derive(Debug)]
pub struct TypingUser {
    pub user_id: Snowflake,
    pub name: String,
    pub since_ms: u64,
}

pub struct TypingV {
    pub user_id: Snowflake,
    pub name: Seq<char>,
    pub since_ms: u64,
}

pub open spec fn typing_view(t: TypingUser) -> TypingV {
    TypingV { user_id: t.user_id, name: t.name@, since_ms: t.since_ms }
}

pub open spec fn typing_seq_view(s: Seq<TypingUser>) -> Seq<TypingV> {
    s.map_values(|t: TypingUser| typing_view(t))
}

/// Everything the cache holds, as mathematical values.
#[verifier::ext_equal]
pub struct StateView {
    pub connection_status: ConnectionStatus,
    pub session: Option<SessionInfo>,
    pub last_seq: Option<Snowflake>,
    pub heartbeat_ack: bool,
    pub reconnect_requested: bool,
    pub settings_open: bool,
    pub guilds: Seq<Guild>,
    pub channels: Seq<ChannelV>,
    pub current_user: Option<User>,
    pub users: Seq<UserEntry>,
    pub selection: Selection,
    pub messages: Map<u64, Seq<Message>>,
    pub fetched: Set<u64>,
    pub presences: Map<u64, Seq<char>>,
    pub own_status: Seq<char>,
    pub unread: Map<u64, u32>,
    pub mentions: Map<u64, u32>,
    pub typing: Map<u64, Seq<TypingV>>,
    pub guild_members: Map<u64, Seq<Snowflake>>,
    pub intents_limited: bool,
}

/// What every reachable state satisfies: per-channel caches are bounded,
/// and the user cache is bounded and holds each id once.
pub open spec fn state_inv(v: StateView) -> bool {
    &&& forall|c: u64| #[trigger] v.messages.contains_key(c) ==> v.messages[c].len() <= MAX_MESSAGES_PER_CHANNEL
    &&& v.users.len() <= MAX_CACHED_USERS
    &&& user_ids_distinct(v.users)
}

pub open spec fn user_ids_distinct(us: Seq<UserEntry>) -> bool {
    forall|i: int, j: int| 0 <= i < j < us.len() ==> #[trigger] us[i].user.id != #[trigger] us[j].user.id
}

/// The state of a fresh client.
pub open spec fn initial_view() -> StateView {
    StateView {
        connection_status: ConnectionStatus::Disconnected,
        session: None,
        last_seq: None,
        heartbeat_ack: true,
        reconnect_requested: false,
        settings_open: false,
        guilds: seq![],
        channels: seq![],
        current_user: None,
        users: seq![],
        selection: Selection { guild_id: None, channel_id: None },
        messages: Map::empty(),
        fetched: Set::empty(),
        presences: Map::empty(),
        own_status: "online"@,
        unread: Map::empty(),
        mentions: Map::empty(),
        typing: Map::empty(),
        guild_members: Map::empty(),
        intents_limited: false,
    }
}

/// A per-channel counter, zero when absent.
pub open spec fn count_of(m: Map<u64, u32>, c: u64) -> u32 {
    if m.contains_key(c) { m[c] } else { 0 }
}

/// Clears the unread and mention counters of a channel.
pub open spec fn mark_read_spec(v: StateView, c: u64) -> StateView {
    StateView { unread: v.unread.remove(c), mentions: v.mentions.remove(c), ..v }
}

pub open spec fn select_spec(v: StateView, s: Selection) -> StateView {
    match s.channel_id {
        Some(c) => mark_read_spec(StateView { selection: s, ..v }, c.0),
        None => StateView { selection: s, ..v },
    }
}

pub struct AppState {
    connection_status: ConnectionStatus,
    session: Option<SessionInfo>,
    last_seq: Option<Snowflake>,
    heartbeat_ack: bool,
    reconnect_requested: bool,
    settings_open: bool,
    guilds: Vec<Guild>,
    channels: Vec<Channel>,
    current_user: Option<User>,
    users: Vec<UserEntry>,
    selection: Selection,
    messages: Table<Vec<Message>>,
    fetched: Table<()>,
    presences: Table<String>,
    own_status: String,
    unread: Table<u32>,
    mentions: Table<u32>,
    typing: Table<Vec<TypingUser>>,
    guild_members: Table<Vec<Snowflake>>,
    intents_limited: bool,
}

impl View for AppState {
    type V = StateView;

    closed spec fn view(&self) -> StateView {
        StateView {
            connection_status: self.connection_status,
            session: self.session,
            last_seq: self.last_seq,
            heartbeat_ack: self.heartbeat_ack,
            reconnect_requested: self.reconnect_requested,
            settings_open: self.settings_open,
            guilds: self.guilds@,
            channels: self.channels@.map_values(|c: Channel| channel_view(c)),
            current_user: self.current_user,
            users: self.users@,
            selection: self.selection,
            messages: self.messages@.map_values(|v: Vec<Message>| v@),
            fetched: self.fetched@.dom(),
            presences: self.presences@.map_values(|s: String| s@),
            own_status: self.own_status@,
            unread: self.unread@,
            mentions: self.mentions@,
            typing: self.typing@.map_values(|v: Vec<TypingUser>| typing_seq_view(v@)),
            guild_members: self.guild_members@.map_values(|v: Vec<Snowflake>| v@),
            intents_limited: self.intents_limited,
        }
    }
}

impl AppState {
    pub closed spec fn wf(&self) -> bool {
        &&& self.messages.wf()
        &&& self.fetched.wf()
        &&& self.presences.wf()
        &&& self.unread.wf()
        &&& self.mentions.wf()
        &&& self.typing.wf()
        &&& self.guild_members.wf()
        &&& state_inv(self@)
    }

    pub fn new() -> (s: Self)
        ensures
            s.wf(),
            s@ == initial_view(),
    {
        let s = AppState {
            connection_status: ConnectionStatus::Disconnected,
            session: None,
            last_seq: None,
            heartbeat_ack: true,
            reconnect_requested: false,
            settings_open: false,
            guilds: Vec::new(),
            channels: Vec::new(),
            current_user: None,
            users: Vec::new(),
            selection: Selection { guild_id: None, channel_id: None },
            messages: Table::new(),
            fetched: Table::new(),
            presences: Table::new(),
            own_status: "online".to_string(),
            unread: Table::new(),
            mentions: Table::new(),
            typing: Table::new(),
            guild_members: Table::new(),
            intents_limited: false,
        };
        assert(s@ =~= initial_view());
        s
    }

    // ── UI side-channel ──

    pub fn request_settings_toggle(&mut self)
        requires
            old(self).wf(),
        ensures
            final(self).wf(),
            final(self)@ == (StateView { settings_open: !old(self)@.settings_open, ..old(self)@ }),
    {
        self.settings_open = !self.settings_open;
        assert(self@ =~= (StateView { settings_open: !old(self)@.settings_open, ..old(self)@ }));
    }

    pub fn settings_open(&self) -> (r: bool)
        ensures
            r == self@.settings_open,
    {
        self.settings_open
    }

    pub fn set_settings_open(&mut self, open: bool)
        requires
            old(self).wf(),
        ensures
            final(self).wf(),
            final(self)@ == (StateView { settings_open: open, ..old(self)@ }),
    {
        self.settings_open = open;
        assert(self@ =~= (StateView { settings_open: open, ..old(self)@ }));
    }

    // ── Status / session ──

    pub fn connection_status(&self) -> (r: ConnectionStatus)
        ensures
            r == self@.connection_status,
    {
        self.connection_status
    }

    pub fn connection_status_sync(&self) -> (r: ConnectionStatus)
        ensures
            r == self@.connection_status,
    {
        self.connection_status
    }

    pub fn set_connection_status(&mut self, status: ConnectionStatus)
        requires
            old(self).wf(),
        ensures
            final(self).wf(),
            final(self)@ == (StateView { connection_status: status, ..old(self)@ }),
    {
        self.connection_status = status;
        assert(self@ =~= (StateView { connection_status: status, ..old(self)@ }));
    }

    pub fn session_snapshot(&self) -> (r: Option<SessionInfo>)
        ensures
            r == self@.session,
    {
        match &self.session {
            Some(s) => Some(s.duplicate()),
            None => None,
        }
    }

    pub fn set_session(&mut self, session_id: String, resume_gateway_url: String)
        requires
            old(self).wf(),
        ensures
            final(self).wf(),
            final(self)@ == (StateView {
                session: Some(SessionInfo { session_id, resume_gateway_url }),
                ..old(self)@
            }),
    {
        self.session = Some(SessionInfo { session_id, resume_gateway_url });
        assert(self@ =~= (StateView {
            session: Some(SessionInfo { session_id, resume_gateway_url }),
            ..old(self)@
        }));
    }

    /// Forgets the session and its sequence number (next connect identifies).
    pub fn clear_session(&mut self)
        requires
            old(self).wf(),
        ensures
            final(self).wf(),
            final(self)@ == (StateView { session: None, last_seq: None, ..old(self)@ }),
    {
        self.session = None;
        self.last_seq = None;
        assert(self@ =~= (StateView { session: None, last_seq: None, ..old(self)@ }));
    }

    pub fn last_seq(&self) -> (r: Option<Snowflake>)
        ensures
            r == self@.last_seq,
    {
        self.last_seq
    }

    pub fn set_last_seq(&mut self, n: Snowflake)
        requires
            old(self).wf(),
        ensures
            final(self).wf(),
            final(self)@ == (StateView { last_seq: Some(n), ..old(self)@ }),
    {
        self.last_seq = Some(n);
        assert(self@ =~= (StateView { last_seq: Some(n), ..old(self)@ }));
    }

    pub fn mark_heartbeat_ack(&mut self)
        requires
            old(self).wf(),
        ensures
            final(self).wf(),
            final(self)@ == (StateView { heartbeat_ack: true, ..old(self)@ }),
    {
        self.heartbeat_ack = true;
        assert(self@ =~= (StateView { heartbeat_ack: true, ..old(self)@ }));
    }

    pub fn heartbeat_acked(&self) -> (r: bool)
        ensures
            r == self@.heartbeat_ack,
    {
        self.heartbeat_ack
    }

    pub fn reset_heartbeat_ack(&mut self)
        requires
            old(self).wf(),
        ensures
            final(self).wf(),
            final(self)@ == (StateView { heartbeat_ack: false, ..old(self)@ }),
    {
        self.heartbeat_ack = false;
        assert(self@ =~= (StateView { heartbeat_ack: false, ..old(self)@ }));
    }

    pub fn request_reconnect(&mut self)
        requires
            old(self).wf(),
        ensures
            final(self).wf(),
            final(self)@ == (StateView { reconnect_requested: true, ..old(self)@ }),
    {
        self.reconnect_requested = true;
        assert(self@ =~= (StateView { reconnect_requested: true, ..old(self)@ }));
    }

    pub fn selection(&self) -> (r: Selection)
        ensures
            r == self@.selection,
    {
        self.selection
    }

    pub fn selection_sync(&self) -> (r: Selection)
        ensures
            r == self@.selection,
    {
        self.selection
    }

    /// Selects a guild/channel; selecting a channel marks it read.
    pub fn set_selection(&mut self, s: Selection)
        requires
            old(self).wf(),
        ensures
            final(self).wf(),
            final(self)@ == select_spec(old(self)@, s),
    {
        self.set_selection_sync(s);
    }

    pub fn set_selection_sync(&mut self, s: Selection)
        requires
            old(self).wf(),
        ensures
            final(self).wf(),
            final(self)@ == select_spec(old(self)@, s),
    {
        self.selection = s;
        assert(self@ =~= (StateView { selection: s, ..old(self)@ }));
        if let Some(cid) = s.channel_id {
            self.mark_read(cid);
        }
    }

    // ── Privileged intents ──

    pub fn set_intents_limited(&mut self, limited: bool)
        requires
            old(self).wf(),
        ensures
            final(self).wf(),
            final(self)@ == (StateView { intents_limited: limited, ..old(self)@ }),
    {
        self.intents_limited = limited;
        assert(self@ =~= (StateView { intents_limited: limited, ..old(self)@ }));
    }

    pub fn intents_limited(&self) -> (r: bool)
        ensures
            r == self@.intents_limited,
    {
        self.intents_limited
    }

    // ── Account ──

    pub fn current_user(&self) -> (r: Option<User>)
        ensures
            r == self@.current_user,
    {
        match &self.current_user {
            Some(u) => Some(u.duplicate()),
            None => None,
        }
    }

    pub fn set_current_user(&mut self, u: Option<User>)
        requires
            old(self).wf(),
        ensures
            final(self).wf(),
            final(self)@ == (StateView { current_user: u, ..old(self)@ }),
    {
        self.current_user = u;
        assert(self@ =~= (StateView { current_user: u, ..old(self)@ }));
    }

    // ── Presence ──

    pub fn presence(&self, user_id: Snowflake) -> (r: Option<String>)
        requires
            self.wf(),
        ensures
            r matches Some(s) ==> self@.presences.contains_key(user_id.0) && s@ == self@.presences[user_id.0],
            r is None <==> !self@.presences.contains_key(user_id.0),
    {
        match self.presences.get(user_id.0) {
            Some(s) => Some(s.clone()),
            None => None,
        }
    }

    pub fn set_presence(&mut self, user_id: Snowflake, status: &str)
        requires
            old(self).wf(),
        ensures
            final(self).wf(),
            final(self)@ == (StateView {
                presences: old(self)@.presences.insert(user_id.0, status@),
                ..old(self)@
            }),
    {
        let ghost before = self.presences@;
        self.presences.insert(user_id.0, status.to_string());
        assert(self.presences@.map_values(|s: String| s@) =~= before.map_values(|s: String| s@).insert(user_id.0, status@));
        assert(self@ =~= (StateView {
            presences: old(self)@.presences.insert(user_id.0, status@),
            ..old(self)@
        }));
    }

    pub fn own_status(&self) -> (r: String)
        ensures
            r@ == self@.own_status,
    {
        self.own_status.clone()
    }

    pub fn set_own_status(&mut self, status: &str)
        requires
            old(self).wf(),
        ensures
            final(self).wf(),
            final(self)@ == (StateView { own_status: status@, ..old(self)@ }),
    {
        self.own_status = status.to_string();
        assert(self@ =~= (StateView { own_status: status@, ..old(self)@ }));
    }

    /// Mirrors a requested presence locally and returns the internal event
    /// that the app layer turns into a gateway presence update.
    pub fn request_presence(&mut self, status: &str) -> (e: Event)
        requires
            old(self).wf(),
        ensures
            final(self).wf(),
            final(self)@ == (StateView { own_status: status@, ..old(self)@ }),
            e matches Event::PresenceRequested { status: s } && s@ == status@,
    {
        self.set_own_status(status);
        Event::PresenceRequested { status: status.to_string() }
    }

    // ── Unread / mentions ──

    pub fn unread_count(&self, channel_id: Snowflake) -> (r: u32)
        requires
            self.wf(),
        ensures
            r == count_of(self@.unread, channel_id.0),
    {
        match self.unread.get(channel_id.0) {
            Some(n) => *n,
            None => 0,
        }
    }

    pub fn mention_count(&self, channel_id: Snowflake) -> (r: u32)
        requires
            self.wf(),
        ensures
            r == count_of(self@.mentions, channel_id.0),
    {
        match self.mentions.get(channel_id.0) {
            Some(n) => *n,
            None => 0,
        }
    }

    /// Clears the channel's counters; the mention total drops by exactly
    /// the channel's mention count.
    pub fn mark_read(&mut self, channel_id: Snowflake)
        requires
            old(self).wf(),
        ensures
            final(self).wf(),
            final(self)@ == mark_read_spec(old(self)@, channel_id.0),
            sum_u32(final(self).mention_values()) + count_of(old(self)@.mentions, channel_id.0)
                == sum_u32(old(self).mention_values()),
    {
        let _ = self.unread.remove(channel_id.0);
        let ghost before = self.mentions.values();
        let r = self.mentions.remove(channel_id.0);
        proof {
            match r {
                Some(v) => {
                    let i = choose|i: int|
                        0 <= i < before.len() && before[i] == v && #[trigger] before.remove(i) == self.mentions.values();
                    lemma_sum_remove(before, i);
                }
                None => {}
            }
        }
        assert(self@ =~= mark_read_spec(old(self)@, channel_id.0));
    }

    // ── Members ──

    pub fn guild_member_ids(&self, guild_id: Snowflake) -> (r: Vec<Snowflake>)
        requires
            self.wf(),
        ensures
            self@.guild_members.contains_key(guild_id.0) ==> r@ == self@.guild_members[guild_id.0],
            !self@.guild_members.contains_key(guild_id.0) ==> r@.len() == 0,
    {
        match self.guild_members.get(guild_id.0) {
            Some(v) => crate::model::copy_ids(v),
            None => Vec::new(),
        }
    }

    pub fn set_guild_members(&mut self, guild_id: Snowflake, ids: Vec<Snowflake>)
        requires
            old(self).wf(),
        ensures
            final(self).wf(),
            final(self)@ == (StateView {
                guild_members: old(self)@.guild_members.insert(guild_id.0, ids@),
                ..old(self)@
            }),
    {
        let ghost before = self.guild_members@;
        let ghost idv = ids@;
        self.guild_members.insert(guild_id.0, ids);
        assert(self.guild_members@.map_values(|v: Vec<Snowflake>| v@) =~= before.map_values(|v: Vec<Snowflake>| v@).insert(guild_id.0, idv));
        assert(self@ =~= (StateView {
            guild_members: old(self)@.guild_members.insert(guild_id.0, idv),
            ..old(self)@
        }));
    }

    // ── History fetch tracking ──

    pub fn mark_fetched(&mut self, channel_id: Snowflake)
        requires
            old(self).wf(),
        ensures
            final(self).wf(),
            final(self)@ == (StateView { fetched: old(self)@.fetched.insert(channel_id.0), ..old(self)@ }),
    {
        self.fetched.insert(channel_id.0, ());
        assert(self.fetched@.dom() =~= old(self).fetched@.dom().insert(channel_id.0));
        assert(self@ =~= (StateView { fetched: old(self)@.fetched.insert(channel_id.0), ..old(self)@ }));
    }

    pub fn is_fetched(&self, channel_id: Snowflake) -> (r: bool)
        requires
            self.wf(),
        ensures
            r == self@.fetched.contains(channel_id.0),
    {
        self.fetched.contains_key(channel_id.0)
    }
}


// ───────────────────────────── Messages ─────────────────────────────

/// The newest `n` entries of `s`.
pub open spec fn keep_last(s: Seq<Message>, n: nat) -> Seq<Message> {
    if s.len() > n { s.subrange(s.len() - n, s.len() as int) } else { s }
}

/// The cached history of a channel, oldest first (empty when absent).
pub open spec fn msgs_of(v: StateView, c: u64) -> Seq<Message> {
    if v.messages.contains_key(c) { v.messages[c] } else { seq![] }
}

pub open spec fn has_id(s: Seq<Message>, id: Snowflake) -> bool {
    exists|i: int| 0 <= i < s.len() && #[trigger] s[i].id == id
}

/// Appends a live message to its channel unless a message with the same
/// id is already cached, keeping the newest `MAX_MESSAGES_PER_CHANNEL`.
pub open spec fn push_message_spec(v: StateView, m: Message) -> StateView {
    let c = m.channel_id.0;
    let cur = msgs_of(v, c);
    let next = if has_id(cur, m.id) { cur } else { keep_last(cur.push(m), MAX_MESSAGES_PER_CHANNEL as nat) };
    StateView { messages: v.messages.insert(c, next), ..v }
}

pub open spec fn last_id_or_zero(s: Seq<Message>) -> u64 {
    if s.len() > 0 { s.last().id.0 } else { 0 }
}

/// A REST page is stale when the cache already ends with a newer message.
pub open spec fn rest_is_stale(existing: Seq<Message>, incoming: Seq<Message>) -> bool {
    existing.len() > 0 && existing.last().id.0 > last_id_or_zero(incoming)
}

/// Installs a fetched history page (its newest `MAX_MESSAGES_PER_CHANNEL`
/// messages) and marks the channel fetched, unless the page is stale.
pub open spec fn set_messages_spec(v: StateView, c: u64, msgs: Seq<Message>) -> StateView {
    let incoming = keep_last(msgs, MAX_MESSAGES_PER_CHANNEL as nat);
    let v1 = StateView { fetched: v.fetched.insert(c), ..v };
    if v.messages.contains_key(c) && rest_is_stale(v.messages[c], incoming) {
        v1
    } else {
        StateView { messages: v.messages.insert(c, incoming), ..v1 }
    }
}

pub open spec fn is_selected(v: StateView, c: u64) -> bool {
    v.selection.channel_id matches Some(s) && s.0 == c
}

/// The message mentions everyone or the signed-in user.
pub open spec fn mentions_me(v: StateView, m: Message) -> bool {
    m.mention_everyone || (v.current_user matches Some(u)
        && exists|i: int| 0 <= i < m.mentions@.len() && #[trigger] m.mentions@[i].id == u.id)
}

/// The counters a message would bump still have room.
pub open spec fn bump_ok(v: StateView, m: Message) -> bool {
    let c = m.channel_id.0;
    is_selected(v, c) || (count_of(v.unread, c) < u32::MAX
        && (mentions_me(v, m) ==> count_of(v.mentions, c) < u32::MAX))
}

/// A message in a channel other than the selected one is unread, and a
/// mention when it mentions the user.
pub open spec fn bump_spec(v: StateView, m: Message) -> StateView {
    let c = m.channel_id.0;
    if is_selected(v, c) {
        v
    } else {
        let v1 = StateView { unread: v.unread.insert(c, (count_of(v.unread, c) + 1) as u32), ..v };
        if mentions_me(v, m) {
            StateView { mentions: v.mentions.insert(c, (count_of(v.mentions, c) + 1) as u32), ..v1 }
        } else {
            v1
        }
    }
}

pub open spec fn sum_u32(s: Seq<u32>) -> nat
    decreases s.len(),
{
    if s.len() == 0 { 0 } else { sum_u32(s.drop_last()) + s.last() as nat }
}

/// Taking one element out of a sequence takes exactly it off the sum.
pub proof fn lemma_sum_remove(s: Seq<u32>, i: int)
    requires
        0 <= i < s.len(),
    ensures
        sum_u32(s.remove(i)) + s[i] as nat == sum_u32(s),
    decreases s.len(),
{
    if i == s.len() - 1 {
        assert(s.remove(i) =~= s.drop_last());
    } else {
        lemma_sum_remove(s.drop_last(), i);
        assert(s.remove(i).drop_last() =~= s.drop_last().remove(i));
        assert(s.remove(i).last() == s.last());
    }
}

/// Sum of the mention counts of the channels of `cs` that belong to the guild.
pub open spec fn guild_mentions(cs: Seq<ChannelV>, mentions: Map<u64, u32>, guild_id: Snowflake) -> nat
    decreases cs.len(),
{
    if cs.len() == 0 {
        0
    } else {
        let c = cs.last();
        guild_mentions(cs.drop_last(), mentions, guild_id)
            + if in_guild(c, guild_id) { count_of(mentions, c.id.0) as nat } else { 0 }
    }
}

proof fn lemma_guild_mentions_monotone(cs: Seq<ChannelV>, m: Map<u64, u32>, g: Snowflake, k: int)
    requires
        0 <= k <= cs.len(),
    ensures
        guild_mentions(cs.take(k), m, g) <= guild_mentions(cs, m, g),
    decreases cs.len() - k,
{
    if k < cs.len() {
        lemma_guild_mentions_monotone(cs, m, g, k + 1);
        assert(cs.take(k + 1).drop_last() =~= cs.take(k));
    } else {
        assert(cs.take(k) =~= cs);
    }
}

/// Mention badge of a guild: the sum over its channels.
pub fn guild_unread(app_state: &AppState, guild_id: Snowflake) -> (r: u32)
    requires
        app_state.wf(),
        guild_mentions(app_state@.channels, app_state@.mentions, guild_id) <= u32::MAX,
    ensures
        r == guild_mentions(app_state@.channels, app_state@.mentions, guild_id),
{
    match app_state.checked_guild_unread(guild_id) {
        Some(n) => n,
        None => 0,
    }
}

impl AppState {
    /// The per-channel mention counts, in the order their channels were
    /// first counted.
    pub closed spec fn mention_values(&self) -> Seq<u32> {
        self.mentions.values()
    }

    /// The mention counts are exactly the values of the mentions map.
    pub proof fn lemma_mention_values(&self)
        requires
            self.wf(),
        ensures
            self@.mentions.dom().finite(),
            self@.mentions.dom().len() == self.mention_values().len(),
            forall|c: u64| #[trigger] self@.mentions.contains_key(c) ==> exists|i: int|
                0 <= i < self.mention_values().len() && self.mention_values()[i] == self@.mentions[c],
    {
        self.mentions.lemma_view();
        assert forall|c: u64| #[trigger] self@.mentions.contains_key(c) implies exists|i: int|
            0 <= i < self.mention_values().len() && self.mention_values()[i] == self@.mentions[c] by {
            assert(self.mentions@.contains_key(c));
            let i = choose|i: int| 0 <= i < self.mentions.values().len() && self.mentions.values()[i] == self.mentions@[c];
            assert(self.mention_values()[i] == self@.mentions[c]);
        }
    }

    pub fn messages_for(&self, channel_id: Snowflake) -> (r: &[Message])
        requires
            self.wf(),
        ensures
            r@ == msgs_of(self@, channel_id.0),
    {
        match self.messages.get(channel_id.0) {
            Some(v) => v.as_slice(),
            None => &[],
        }
    }

    fn take_history(&mut self, c: u64) -> (v: Vec<Message>)
        requires
            old(self).wf(),
        ensures
            final(self).messages.wf(),
            v@ == msgs_of(old(self)@, c),
            v@.len() <= MAX_MESSAGES_PER_CHANNEL,
            final(self).messages@ == old(self).messages@.remove(c),
            final(self)@ == (StateView { messages: old(self)@.messages.remove(c), ..old(self)@ }),
            final(self).fetched == old(self).fetched,
            final(self).presences == old(self).presences,
            final(self).unread == old(self).unread,
            final(self).mentions == old(self).mentions,
            final(self).typing == old(self).typing,
            final(self).guild_members == old(self).guild_members,
            final(self).users == old(self).users,
            final(self).connection_status == old(self).connection_status,
            final(self).session == old(self).session,
            final(self).last_seq == old(self).last_seq,
            final(self).heartbeat_ack == old(self).heartbeat_ack,
            final(self).reconnect_requested == old(self).reconnect_requested,
            final(self).settings_open == old(self).settings_open,
            final(self).guilds == old(self).guilds,
            final(self).channels == old(self).channels,
            final(self).current_user == old(self).current_user,
            final(self).selection == old(self).selection,
            final(self).own_status == old(self).own_status,
            final(self).intents_limited == old(self).intents_limited,
    {
        let r = self.messages.remove(c);
        assert(self.messages@.map_values(|w: Vec<Message>| w@) =~= old(self).messages@.map_values(|w: Vec<Message>| w@).remove(c));
        assert(self@ =~= (StateView { messages: old(self)@.messages.remove(c), ..old(self)@ }));
        match r {
            Some(v) => {
                assert(old(self)@.messages.contains_key(c));
                v
            }
            None => Vec::new(),
        }
    }

    fn put_history(&mut self, c: u64, v: Vec<Message>)
        requires
            old(self).messages.wf(),
            old(self).fetched.wf(),
            old(self).presences.wf(),
            old(self).unread.wf(),
            old(self).mentions.wf(),
            old(self).typing.wf(),
            old(self).guild_members.wf(),
            v@.len() <= MAX_MESSAGES_PER_CHANNEL,
            forall|k: u64| #[trigger] old(self)@.messages.contains_key(k) ==> old(self)@.messages[k].len() <= MAX_MESSAGES_PER_CHANNEL,
            old(self)@.users.len() <= MAX_CACHED_USERS,
            user_ids_distinct(old(self)@.users),
        ensures
            final(self).wf(),
            final(self)@ == (StateView { messages: old(self)@.messages.insert(c, v@), ..old(self)@ }),
    {
        let ghost before = self.messages@;
        let ghost vv = v@;
        self.messages.insert(c, v);
        assert(self.messages@.map_values(|w: Vec<Message>| w@) =~= before.map_values(|w: Vec<Message>| w@).insert(c, vv));
        assert(self@ =~= (StateView { messages: old(self)@.messages.insert(c, vv), ..old(self)@ }));
    }

    /// Appends a live message to its channel (de-duplicated by id).
    pub fn push_message(&mut self, msg: Message)
        requires
            old(self).wf(),
        ensures
            final(self).wf(),
            final(self)@ == push_message_spec(old(self)@, msg),
    {
        let c = msg.channel_id.0;
        let mut v = self.take_history(c);
        let ghost cur = v@;
        let mut dup = false;
        let mut i: usize = 0;
        while i < v.len()
            invariant
                i <= v@.len(),
                v@ == cur,
                dup <==> exists|j: int| 0 <= j < i && #[trigger] cur[j].id == msg.id,
            decreases v.len() - i,
        {
            if v[i].id == msg.id {
                dup = true;
            }
            i += 1;
        }
        if !dup {
            v.push(msg);
            if v.len() > MAX_MESSAGES_PER_CHANNEL {
                let _ = v.remove(0);
                assert(v@ =~= keep_last(cur.push(msg), MAX_MESSAGES_PER_CHANNEL as nat));
            }
        }
        self.put_history(c, v);
        assert(self@ =~= push_message_spec(old(self)@, msg));
    }

    /// Installs a fetched history page unless a live event already put
    /// newer messages in the cache.
    pub fn set_messages(&mut self, channel_id: Snowflake, msgs: Vec<Message>)
        requires
            old(self).wf(),
        ensures
            final(self).wf(),
            final(self)@ == set_messages_spec(old(self)@, channel_id.0, msgs@),
    {
        let c = channel_id.0;
        let mut deque = msgs;
        if deque.len() > MAX_MESSAGES_PER_CHANNEL {
            let cut = deque.len() - MAX_MESSAGES_PER_CHANNEL;
            deque = deque.split_off(cut);
        }
        assert(deque@ =~= keep_last(msgs@, MAX_MESSAGES_PER_CHANNEL as nat));
        self.mark_fetched(channel_id);
        let incoming_last: u64 = if deque.len() > 0 { deque[deque.len() - 1].id.0 } else { 0 };
        let stale = match self.messages.get(c) {
            Some(existing) => existing.len() > 0 && existing[existing.len() - 1].id.0 > incoming_last,
            None => false,
        };
        if stale {
            return;
        }
        let ghost mid = self@;
        self.put_history(c, deque);
        assert(self@ =~= set_messages_spec(old(self)@, c, msgs@));
    }

    /// Counts a message as unread (and as a mention) unless its channel
    /// is the one on screen.
    fn bump_unread(&mut self, msg: &Message)
        requires
            old(self).wf(),
            bump_ok(old(self)@, *msg),
        ensures
            final(self).wf(),
            final(self)@ == bump_spec(old(self)@, *msg),
    {
        let c = msg.channel_id.0;
        if let Some(s) = self.selection.channel_id {
            if s.0 == c {
                return;
            }
        }
        let n = self.unread_count(msg.channel_id);
        self.unread.insert(c, n + 1);
        let ghost v1 = self@;
        assert(v1 =~= (StateView { unread: old(self)@.unread.insert(c, (count_of(old(self)@.unread, c) + 1) as u32), ..old(self)@ }));
        let mut mentioned = msg.mention_everyone;
        if !mentioned {
            if let Some(u) = &self.current_user {
                let mut i: usize = 0;
                while i < msg.mentions.len()
                    invariant
                        i <= msg.mentions@.len(),
                        mentioned <==> exists|j: int| 0 <= j < i && #[trigger] msg.mentions@[j].id == u.id,
                    decreases msg.mentions.len() - i,
                {
                    if msg.mentions[i].id == u.id {
                        mentioned = true;
                    }
                    i += 1;
                }
            }
        }
        assert(mentioned == mentions_me(old(self)@, *msg));
        if mentioned {
            let k = self.mention_count(msg.channel_id);
            self.mentions.insert(c, k + 1);
        }
        assert(self@ =~= bump_spec(old(self)@, *msg));
    }

    /// Sum of the mention counts over all channels, `None` when it does
    /// not fit in a `u32`.
    pub fn checked_total_mentions(&self) -> (r: Option<u32>)
        requires
            self.wf(),
        ensures
            r matches Some(n) ==> n == sum_u32(self.mention_values()),
            r is None <==> sum_u32(self.mention_values()) > u32::MAX,
    {
        let n = self.mentions.len();
        let mut total: u64 = 0;
        let mut i: usize = 0;
        while i < n
            invariant
                self.mentions.wf(),
                n == self.mention_values().len(),
                i <= n,
                total == sum_u32(self.mention_values().take(i as int)),
                total <= u32::MAX,
            decreases n - i,
        {
            let x = *self.mentions.value_at(i);
            assert(self.mention_values().take(i + 1).drop_last() =~= self.mention_values().take(i as int));
            let t = total + x as u64;
            if t > u32::MAX as u64 {
                proof { self.lemma_sum_monotone(i as int + 1); }
                return None;
            }
            total = t;
            i += 1;
        }
        assert(self.mention_values().take(n as int) =~= self.mention_values());
        Some(total as u32)
    }

    proof fn lemma_sum_monotone(&self, k: int)
        requires
            0 <= k <= self.mention_values().len(),
        ensures
            sum_u32(self.mention_values().take(k)) <= sum_u32(self.mention_values()),
        decreases self.mention_values().len() - k,
    {
        if k < self.mention_values().len() {
            self.lemma_sum_monotone(k + 1);
            assert(self.mention_values().take(k + 1).drop_last() =~= self.mention_values().take(k));
        } else {
            assert(self.mention_values().take(k) =~= self.mention_values());
        }
    }

    /// Sum of the mention counts of the channels of a guild, `None` when
    /// it does not fit in a `u32`.
    pub fn checked_guild_unread(&self, guild_id: Snowflake) -> (r: Option<u32>)
        requires
            self.wf(),
        ensures
            r matches Some(n) ==> n == guild_mentions(self@.channels, self@.mentions, guild_id),
            r is None <==> guild_mentions(self@.channels, self@.mentions, guild_id) > u32::MAX,
    {
        let ghost cs = self@.channels;
        let mut total: u64 = 0;
        let mut i: usize = 0;
        while i < self.channels.len()
            invariant
                self.wf(),
                cs == self@.channels,
                i <= cs.len(),
                total == guild_mentions(cs.take(i as int), self@.mentions, guild_id),
                total <= u32::MAX,
            decreases self.channels.len() - i,
        {
            assert(cs.take(i + 1).drop_last() =~= cs.take(i as int));
            let c = &self.channels[i];
            if c.guild_id == Some(guild_id) {
                let t = total + self.mention_count(c.id) as u64;
                if t > u32::MAX as u64 {
                    proof { lemma_guild_mentions_monotone(cs, self@.mentions, guild_id, i as int + 1); }
                    return None;
                }
                total = t;
            }
            i += 1;
        }
        assert(cs.take(cs.len() as int) =~= cs);
        Some(total as u32)
    }

    /// Sum of the mention counts over all channels.
    pub fn total_mentions(&self) -> (r: u32)
        requires
            self.wf(),
            sum_u32(self.mention_values()) <= u32::MAX,
        ensures
            r == sum_u32(self.mention_values()),
    {
        match self.checked_total_mentions() {
            Some(n) => n,
            None => 0,
        }
    }
}


// ───────────────────────────── User cache ─────────────────────────────

pub open spec fn has_user(us: Seq<UserEntry>, id: Snowflake) -> bool {
    exists|i: int| 0 <= i < us.len() && #[trigger] us[i].user.id == id
}

pub open spec fn user_pos(us: Seq<UserEntry>, id: Snowflake) -> int {
    choose|i: int| 0 <= i < us.len() && #[trigger] us[i].user.id == id
}

/// Refreshes `u` in the LRU: it becomes the most recent entry; a new id
/// evicts the least recent entry when the cache is full.
pub open spec fn touch_users(us: Seq<UserEntry>, u: User, now_ms: u64) -> Seq<UserEntry> {
    let e = UserEntry { user: u, last_touched_ms: now_ms };
    if has_user(us, u.id) {
        us.remove(user_pos(us, u.id)).push(e)
    } else if us.len() >= MAX_CACHED_USERS {
        us.drop_first().push(e)
    } else {
        us.push(e)
    }
}

/// Touches each user of `list` in order.
pub open spec fn touch_all(us: Seq<UserEntry>, list: Seq<User>, now_ms: u64) -> Seq<UserEntry>
    decreases list.len(),
{
    if list.len() == 0 {
        us
    } else {
        touch_users(touch_all(us, list.drop_last(), now_ms), list.last(), now_ms)
    }
}

pub open spec fn lookup_user(us: Seq<UserEntry>, id: Snowflake) -> Option<User> {
    if has_user(us, id) { Some(us[user_pos(us, id)].user) } else { None }
}

pub proof fn lemma_touch_all_append(us: Seq<UserEntry>, a: Seq<User>, b: Seq<User>, now_ms: u64)
    ensures
        touch_all(us, a + b, now_ms) == touch_all(touch_all(us, a, now_ms), b, now_ms),
    decreases b.len(),
{
    if b.len() == 0 {
        assert(a + b =~= a);
    } else {
        assert((a + b).drop_last() =~= a + b.drop_last());
        lemma_touch_all_append(us, a, b.drop_last(), now_ms);
    }
}

/// Touching keeps the user cache bounded and free of repeated ids.
pub proof fn lemma_touch_keeps_inv(us: Seq<UserEntry>, u: User, now_ms: u64)
    requires
        us.len() <= MAX_CACHED_USERS,
        user_ids_distinct(us),
    ensures
        touch_users(us, u, now_ms).len() <= MAX_CACHED_USERS,
        user_ids_distinct(touch_users(us, u, now_ms)),
        touch_users(us, u, now_ms).last().user == u,
        touch_users(us, u, now_ms).last().last_touched_ms == now_ms,
{
    let r = touch_users(us, u, now_ms);
    if has_user(us, u.id) {
        let p = user_pos(us, u.id);
        let t = us.remove(p);
        assert forall|i: int, j: int| 0 <= i < j < r.len() implies #[trigger] r[i].user.id != #[trigger] r[j].user.id by {
            if j == r.len() - 1 {
                let i0 = if i < p { i } else { i + 1 };
                assert(r[i] == us[i0]);
            } else {
                let i0 = if i < p { i } else { i + 1 };
                let j0 = if j < p { j } else { j + 1 };
                assert(r[i] == us[i0]);
                assert(r[j] == us[j0]);
            }
        }
    } else if us.len() >= MAX_CACHED_USERS {
        assert forall|i: int, j: int| 0 <= i < j < r.len() implies #[trigger] r[i].user.id != #[trigger] r[j].user.id by {
            assert(r[i] == us[i + 1]);
            if j < r.len() - 1 {
                assert(r[j] == us[j + 1]);
            } else {
                assert(!(us[i + 1].user.id == u.id));
            }
        }
    } else {
        assert forall|i: int, j: int| 0 <= i < j < r.len() implies #[trigger] r[i].user.id != #[trigger] r[j].user.id by {
            assert(r[i] == us[i]);
            if j < r.len() - 1 {
                assert(r[j] == us[j]);
            } else {
                assert(!(us[i].user.id == u.id));
            }
        }
    }
}

// ───────────────────────────── Typing ─────────────────────────────

pub open spec fn typing_of(v: StateView, c: u64) -> Seq<TypingV> {
    if v.typing.contains_key(c) { v.typing[c] } else { seq![] }
}

/// Records that `user_id` started typing in `c` at `now_ms`, replacing an
/// earlier indicator of the same user.
pub open spec fn set_typing_spec(v: StateView, c: u64, user_id: Snowflake, name: Seq<char>, now_ms: u64) -> StateView {
    let kept = typing_of(v, c).filter(|t: TypingV| t.user_id != user_id);
    StateView { typing: v.typing.insert(c, kept.push(TypingV { user_id, name, since_ms: now_ms })), ..v }
}

/// Milliseconds since `since_ms` (zero when the clock is behind it).
pub open spec fn elapsed_ms(since_ms: u64, now_ms: u64) -> int {
    if now_ms >= since_ms { now_ms - since_ms } else { 0 }
}

pub open spec fn is_live(t: TypingV, now_ms: u64) -> bool {
    elapsed_ms(t.since_ms, now_ms) < TYPING_WINDOW_MS
}

/// Drops the expired indicators of channel `c`.
pub open spec fn expire_typing_spec(v: StateView, c: u64, now_ms: u64) -> StateView {
    if v.typing.contains_key(c) {
        StateView { typing: v.typing.insert(c, v.typing[c].filter(|t: TypingV| is_live(t, now_ms))), ..v }
    } else {
        v
    }
}

pub open spec fn typing_names(s: Seq<TypingV>) -> Seq<Seq<char>> {
    s.map_values(|t: TypingV| t.name)
}

// ───────────────────────────── Lookups ─────────────────────────────

pub open spec fn first_guild(gs: Seq<Guild>, id: Snowflake) -> Option<int> {
    if exists|i: int| 0 <= i < gs.len() && #[trigger] gs[i].id == id && forall|j: int| 0 <= j < i ==> gs[j].id != id {
        Some(choose|i: int| 0 <= i < gs.len() && #[trigger] gs[i].id == id
            && forall|j: int| 0 <= j < i ==> gs[j].id != id)
    } else {
        None
    }
}

pub open spec fn first_channel(cs: Seq<ChannelV>, id: Snowflake) -> Option<int> {
    if exists|i: int| 0 <= i < cs.len() && #[trigger] cs[i].id == id && forall|j: int| 0 <= j < i ==> cs[j].id != id {
        Some(choose|i: int| 0 <= i < cs.len() && #[trigger] cs[i].id == id
            && forall|j: int| 0 <= j < i ==> cs[j].id != id)
    } else {
        None
    }
}

pub open spec fn in_guild(c: ChannelV, g: Snowflake) -> bool {
    c.guild_id == Some(g)
}

pub open spec fn is_dm_kind(c: ChannelV) -> bool {
    c.kind == crate::model::ChannelType::Dm || c.kind == crate::model::ChannelType::GroupDm
}

impl AppState {
    pub fn touch_user(&mut self, u: &User, now_ms: u64)
        requires
            old(self).wf(),
        ensures
            final(self).wf(),
            final(self)@ == (StateView { users: touch_users(old(self)@.users, *u, now_ms), ..old(self)@ }),
    {
        let ghost us = self.users@;
        let mut idx: Option<usize> = None;
        let mut i: usize = 0;
        while i < self.users.len()
            invariant
                self.users@ == us,
                i <= us.len(),
                idx matches Some(k) ==> k < i && us[k as int].user.id == u.id,
                idx is None ==> forall|j: int| 0 <= j < i ==> us[j].user.id != u.id,
            decreases self.users.len() - i,
        {
            if idx.is_none() && self.users[i].user.id == u.id {
                idx = Some(i);
            }
            i += 1;
        }
        let e = UserEntry { user: u.duplicate(), last_touched_ms: now_ms };
        match idx {
            Some(k) => {
                proof {
                    let p = user_pos(us, u.id);
                    assert(us[p].user.id == u.id);
                    if p != k as int {
                        if p < k { assert(us[p].user.id != us[k as int].user.id); }
                        else { assert(us[k as int].user.id != us[p].user.id); }
                    }
                }
                let _ = self.users.remove(k);
                self.users.push(e);
            }
            None => {
                if self.users.len() >= MAX_CACHED_USERS {
                    let _ = self.users.remove(0);
                    assert(self.users@ =~= us.drop_first());
                }
                self.users.push(e);
            }
        }
        proof { lemma_touch_keeps_inv(us, *u, now_ms); }
        assert(self@ =~= (StateView { users: touch_users(old(self)@.users, *u, now_ms), ..old(self)@ }));
    }

    pub fn user(&self, id: Snowflake) -> (r: Option<User>)
        requires
            self.wf(),
        ensures
            r == lookup_user(self@.users, id),
    {
        let ghost us = self.users@;
        let mut i: usize = 0;
        while i < self.users.len()
            invariant
                self.users@ == us,
                user_ids_distinct(us),
                i <= us.len(),
                forall|j: int| 0 <= j < i ==> us[j].user.id != id,
            decreases self.users.len() - i,
        {
            if self.users[i].user.id == id {
                proof {
                    let p = user_pos(us, id);
                    if p != i as int {
                        if p < i { assert(us[p].user.id != us[i as int].user.id); }
                        else { assert(us[i as int].user.id != us[p].user.id); }
                    }
                }
                return Some(self.users[i].user.duplicate());
            }
            i += 1;
        }
        None
    }

    fn take_typing(&mut self, c: u64) -> (v: Vec<TypingUser>)
        requires
            old(self).wf(),
        ensures
            final(self).typing.wf(),
            typing_seq_view(v@) == typing_of(old(self)@, c),
            final(self)@ == (StateView { typing: old(self)@.typing.remove(c), ..old(self)@ }),
            final(self).messages == old(self).messages,
            final(self).fetched == old(self).fetched,
            final(self).presences == old(self).presences,
            final(self).unread == old(self).unread,
            final(self).mentions == old(self).mentions,
            final(self).guild_members == old(self).guild_members,
    {
        let r = self.typing.remove(c);
        assert(self.typing@.map_values(|w: Vec<TypingUser>| typing_seq_view(w@)) =~= old(self).typing@.map_values(|w: Vec<TypingUser>| typing_seq_view(w@)).remove(c));
        assert(self@ =~= (StateView { typing: old(self)@.typing.remove(c), ..old(self)@ }));
        match r {
            Some(v) => v,
            None => {
                let v: Vec<TypingUser> = Vec::new();
                assert(typing_seq_view(v@) =~= Seq::<TypingV>::empty());
                v
            }
        }
    }

    fn put_typing(&mut self, c: u64, v: Vec<TypingUser>)
        requires
            old(self).messages.wf(),
            old(self).fetched.wf(),
            old(self).presences.wf(),
            old(self).unread.wf(),
            old(self).mentions.wf(),
            old(self).typing.wf(),
            old(self).guild_members.wf(),
            state_inv(old(self)@),
        ensures
            final(self).wf(),
            final(self)@ == (StateView { typing: old(self)@.typing.insert(c, typing_seq_view(v@)), ..old(self)@ }),
    {
        let ghost before = self.typing@;
        let ghost tv = typing_seq_view(v@);
        self.typing.insert(c, v);
        assert(self.typing@.map_values(|w: Vec<TypingUser>| typing_seq_view(w@)) =~= before.map_values(|w: Vec<TypingUser>| typing_seq_view(w@)).insert(c, tv));
        assert(self@ =~= (StateView { typing: old(self)@.typing.insert(c, tv), ..old(self)@ }));
    }

    pub fn set_typing(&mut self, channel_id: Snowflake, user_id: Snowflake, name: &str, now_ms: u64)
        requires
            old(self).wf(),
        ensures
            final(self).wf(),
            final(self)@ == set_typing_spec(old(self)@, channel_id.0, user_id, name@, now_ms),
    {
        let c = channel_id.0;
        let entry = self.take_typing(c);
        let mut keep: Vec<bool> = Vec::new();
        for i in 0..entry.len()
            invariant
                keep@.len() == i,
                forall|j: int| 0 <= j < i ==> keep@[j] == (entry@[j].user_id != user_id),
        {
            keep.push(entry[i].user_id != user_id);
        }
        proof {
            crate::seqs::lemma_flagged_filter(entry@, keep@, |t: TypingUser| typing_view(t), |t: TypingV| t.user_id != user_id);
            assert(typing_seq_view(entry@) =~= entry@.map_values(|t: TypingUser| typing_view(t)));
        }
        let mut kept = crate::seqs::keep_flagged(entry, &keep);
        let ghost kv = typing_seq_view(kept@);
        assert(kv =~= kept@.map_values(|t: TypingUser| typing_view(t)));
        kept.push(TypingUser { user_id, name: name.to_string(), since_ms: now_ms });
        assert(typing_seq_view(kept@) =~= kv.push(TypingV { user_id, name: name@, since_ms: now_ms }));
        self.put_typing(c, kept);
        assert(self@ =~= set_typing_spec(old(self)@, c, user_id, name@, now_ms));
    }

    /// Names of the users typing in a channel; expired indicators are
    /// dropped on the way.
    pub fn typing_in(&mut self, channel_id: Snowflake, now_ms: u64) -> (r: Vec<String>)
        requires
            old(self).wf(),
        ensures
            final(self).wf(),
            final(self)@ == expire_typing_spec(old(self)@, channel_id.0, now_ms),
            r@.map_values(|s: String| s@) == typing_names(typing_of(final(self)@, channel_id.0)),
    {
        let c = channel_id.0;
        if !self.typing.contains_key(c) {
            let r: Vec<String> = Vec::new();
            assert(r@.map_values(|s: String| s@) =~= typing_names(typing_of(self@, c)));
            return r;
        }
        let entry = self.take_typing(c);
        let mut keep: Vec<bool> = Vec::new();
        for i in 0..entry.len()
            invariant
                keep@.len() == i,
                forall|j: int| 0 <= j < i ==> keep@[j] == is_live(typing_view(entry@[j]), now_ms),
        {
            let since = entry[i].since_ms;
            let elapsed: u64 = if now_ms >= since { now_ms - since } else { 0 };
            keep.push(elapsed < TYPING_WINDOW_MS);
        }
        proof {
            crate::seqs::lemma_flagged_filter(entry@, keep@, |t: TypingUser| typing_view(t), |t: TypingV| is_live(t, now_ms));
            assert(typing_seq_view(entry@) =~= entry@.map_values(|t: TypingUser| typing_view(t)));
        }
        let kept = crate::seqs::keep_flagged(entry, &keep);
        assert(typing_seq_view(kept@) =~= kept@.map_values(|t: TypingUser| typing_view(t)));
        let mut names: Vec<String> = Vec::new();
        for i in 0..kept.len()
            invariant
                names@.map_values(|s: String| s@) == typing_names(typing_seq_view(kept@)).take(i as int),
        {
            let nm = kept[i].name.clone();
            assert(typing_seq_view(kept@)[i as int] == typing_view(kept@[i as int]));
            assert(typing_names(typing_seq_view(kept@))[i as int] == nm@);
            let ghost prev = names@;
            names.push(nm);
            assert(names@.map_values(|s: String| s@) =~= prev.map_values(|s: String| s@).push(nm@));
            assert(names@.map_values(|s: String| s@) =~= typing_names(typing_seq_view(kept@)).take(i + 1));
        }
        assert(typing_names(typing_seq_view(kept@)).take(kept@.len() as int) =~= typing_names(typing_seq_view(kept@)));
        self.put_typing(c, kept);
        assert(self@ =~= expire_typing_spec(old(self)@, c, now_ms));
        names
    }

    pub fn guild_by_id(&self, id: Snowflake) -> (r: Option<&Guild>)
        ensures
            r matches Some(g) ==> first_guild(self@.guilds, id) matches Some(i) && *g == self@.guilds[i],
            r is None <==> first_guild(self@.guilds, id) is None,
    {
        let mut i: usize = 0;
        while i < self.guilds.len()
            invariant
                i <= self.guilds@.len(),
                forall|j: int| 0 <= j < i ==> self.guilds@[j].id != id,
            decreases self.guilds.len() - i,
        {
            if self.guilds[i].id == id {
                proof {
                    let p = first_guild(self@.guilds, id)->0;
                    assert(self@.guilds[i as int].id == id);
                    if p < i { } else if p > i { assert(self@.guilds[i as int].id != id); }
                }
                return Some(&self.guilds[i]);
            }
            i += 1;
        }
        None
    }

    pub fn channel_by_id(&self, id: Snowflake) -> (r: Option<&Channel>)
        ensures
            r matches Some(c) ==> first_channel(self@.channels, id) matches Some(i) && channel_view(*c) == self@.channels[i],
            r is None <==> first_channel(self@.channels, id) is None,
    {
        let mut i: usize = 0;
        while i < self.channels.len()
            invariant
                i <= self.channels@.len(),
                forall|j: int| 0 <= j < i ==> self@.channels[j].id != id,
            decreases self.channels.len() - i,
        {
            if self.channels[i].id == id {
                proof {
                    let p = first_channel(self@.channels, id)->0;
                    assert(self@.channels[i as int].id == id);
                    if p > i { assert(self@.channels[i as int].id != id); }
                }
                return Some(&self.channels[i]);
            }
            i += 1;
        }
        None
    }

    pub fn channels_for_guild(&self, guild_id: Snowflake) -> (r: Vec<&Channel>)
        ensures
            r@.map_values(|c: &Channel| channel_view(*c)) == self@.channels.filter(|c: ChannelV| in_guild(c, guild_id)),
    {
        let mut r: Vec<&Channel> = Vec::new();
        let ghost cs = self@.channels;
        for i in 0..self.channels.len()
            invariant
                cs == self@.channels,
                r@.map_values(|c: &Channel| channel_view(*c)) == cs.take(i as int).filter(|c: ChannelV| in_guild(c, guild_id)),
        {
            proof {
                reveal(Seq::filter);
                assert(cs.take(i + 1).drop_last() =~= cs.take(i as int));
            }
            let c = &self.channels[i];
            if c.guild_id == Some(guild_id) {
                r.push(c);
                assert(r@.map_values(|c: &Channel| channel_view(*c)) =~= cs.take(i as int).filter(|c: ChannelV| in_guild(c, guild_id)).push(cs[i as int]));
            }
        }
        assert(cs.take(self.channels@.len() as int) =~= cs);
        r
    }

    pub fn dm_channels(&self) -> (r: Vec<&Channel>)
        ensures
            r@.map_values(|c: &Channel| channel_view(*c)) == self@.channels.filter(|c: ChannelV| is_dm_kind(c)),
    {
        let mut r: Vec<&Channel> = Vec::new();
        let ghost cs = self@.channels;
        for i in 0..self.channels.len()
            invariant
                cs == self@.channels,
                r@.map_values(|c: &Channel| channel_view(*c)) == cs.take(i as int).filter(|c: ChannelV| is_dm_kind(c)),
        {
            proof {
                reveal(Seq::filter);
                assert(cs.take(i + 1).drop_last() =~= cs.take(i as int));
            }
            let c = &self.channels[i];
            let is_dm = match c.kind {
                crate::model::ChannelType::Dm | crate::model::ChannelType::GroupDm => true,
                _ => false,
            };
            if is_dm {
                r.push(c);
                assert(r@.map_values(|c: &Channel| channel_view(*c)) =~= cs.take(i as int).filter(|c: ChannelV| is_dm_kind(c)).push(cs[i as int]));
            }
        }
        assert(cs.take(self.channels@.len() as int) =~= cs);
        r
    }
}


// ───────────────────────────── Reactions ─────────────────────────────

/// Reactions are matched by the emoji's content string.
#[verifier::opaque]
pub open spec fn emoji_key(e: ReactionEmoji) -> Seq<char> {
    emoji_content_spec(e.id, opt_view(e.name), e.animated)
}

pub open spec fn first_reaction(rs: Seq<Reaction>, k: Seq<char>) -> Option<int> {
    if exists|i: int| 0 <= i < rs.len() && #[trigger] emoji_key(rs[i].emoji) == k && forall|j: int| 0 <= j < i ==> emoji_key(rs[j].emoji) != k {
        Some(choose|i: int| 0 <= i < rs.len() && #[trigger] emoji_key(rs[i].emoji) == k
            && forall|j: int| 0 <= j < i ==> emoji_key(rs[j].emoji) != k)
    } else {
        None
    }
}

/// The first matching reaction's count still has room for one more.
pub open spec fn add_reaction_ok(rs: Seq<Reaction>, e: ReactionEmoji) -> bool {
    first_reaction(rs, emoji_key(e)) matches Some(i) ==> rs[i].count < u32::MAX
}

/// One more of `e`: the first matching reaction counts up, else a new
/// reaction with count 1 is appended.
pub open spec fn added_reactions(rs: Seq<Reaction>, e: ReactionEmoji) -> Seq<Reaction> {
    match first_reaction(rs, emoji_key(e)) {
        Some(i) => rs.update(i, Reaction { count: (rs[i].count + 1) as u32, ..rs[i] }),
        None => rs.push(Reaction { count: 1, me: false, emoji: e }),
    }
}

/// One fewer of the emoji with content `k`: every matching reaction
/// counts down (saturating) and is dropped when it reaches zero.
pub open spec fn removed_reactions(rs: Seq<Reaction>, k: Seq<char>) -> Seq<Reaction>
    decreases rs.len(),
{
    if rs.len() == 0 {
        rs
    } else {
        let rest = removed_reactions(rs.drop_last(), k);
        let r = rs.last();
        if emoji_key(r.emoji) == k {
            if r.count > 1 { rest.push(Reaction { count: (r.count - 1) as u32, ..r }) } else { rest }
        } else {
            rest.push(r)
        }
    }
}

/// The id a JSON string field parses to, if any.
pub open spec fn parsed_id(o: Option<String>) -> Option<u64> {
    match o {
        Some(s) => parse_u64_spec(s@),
        None => None,
    }
}

pub proof fn lemma_first_message(ms: Seq<Message>, id: u64)
    ensures
        first_message(ms, id) matches Some(i) ==> 0 <= i < ms.len() && ms[i].id.0 == id
            && forall|j: int| 0 <= j < i ==> ms[j].id.0 != id,
{
}

pub open spec fn first_message(ms: Seq<Message>, id: u64) -> Option<int> {
    if exists|i: int| 0 <= i < ms.len() && #[trigger] ms[i].id.0 == id && forall|j: int| 0 <= j < i ==> ms[j].id.0 != id {
        Some(choose|i: int| 0 <= i < ms.len() && #[trigger] ms[i].id.0 == id
            && forall|j: int| 0 <= j < i ==> ms[j].id.0 != id)
    } else {
        None
    }
}

/// The cached message a reaction event is about: channel, index in the
/// channel's history and emoji.
pub open spec fn reaction_target(v: StateView, d: ReactionEvent) -> Option<(u64, int, ReactionEmoji)> {
    match (parsed_id(d.channel_id), parsed_id(d.message_id), d.emoji) {
        (Some(c), Some(m), Some(e)) => {
            if v.messages.contains_key(c) {
                match first_message(v.messages[c], m) {
                    Some(i) => Some((c, i, e)),
                    None => None,
                }
            } else {
                None
            }
        }
        _ => None,
    }
}

pub open spec fn reaction_ok(v: StateView, d: ReactionEvent, add: bool) -> bool {
    add ==> (reaction_target(v, d) matches Some((c, i, e)) ==> add_reaction_ok(v.messages[c][i].reactions@, e))
}

/// `w` is `v` after applying the reaction event: the target message's
/// reactions change and nothing else does.
pub open spec fn reaction_applied(v: StateView, w: StateView, d: ReactionEvent, add: bool) -> bool {
    match reaction_target(v, d) {
        Some((c, i, e)) => {
            let old_msg = v.messages[c][i];
            let rs = if add { added_reactions(old_msg.reactions@, e) } else { removed_reactions(old_msg.reactions@, emoji_key(e)) };
            let nm = w.messages[c][i];
            &&& w == (StateView { messages: v.messages.insert(c, v.messages[c].update(i, nm)), ..v })
            &&& nm == (Message { reactions: nm.reactions, ..old_msg })
            &&& nm.reactions@ == rs
        }
        None => w == v,
    }
}

fn find_reaction(rs: &Vec<Reaction>, key: &String) -> (r: Option<usize>)
    ensures
        r matches Some(i) ==> first_reaction(rs@, key@) == Some(i as int),
        r is None ==> first_reaction(rs@, key@) is None,
{
    let mut i: usize = 0;
    while i < rs.len()
        invariant
            i <= rs@.len(),
            forall|j: int| 0 <= j < i ==> emoji_key(rs@[j].emoji) != key@,
        decreases rs.len() - i,
    {
        let k = rs[i].emoji.content_string();
        proof { reveal(emoji_key); }
        if k == *key {
            proof {
                assert(emoji_key(rs@[i as int].emoji) == key@);
                let p = first_reaction(rs@, key@)->0;
                if p > i { assert(emoji_key(rs@[i as int].emoji) != key@); }
            }
            return Some(i);
        }
        i += 1;
    }
    None
}

fn add_reaction(rs: &mut Vec<Reaction>, e: &ReactionEmoji)
    requires
        add_reaction_ok(old(rs)@, *e),
    ensures
        final(rs)@ == added_reactions(old(rs)@, *e),
{
    let key = e.content_string();
    proof { reveal(emoji_key); }
    let ghost s0 = rs@;
    match find_reaction(rs, &key) {
        Some(i) => {
            assert(first_reaction(s0, emoji_key(*e)) == Some(i as int));
            let mut r = rs.remove(i);
            assert(r == s0[i as int]);
            r.count = r.count + 1;
            assert(r == (Reaction { count: (s0[i as int].count + 1) as u32, ..s0[i as int] }));
            rs.insert(i, r);
            assert(rs@ =~= s0.update(i as int, r));
        }
        None => {
            rs.push(Reaction { count: 1, me: false, emoji: e.duplicate() });
        }
    }
}

fn remove_reaction(rs: &mut Vec<Reaction>, e: &ReactionEmoji)
    ensures
        final(rs)@ == removed_reactions(old(rs)@, emoji_key(*e)),
{
    let key = e.content_string();
    proof { reveal(emoji_key); }
    let ghost s = rs@;
    let n = rs.len();
    let mut out: Vec<Reaction> = Vec::new();
    let mut i: usize = 0;
    while i < n
        invariant
            n == s.len(),
            i <= n,
            rs@ == s.subrange(i as int, n as int),
            out@ == removed_reactions(s.take(i as int), key@),
            key@ == emoji_key(*e),
        decreases n - i,
    {
        let mut r = rs.remove(0);
        assert(r == s[i as int]);
        assert(s.take(i + 1).drop_last() =~= s.take(i as int));
        let k = r.emoji.content_string();
        proof { reveal(emoji_key); }
        if k == key {
            if r.count > 1 {
                r.count = r.count - 1;
                out.push(r);
            }
        } else {
            out.push(r);
        }
        i += 1;
        assert(rs@ =~= s.subrange(i as int, n as int));
    }
    assert(s.take(n as int) =~= s);
    *rs = out;
}

fn parse_id(o: &Option<String>) -> (r: Option<u64>)
    ensures
        r == parsed_id(*o),
{
    match o {
        Some(s) => match Snowflake::parse(s.as_str()) {
            Ok(x) => Some(x.0),
            Err(_) => None,
        },
        None => None,
    }
}

impl AppState {
    fn find_message(&self, c: u64, m: u64) -> (r: Option<usize>)
        requires
            self.wf(),
        ensures
            r matches Some(i) ==> self@.messages.contains_key(c) && first_message(self@.messages[c], m) == Some(i as int),
            r is None ==> !self@.messages.contains_key(c) || first_message(self@.messages[c], m) is None,
    {
        match self.messages.get(c) {
            Some(ms) => {
                assert(ms@ == self@.messages[c]);
                let mut i: usize = 0;
                while i < ms.len()
                    invariant
                        i <= ms@.len(),
                        self.messages.wf(),
                        self@.messages.contains_key(c),
                        ms@ == self@.messages[c],
                        forall|j: int| 0 <= j < i ==> ms@[j].id.0 != m,
                    decreases ms.len() - i,
                {
                    if ms[i].id.0 == m {
                        proof {
                            assert(ms@[i as int].id.0 == m);
                            let p = first_message(ms@, m)->0;
                            assert(0 <= p < ms@.len() && ms@[p].id.0 == m);
                            if p > i { assert(ms@[i as int].id.0 != m); }
                            if p < i { assert(ms@[p].id.0 != m); }
                        }
                        return Some(i);
                    }
                    i += 1;
                }
                None
            }
            None => None,
        }
    }

    /// Applies a reaction add (`add`) or remove event to the cached message.
    pub fn apply_reaction(&mut self, d: &ReactionEvent, add: bool)
        requires
            old(self).wf(),
            reaction_ok(old(self)@, *d, add),
        ensures
            final(self).wf(),
            reaction_applied(old(self)@, final(self)@, *d, add),
    {
        let c = match parse_id(&d.channel_id) {
            Some(x) => x,
            None => return,
        };
        let m = match parse_id(&d.message_id) {
            Some(x) => x,
            None => return,
        };
        let e = match &d.emoji {
            Some(e) => e,
            None => return,
        };
        let i = match self.find_message(c, m) {
            Some(i) => i,
            None => return,
        };
        proof { lemma_first_message(self@.messages[c], m); }
        self.react_at(c, i, e, add);
        assert(reaction_target(old(self)@, *d) == Some((c, i as int, *e)));
    }

    fn react_at(&mut self, c: u64, i: usize, e: &ReactionEmoji, add: bool)
        requires
            old(self).wf(),
            old(self)@.messages.contains_key(c),
            i < old(self)@.messages[c].len(),
            add ==> add_reaction_ok(old(self)@.messages[c][i as int].reactions@, *e),
        ensures
            final(self).wf(),
            ({
                let v = old(self)@;
                let old_msg = v.messages[c][i as int];
                let rs = if add { added_reactions(old_msg.reactions@, *e) } else { removed_reactions(old_msg.reactions@, emoji_key(*e)) };
                let nm = final(self)@.messages[c][i as int];
                &&& final(self)@ == (StateView { messages: v.messages.insert(c, v.messages[c].update(i as int, nm)), ..v })
                &&& nm == (Message { reactions: nm.reactions, ..old_msg })
                &&& nm.reactions@ == rs
            }),
    {
        let ghost v = self@;
        let mut ms = self.take_history(c);
        let mut msg = ms.remove(i);
        let ghost old_msg = msg;
        if add {
            add_reaction(&mut msg.reactions, e);
        } else {
            remove_reaction(&mut msg.reactions, e);
        }
        assert(msg == (Message { reactions: msg.reactions, ..old_msg }));
        ms.insert(i, msg);
        assert(ms@ =~= v.messages[c].update(i as int, msg));
        self.put_history(c, ms);
        assert(self@.messages[c][i as int] == msg);
        assert(self@ =~= (StateView { messages: v.messages.insert(c, v.messages[c].update(i as int, msg)), ..v }));
    }
}


// ───────────────────────────── Event effects ─────────────────────────────

pub open spec fn channel_views(cs: Seq<Channel>) -> Seq<ChannelV> {
    cs.map_values(|c: Channel| channel_view(c))
}

/// All DM recipients of a channel list, channel by channel.
pub open spec fn recipients_of(chs: Seq<Channel>) -> Seq<User>
    decreases chs.len(),
{
    if chs.len() == 0 { seq![] } else { recipients_of(chs.drop_last()) + chs.last().recipients@ }
}

/// READY: session, account, guild list, DM channels (guild channels are
/// dropped until their GUILD_CREATE), and the user records it carries.
pub open spec fn ready_spec(v: StateView, d: ReadyPayload, now_ms: u64) -> StateView {
    let users = touch_all(touch_all(touch_all(v.users, d.users@, now_ms),
        recipients_of(d.private_channels_v1@), now_ms), recipients_of(d.private_channels_v2@), now_ms);
    StateView {
        session: Some(SessionInfo { session_id: d.session_id, resume_gateway_url: d.resume_gateway_url }),
        current_user: Some(d.user),
        guilds: d.guilds@,
        users,
        channels: v.channels.filter(|c: ChannelV| c.guild_id is None)
            + channel_views(d.private_channels_v2@) + channel_views(d.private_channels_v1@),
        ..v
    }
}

/// The member records that carry a user.
pub open spec fn member_users(ms: Seq<Member>) -> Seq<User>
    decreases ms.len(),
{
    if ms.len() == 0 {
        seq![]
    } else {
        let r = member_users(ms.drop_last());
        match ms.last().user {
            Some(u) => r.push(u),
            None => r,
        }
    }
}

pub open spec fn user_ids(us: Seq<User>) -> Seq<Snowflake> {
    us.map_values(|u: User| u.id)
}

/// Presence updates applied in order (the last one for a user wins).
pub open spec fn apply_presences(m: Map<u64, Seq<char>>, ps: Seq<PresenceUpdate>) -> Map<u64, Seq<char>>
    decreases ps.len(),
{
    if ps.len() == 0 {
        m
    } else {
        apply_presences(m, ps.drop_last()).insert(ps.last().user.id.0, ps.last().status@)
    }
}

/// Replaces the first guild with the same id, or appends.
pub open spec fn upsert_guild(gs: Seq<Guild>, g: Guild) -> Seq<Guild> {
    match first_guild(gs, g.id) {
        Some(i) => gs.update(i, g),
        None => gs.push(g),
    }
}

pub open spec fn with_guild(c: Channel, g: Snowflake) -> ChannelV {
    ChannelV { guild_id: Some(g), ..channel_view(c) }
}

pub open spec fn guild_channel_views(cs: Seq<Channel>, g: Snowflake) -> Seq<ChannelV> {
    cs.map_values(|c: Channel| with_guild(c, g))
}

/// GUILD_CREATE: the guild (full payload), its channel list, its members
/// (when the payload carries any) and their presences.
pub open spec fn guild_create_spec(v: StateView, g: Guild, now_ms: u64) -> StateView {
    let mus = member_users(g.members@);
    StateView {
        guilds: upsert_guild(v.guilds, g),
        channels: v.channels.filter(|c: ChannelV| c.guild_id != Some(g.id)) + guild_channel_views(g.channels@, g.id),
        users: touch_all(v.users, mus, now_ms),
        guild_members: if mus.len() > 0 { v.guild_members.insert(g.id.0, user_ids(mus)) } else { v.guild_members },
        presences: apply_presences(v.presences, g.presences@),
        ..v
    }
}

/// The guild id of a GUILD_DELETE payload (zero when missing or malformed).
pub open spec fn deleted_guild_id(id: Option<String>) -> u64 {
    match parsed_id(id) {
        Some(n) => n,
        None => 0,
    }
}

pub open spec fn guild_delete_spec(v: StateView, id: Option<String>) -> StateView {
    let g = deleted_guild_id(id);
    if g == 0 {
        v
    } else {
        StateView {
            guilds: v.guilds.filter(|x: Guild| x.id.0 != g),
            channels: v.channels.filter(|c: ChannelV| c.guild_id != Some(Snowflake(g))),
            ..v
        }
    }
}

pub open spec fn guild_update_spec(v: StateView, g: Guild) -> StateView {
    match first_guild(v.guilds, g.id) {
        Some(i) => StateView { guilds: v.guilds.update(i, g), ..v },
        None => v,
    }
}

/// CHANNEL_CREATE / CHANNEL_UPDATE: replace the first channel with the
/// same id, or append.
pub open spec fn upsert_channel_spec(v: StateView, c: Channel) -> StateView {
    match first_channel(v.channels, c.id) {
        Some(i) => StateView { channels: v.channels.update(i, channel_view(c)), ..v },
        None => StateView { channels: v.channels.push(channel_view(c)), ..v },
    }
}

/// No two cached channels share an id.
pub open spec fn channel_ids_distinct(cs: Seq<ChannelV>) -> bool {
    forall|i: int, j: int| 0 <= i < j < cs.len() ==> #[trigger] cs[i].id != #[trigger] cs[j].id
}

/// CHANNEL_CREATE / CHANNEL_UPDATE keep one entry per channel: afterwards
/// exactly one cached channel has the event's id and it is the event's
/// channel; every other channel stays where it was; the list grows by one
/// only when the channel was not cached before.
pub proof fn law_upsert_channel_keeps_one(v: StateView, c: Channel)
    requires
        channel_ids_distinct(v.channels),
    ensures
        channel_ids_distinct(upsert_channel_spec(v, c).channels),
        exists|i: int| 0 <= i < upsert_channel_spec(v, c).channels.len()
            && #[trigger] upsert_channel_spec(v, c).channels[i] == channel_view(c),
        forall|i: int| 0 <= i < upsert_channel_spec(v, c).channels.len()
            && (#[trigger] upsert_channel_spec(v, c).channels[i]).id == c.id
            ==> upsert_channel_spec(v, c).channels[i] == channel_view(c),
        forall|j: int| 0 <= j < v.channels.len() && (#[trigger] v.channels[j]).id != c.id
            ==> upsert_channel_spec(v, c).channels[j] == v.channels[j],
        (exists|j: int| 0 <= j < v.channels.len() && (#[trigger] v.channels[j]).id == c.id)
            ==> upsert_channel_spec(v, c).channels.len() == v.channels.len(),
        !(exists|j: int| 0 <= j < v.channels.len() && (#[trigger] v.channels[j]).id == c.id)
            ==> upsert_channel_spec(v, c).channels.len() == v.channels.len() + 1,
{
    let cs = v.channels;
    let w = upsert_channel_spec(v, c).channels;
    let cv = channel_view(c);
    assert(cv.id == c.id);
    if exists|j: int| 0 <= j < cs.len() && (#[trigger] cs[j]).id == c.id {
        let j0 = choose|j: int| 0 <= j < cs.len() && (#[trigger] cs[j]).id == c.id;
        assert(exists|i: int| 0 <= i < cs.len() && #[trigger] cs[i].id == c.id && forall|j: int| 0 <= j < i ==> cs[j].id != c.id) by {
            assert(cs[j0].id == c.id);
            assert forall|j: int| 0 <= j < j0 implies cs[j].id != c.id by {
                assert(cs[j].id != cs[j0].id);
            }
        }
        let i = first_channel(cs, c.id)->0;
        assert(w == cs.update(i, cv));
        assert(w[i] == cv);
        assert forall|a: int, b: int| 0 <= a < b < w.len() implies #[trigger] w[a].id != #[trigger] w[b].id by {
            if a == i {
                assert(cs[b].id != cs[i].id);
            } else if b == i {
                assert(cs[a].id != cs[i].id);
            } else {
                assert(cs[a].id != cs[b].id);
            }
        }
        assert forall|k: int| 0 <= k < w.len() && (#[trigger] w[k]).id == c.id implies w[k] == cv by {
            if k != i {
                assert(cs[k].id == cs[i].id);
                if k < i { assert(cs[k].id != cs[i].id); } else { assert(cs[i].id != cs[k].id); }
            }
        }
    } else {
        assert(first_channel(cs, c.id) is None);
        assert(w == cs.push(cv));
        assert(w[cs.len() as int] == cv);
        assert forall|a: int, b: int| 0 <= a < b < w.len() implies #[trigger] w[a].id != #[trigger] w[b].id by {
            if b == cs.len() {
                assert(cs[a].id != c.id);
            } else {
                assert(cs[a].id != cs[b].id);
            }
        }
        assert forall|k: int| 0 <= k < w.len() && (#[trigger] w[k]).id == c.id implies w[k] == cv by {
            if k < cs.len() {
                assert(cs[k].id != c.id);
            }
        }
    }
}

pub open spec fn delete_channel_spec(v: StateView, id: Snowflake) -> StateView {
    StateView { channels: v.channels.filter(|c: ChannelV| c.id != id), ..v }
}

/// The user record a complete PRESENCE_UPDATE describes.
pub open spec fn presence_user(p: PartialUser) -> User {
    User {
        id: p.id,
        username: match p.username { Some(u) => u, None => p.global_name->0 },
        global_name: p.global_name,
        discriminator: p.discriminator,
        avatar: p.avatar,
        bot: p.bot,
        system: false,
        public_flags: None,
        banner: None,
        accent_color: None,
        locale: None,
        email: None,
        flags: None,
        mfa_enabled: None,
        premium_type: None,
    }
}

/// PRESENCE_UPDATE: the status, and the user record when the payload
/// names the user.
pub open spec fn presence_update_spec(v: StateView, d: PresenceUpdate, now_ms: u64) -> StateView {
    let v1 = StateView { presences: v.presences.insert(d.user.id.0, d.status@), ..v };
    if partial_display_name(d.user) is Some {
        StateView { users: touch_users(v1.users, presence_user(d.user), now_ms), ..v1 }
    } else {
        v1
    }
}

pub open spec fn user_update_spec(v: StateView, u: User, now_ms: u64) -> StateView {
    StateView { current_user: Some(u), users: touch_users(v.users, u, now_ms), ..v }
}

/// The name shown for a TYPING_START: the member's user, else the cached
/// user, else "someone".
pub open spec fn typing_name(v: StateView, d: TypingStart) -> Seq<char> {
    if d.member matches Some(m) && m.user is Some {
        user_display_name(d.member->0.user->0)
    } else {
        match lookup_user(v.users, d.user_id) {
            Some(u) => user_display_name(u),
            None => "someone"@,
        }
    }
}

pub open spec fn typing_start_spec(v: StateView, d: TypingStart, now_ms: u64) -> StateView {
    set_typing_spec(v, d.channel_id.0, d.user_id, typing_name(v, d), now_ms)
}

impl AppState {
    proof fn lemma_views_append(a: Seq<Channel>, b: Seq<Channel>)
        ensures
            channel_views(a + b) == channel_views(a) + channel_views(b),
    {
        assert(channel_views(a + b) =~= channel_views(a) + channel_views(b));
    }

    /// Touches each user of `us` in order.
    fn touch_each(&mut self, us: &Vec<User>, now_ms: u64)
        requires
            old(self).wf(),
        ensures
            final(self).wf(),
            final(self)@ == (StateView { users: touch_all(old(self)@.users, us@, now_ms), ..old(self)@ }),
    {
        for i in 0..us.len()
            invariant
                self.wf(),
                self@ == (StateView { users: touch_all(old(self)@.users, us@.take(i as int), now_ms), ..old(self)@ }),
        {
            self.touch_user(&us[i], now_ms);
            assert(us@.take(i + 1).drop_last() =~= us@.take(i as int));
            assert(self@ =~= (StateView { users: touch_all(old(self)@.users, us@.take(i + 1), now_ms), ..old(self)@ }));
        }
        assert(us@.take(us@.len() as int) =~= us@);
    }

    /// Touches every DM recipient of `chs`, channel by channel.
    fn touch_recipients(&mut self, chs: &Vec<Channel>, now_ms: u64)
        requires
            old(self).wf(),
        ensures
            final(self).wf(),
            final(self)@ == (StateView { users: touch_all(old(self)@.users, recipients_of(chs@), now_ms), ..old(self)@ }),
    {
        for i in 0..chs.len()
            invariant
                self.wf(),
                self@ == (StateView { users: touch_all(old(self)@.users, recipients_of(chs@.take(i as int)), now_ms), ..old(self)@ }),
        {
            let ghost before = self@.users;
            self.touch_each(&chs[i].recipients, now_ms);
            proof {
                assert(chs@.take(i + 1).drop_last() =~= chs@.take(i as int));
                lemma_touch_all_append(old(self)@.users, recipients_of(chs@.take(i as int)), chs@[i as int].recipients@, now_ms);
            }
            assert(self@ =~= (StateView { users: touch_all(old(self)@.users, recipients_of(chs@.take(i + 1)), now_ms), ..old(self)@ }));
        }
        assert(chs@.take(chs@.len() as int) =~= chs@);
    }

    /// Keeps the channels whose flag is set.
    fn keep_channels(&mut self, keep: &Vec<bool>, Ghost(p): Ghost<spec_fn(ChannelV) -> bool>)
        requires
            old(self).wf(),
            keep@.len() == old(self).channels@.len(),
            forall|i: int| 0 <= i < keep@.len() ==> keep@[i] == p(#[trigger] old(self)@.channels[i]),
        ensures
            final(self).wf(),
            final(self)@ == (StateView { channels: old(self)@.channels.filter(p), ..old(self)@ }),
    {
        let mut cs: Vec<Channel> = Vec::new();
        std::mem::swap(&mut cs, &mut self.channels);
        proof {
            assert forall|i: int| 0 <= i < cs@.len() implies keep@[i] == p(channel_view(#[trigger] cs@[i])) by {
                assert(old(self)@.channels[i] == channel_view(cs@[i]));
            }
            lemma_flagged_filter(cs@, keep@, |c: Channel| channel_view(c), p);
            assert(cs@.map_values(|c: Channel| channel_view(c)) =~= old(self)@.channels);
        }
        self.channels = keep_flagged(cs, keep);
        assert(self@ =~= (StateView { channels: old(self)@.channels.filter(p), ..old(self)@ }));
    }

    /// Moves `more` to the end of the channel list.
    fn append_channels(&mut self, more: Vec<Channel>)
        requires
            old(self).wf(),
        ensures
            final(self).wf(),
            final(self)@ == (StateView { channels: old(self)@.channels + channel_views(more@), ..old(self)@ }),
    {
        let mut more = more;
        let ghost mv = more@;
        let ghost cv = self.channels@;
        self.channels.append(&mut more);
        proof { Self::lemma_views_append(cv, mv); }
        assert(self@ =~= (StateView { channels: old(self)@.channels + channel_views(mv), ..old(self)@ }));
    }

    fn on_ready(&mut self, d: ReadyPayload, now_ms: u64)
        requires
            old(self).wf(),
        ensures
            final(self).wf(),
            final(self)@ == ready_spec(old(self)@, d, now_ms),
    {
        let ghost v = self@;
        let ghost dd = d;
        let ReadyPayload { session_id, resume_gateway_url, user, guilds, private_channels_v1, private_channels_v2, users, .. } = d;
        self.touch_each(&users, now_ms);
        self.touch_recipients(&private_channels_v1, now_ms);
        self.touch_recipients(&private_channels_v2, now_ms);
        self.set_session(session_id, resume_gateway_url);
        self.set_current_user(Some(user));
        self.guilds = guilds;
        let mut keep: Vec<bool> = Vec::new();
        for i in 0..self.channels.len()
            invariant
                keep@.len() == i,
                forall|j: int| 0 <= j < i ==> keep@[j] == (#[trigger] self@.channels[j]).guild_id is None,
        {
            assert(self@.channels[i as int] == channel_view(self.channels@[i as int]));
            keep.push(self.channels[i].guild_id.is_none());
        }
        self.keep_channels(&keep, Ghost(|c: ChannelV| c.guild_id is None));
        self.append_channels(private_channels_v2);
        self.append_channels(private_channels_v1);
        assert(self@ =~= ready_spec(v, dd, now_ms));
    }
}


impl AppState {
    fn keep_guilds(&mut self, keep: &Vec<bool>, Ghost(p): Ghost<spec_fn(Guild) -> bool>)
        requires
            old(self).wf(),
            keep@.len() == old(self).guilds@.len(),
            forall|i: int| 0 <= i < keep@.len() ==> keep@[i] == p(#[trigger] old(self)@.guilds[i]),
        ensures
            final(self).wf(),
            final(self)@ == (StateView { guilds: old(self)@.guilds.filter(p), ..old(self)@ }),
    {
        let mut gs: Vec<Guild> = Vec::new();
        std::mem::swap(&mut gs, &mut self.guilds);
        proof { crate::seqs::lemma_flagged_filter_self(gs@, keep@, p); }
        self.guilds = keep_flagged(gs, keep);
        assert(self@ =~= (StateView { guilds: old(self)@.guilds.filter(p), ..old(self)@ }));
    }

    fn guild_index(&self, id: Snowflake) -> (r: Option<usize>)
        ensures
            r matches Some(i) ==> first_guild(self@.guilds, id) == Some(i as int),
            r is None ==> first_guild(self@.guilds, id) is None,
    {
        let mut i: usize = 0;
        while i < self.guilds.len()
            invariant
                i <= self.guilds@.len(),
                forall|j: int| 0 <= j < i ==> self.guilds@[j].id != id,
            decreases self.guilds.len() - i,
        {
            if self.guilds[i].id == id {
                proof {
                    assert(self@.guilds[i as int].id == id);
                    let p = first_guild(self@.guilds, id)->0;
                    if p > i { assert(self@.guilds[i as int].id != id); }
                    if p < i { assert(self@.guilds[p].id != id); }
                }
                return Some(i);
            }
            i += 1;
        }
        None
    }

    fn channel_index(&self, id: Snowflake) -> (r: Option<usize>)
        ensures
            r matches Some(i) ==> first_channel(self@.channels, id) == Some(i as int),
            r is None ==> first_channel(self@.channels, id) is None,
    {
        let mut i: usize = 0;
        while i < self.channels.len()
            invariant
                i <= self.channels@.len(),
                forall|j: int| 0 <= j < i ==> self@.channels[j].id != id,
            decreases self.channels.len() - i,
        {
            if self.channels[i].id == id {
                proof {
                    assert(self@.channels[i as int].id == id);
                    let p = first_channel(self@.channels, id)->0;
                    if p > i { assert(self@.channels[i as int].id != id); }
                    if p < i { assert(self@.channels[p].id != id); }
                }
                return Some(i);
            }
            i += 1;
        }
        None
    }

    fn push_channel(&mut self, c: Channel)
        requires
            old(self).wf(),
        ensures
            final(self).wf(),
            final(self)@ == (StateView { channels: old(self)@.channels.push(channel_view(c)), ..old(self)@ }),
    {
        let ghost cs = self.channels@;
        self.channels.push(c);
        assert(self.channels@.map_values(|c: Channel| channel_view(c)) =~= cs.map_values(|c: Channel| channel_view(c)).push(channel_view(c)));
        assert(self@ =~= (StateView { channels: old(self)@.channels.push(channel_view(c)), ..old(self)@ }));
    }

    /// A guild's channel list replaces what was cached for that guild.
    fn replace_guild_channels(&mut self, gid: Snowflake, chs: &Vec<Channel>)
        requires
            old(self).wf(),
        ensures
            final(self).wf(),
            final(self)@ == (StateView {
                channels: old(self)@.channels.filter(|c: ChannelV| c.guild_id != Some(gid)) + guild_channel_views(chs@, gid),
                ..old(self)@
            }),
    {
        let mut keep: Vec<bool> = Vec::new();
        for i in 0..self.channels.len()
            invariant
                keep@.len() == i,
                forall|j: int| 0 <= j < i ==> keep@[j] == ((#[trigger] self@.channels[j]).guild_id != Some(gid)),
        {
            assert(self@.channels[i as int] == channel_view(self.channels@[i as int]));
            let in_this = match self.channels[i].guild_id {
                Some(g) => g.0 == gid.0,
                None => false,
            };
            keep.push(!in_this);
        }
        self.keep_channels(&keep, Ghost(|c: ChannelV| c.guild_id != Some(gid)));
        let ghost v1 = self@;
        for i in 0..chs.len()
            invariant
                self.wf(),
                self@ == (StateView { channels: v1.channels + guild_channel_views(chs@.take(i as int), gid), ..v1 }),
        {
            let mut c = chs[i].duplicate();
            c.guild_id = Some(gid);
            assert(channel_view(c) == with_guild(chs@[i as int], gid));
            self.push_channel(c);
            assert(guild_channel_views(chs@.take(i + 1), gid) =~= guild_channel_views(chs@.take(i as int), gid).push(with_guild(chs@[i as int], gid)));
            assert(self@ =~= (StateView { channels: v1.channels + guild_channel_views(chs@.take(i + 1), gid), ..v1 }));
        }
        assert(chs@.take(chs@.len() as int) =~= chs@);
    }

    /// Touches the members' users; returns their ids.
    fn touch_members(&mut self, ms: &Vec<Member>, now_ms: u64) -> (ids: Vec<Snowflake>)
        requires
            old(self).wf(),
        ensures
            final(self).wf(),
            final(self)@ == (StateView { users: touch_all(old(self)@.users, member_users(ms@), now_ms), ..old(self)@ }),
            ids@ == user_ids(member_users(ms@)),
    {
        let mut ids: Vec<Snowflake> = Vec::new();
        for i in 0..ms.len()
            invariant
                self.wf(),
                self@ == (StateView { users: touch_all(old(self)@.users, member_users(ms@.take(i as int)), now_ms), ..old(self)@ }),
                ids@ == user_ids(member_users(ms@.take(i as int))),
        {
            assert(ms@.take(i + 1).drop_last() =~= ms@.take(i as int));
            assert(member_users(ms@.take(i + 1)) == (match ms@[i as int].user {
                Some(u) => member_users(ms@.take(i as int)).push(u),
                None => member_users(ms@.take(i as int)),
            }));
            if let Some(u) = &ms[i].user {
                let ghost prev = member_users(ms@.take(i as int));
                assert(prev.push(*u).drop_last() =~= prev);
                assert(touch_all(old(self)@.users, prev.push(*u), now_ms) == touch_users(touch_all(old(self)@.users, prev, now_ms), *u, now_ms));
                self.touch_user(u, now_ms);
                ids.push(u.id);
                assert(ids@ =~= user_ids(member_users(ms@.take(i + 1))));
            }
            assert(self@ =~= (StateView { users: touch_all(old(self)@.users, member_users(ms@.take(i + 1)), now_ms), ..old(self)@ }));
        }
        assert(ms@.take(ms@.len() as int) =~= ms@);
        ids
    }

    fn apply_presence_list(&mut self, ps: &Vec<PresenceUpdate>)
        requires
            old(self).wf(),
        ensures
            final(self).wf(),
            final(self)@ == (StateView { presences: apply_presences(old(self)@.presences, ps@), ..old(self)@ }),
    {
        for i in 0..ps.len()
            invariant
                self.wf(),
                self@ == (StateView { presences: apply_presences(old(self)@.presences, ps@.take(i as int)), ..old(self)@ }),
        {
            assert(ps@.take(i + 1).drop_last() =~= ps@.take(i as int));
            self.set_presence(ps[i].user.id, ps[i].status.as_str());
            assert(self@ =~= (StateView { presences: apply_presences(old(self)@.presences, ps@.take(i + 1)), ..old(self)@ }));
        }
        assert(ps@.take(ps@.len() as int) =~= ps@);
    }

    fn on_guild_create(&mut self, d: Guild, now_ms: u64)
        requires
            old(self).wf(),
        ensures
            final(self).wf(),
            final(self)@ == guild_create_spec(old(self)@, d, now_ms),
    {
        let ghost v = self@;
        let gid = d.id;
        self.replace_guild_channels(gid, &d.channels);
        let ids = self.touch_members(&d.members, now_ms);
        if ids.len() > 0 {
            self.set_guild_members(gid, ids);
        }
        self.apply_presence_list(&d.presences);
        match self.guild_index(gid) {
            Some(i) => {
                self.guilds.set(i, d);
            }
            None => {
                self.guilds.push(d);
            }
        }
        assert(self@ =~= guild_create_spec(v, d, now_ms));
    }

    fn on_guild_delete(&mut self, id: &Option<String>)
        requires
            old(self).wf(),
        ensures
            final(self).wf(),
            final(self)@ == guild_delete_spec(old(self)@, *id),
    {
        let g: u64 = match parse_id(id) {
            Some(n) => n,
            None => 0,
        };
        if g == 0 {
            return;
        }
        let mut keep: Vec<bool> = Vec::new();
        for i in 0..self.guilds.len()
            invariant
                keep@.len() == i,
                forall|j: int| 0 <= j < i ==> keep@[j] == ((#[trigger] self@.guilds[j]).id.0 != g),
        {
            keep.push(self.guilds[i].id.0 != g);
        }
        self.keep_guilds(&keep, Ghost(|x: Guild| x.id.0 != g));
        let mut keep2: Vec<bool> = Vec::new();
        for i in 0..self.channels.len()
            invariant
                keep2@.len() == i,
                forall|j: int| 0 <= j < i ==> keep2@[j] == ((#[trigger] self@.channels[j]).guild_id != Some(Snowflake(g))),
        {
            assert(self@.channels[i as int] == channel_view(self.channels@[i as int]));
            let in_g = match self.channels[i].guild_id {
                Some(x) => x.0 == g,
                None => false,
            };
            keep2.push(!in_g);
        }
        self.keep_channels(&keep2, Ghost(|c: ChannelV| c.guild_id != Some(Snowflake(g))));
        assert(self@ =~= guild_delete_spec(old(self)@, *id));
    }

    fn on_guild_update(&mut self, d: Guild)
        requires
            old(self).wf(),
        ensures
            final(self).wf(),
            final(self)@ == guild_update_spec(old(self)@, d),
    {
        match self.guild_index(d.id) {
            Some(i) => {
                self.guilds.set(i, d);
                assert(self@ =~= guild_update_spec(old(self)@, d));
            }
            None => {}
        }
    }

    fn upsert_channel(&mut self, d: Channel)
        requires
            old(self).wf(),
        ensures
            final(self).wf(),
            final(self)@ == upsert_channel_spec(old(self)@, d),
    {
        let ghost cs = self.channels@;
        match self.channel_index(d.id) {
            Some(i) => {
                self.channels.set(i, d);
                assert(self.channels@.map_values(|c: Channel| channel_view(c)) =~= cs.map_values(|c: Channel| channel_view(c)).update(i as int, channel_view(d)));
            }
            None => {
                self.channels.push(d);
                assert(self.channels@.map_values(|c: Channel| channel_view(c)) =~= cs.map_values(|c: Channel| channel_view(c)).push(channel_view(d)));
            }
        }
        assert(self@ =~= upsert_channel_spec(old(self)@, d));
    }

    fn delete_channel(&mut self, id: Snowflake)
        requires
            old(self).wf(),
        ensures
            final(self).wf(),
            final(self)@ == delete_channel_spec(old(self)@, id),
    {
        let mut keep: Vec<bool> = Vec::new();
        for i in 0..self.channels.len()
            invariant
                keep@.len() == i,
                forall|j: int| 0 <= j < i ==> keep@[j] == ((#[trigger] self@.channels[j]).id != id),
        {
            assert(self@.channels[i as int] == channel_view(self.channels@[i as int]));
            keep.push(self.channels[i].id.0 != id.0);
        }
        self.keep_channels(&keep, Ghost(|c: ChannelV| c.id != id));
    }

    fn on_presence_update(&mut self, d: &PresenceUpdate, now_ms: u64)
        requires
            old(self).wf(),
        ensures
            final(self).wf(),
            final(self)@ == presence_update_spec(old(self)@, *d, now_ms),
    {
        self.set_presence(d.user.id, d.status.as_str());
        if d.user.display_name().is_some() {
            let username = match &d.user.username {
                Some(u) => u.clone(),
                None => match &d.user.global_name {
                    Some(g) => g.clone(),
                    None => String::new(),
                },
            };
            let u = User {
                id: d.user.id,
                username,
                global_name: crate::model::copy_opt_string(&d.user.global_name),
                discriminator: d.user.discriminator.clone(),
                avatar: crate::model::copy_opt_string(&d.user.avatar),
                bot: d.user.bot,
                system: false,
                public_flags: None,
                banner: None,
                accent_color: None,
                locale: None,
                email: None,
                flags: None,
                mfa_enabled: None,
                premium_type: None,
            };
            assert(u == presence_user(d.user));
            self.touch_user(&u, now_ms);
        }
    }

    fn on_user_update(&mut self, d: User, now_ms: u64)
        requires
            old(self).wf(),
        ensures
            final(self).wf(),
            final(self)@ == user_update_spec(old(self)@, d, now_ms),
    {
        self.touch_user(&d, now_ms);
        self.set_current_user(Some(d));
        assert(self@ =~= user_update_spec(old(self)@, d, now_ms));
    }

    fn on_typing_start(&mut self, d: &TypingStart, now_ms: u64)
        requires
            old(self).wf(),
        ensures
            final(self).wf(),
            final(self)@ == typing_start_spec(old(self)@, *d, now_ms),
    {
        let name: String = match &d.member {
            Some(m) if m.user.is_some() => match &m.user {
                Some(u) => u.display_name().to_string(),
                None => "someone".to_string(),
            },
            _ => match self.user(d.user_id) {
                Some(u) => u.display_name().to_string(),
                None => "someone".to_string(),
            },
        };
        assert(name@ == typing_name(old(self)@, *d));
        self.set_typing(d.channel_id, d.user_id, name.as_str(), now_ms);
    }
}


/// The DM channel registered when the first message of an unknown DM
/// arrives.
pub open spec fn dm_view(m: Message) -> ChannelV {
    ChannelV {
        id: m.channel_id,
        kind: ChannelType::Dm,
        name: seq![],
        topic: None,
        guild_id: None,
        parent_id: None,
        position: None,
        last_message_id: Some(m.id),
        bitrate: None,
        user_limit: None,
        recipients: seq![m.author],
        recipient_ids: seq![],
        nsfw: false,
        flags: None,
    }
}

/// A DM message for a channel the cache does not know yet.
pub open spec fn unknown_dm(v: StateView, m: Message) -> bool {
    m.guild_id is None && first_channel(v.channels, m.channel_id) is None
}

pub open spec fn authored_by_me(v: StateView, m: Message) -> bool {
    v.current_user matches Some(u) && u.id == m.author.id
}

/// The channel to fetch over REST after a MESSAGE_CREATE: an unknown DM
/// whose author cannot stand for the other side (ourselves, or no author).
pub open spec fn dm_fetch_spec(v: StateView, m: Message) -> Option<Snowflake> {
    if unknown_dm(v, m) && (authored_by_me(v, m) || m.author.id.0 == 0) { Some(m.channel_id) } else { None }
}

/// MESSAGE_CREATE: unread/mention counters, the author's record, DM
/// bookkeeping (register an unknown DM, keep `last_message_id` fresh),
/// the author's typing indicator ends, and the message joins the cache.
pub open spec fn message_create_spec(v: StateView, m: Message, now_ms: u64) -> StateView {
    let c = m.channel_id.0;
    let v1 = bump_spec(v, m);
    let v2 = StateView { users: touch_users(v1.users, m.author, now_ms), ..v1 };
    let v3 = if unknown_dm(v, m) && !authored_by_me(v, m) && m.author.id.0 != 0 {
        StateView { channels: v2.channels.push(dm_view(m)), ..v2 }
    } else {
        v2
    };
    let v4 = if m.guild_id is None {
        match first_channel(v3.channels, m.channel_id) {
            Some(i) => StateView { channels: v3.channels.update(i, ChannelV { last_message_id: Some(m.id), ..v3.channels[i] }), ..v3 },
            None => v3,
        }
    } else {
        v3
    };
    let v5 = if v4.typing.contains_key(c) {
        StateView { typing: v4.typing.insert(c, v4.typing[c].filter(|t: TypingV| t.user_id != m.author.id)), ..v4 }
    } else {
        v4
    };
    push_message_spec(v5, m)
}

/// MESSAGE_UPDATE: the fields present in the payload replace those of the
/// cached message.
pub open spec fn message_update_spec(v: StateView, d: PartialMessage) -> StateView {
    let c = d.channel_id.0;
    if v.messages.contains_key(c) && first_message(v.messages[c], d.id.0) is Some {
        let i = first_message(v.messages[c], d.id.0)->0;
        let m = v.messages[c][i];
        let nm = Message {
            content: match d.content { Some(x) => x, None => m.content },
            edited_timestamp: match d.edited_timestamp { Some(e) => Some(e), None => m.edited_timestamp },
            attachments: match d.attachments { Some(a) => a, None => m.attachments },
            embeds: match d.embeds { Some(e) => e, None => m.embeds },
            ..m
        };
        StateView { messages: v.messages.insert(c, v.messages[c].update(i, nm)), ..v }
    } else {
        v
    }
}

pub open spec fn message_delete_spec(v: StateView, d: MessageDelete) -> StateView {
    let c = d.channel_id.0;
    if v.messages.contains_key(c) {
        StateView { messages: v.messages.insert(c, v.messages[c].filter(|x: Message| x.id != d.id)), ..v }
    } else {
        v
    }
}

pub open spec fn message_delete_bulk_spec(v: StateView, d: MessageDeleteBulk) -> StateView {
    let c = d.channel_id.0;
    if v.messages.contains_key(c) {
        StateView { messages: v.messages.insert(c, v.messages[c].filter(|x: Message| !d.ids@.contains(x.id))), ..v }
    } else {
        v
    }
}

/// The arithmetic an event performs has room (the counters it bumps).
pub open spec fn dispatch_ok(v: StateView, e: Event) -> bool {
    match e {
        Event::MessageCreate { d } => bump_ok(v, d),
        Event::MessageReactionAdd { d } => reaction_ok(v, d, true),
        _ => true,
    }
}

/// `w` is the state after `v` handled event `e` at time `now_ms`.
pub open spec fn dispatched(v: StateView, w: StateView, e: Event, now_ms: u64) -> bool {
    match e {
        Event::Ready { d } => w == ready_spec(v, *d, now_ms),
        Event::GuildCreate { d } => w == guild_create_spec(v, d, now_ms),
        Event::GuildDelete { id } => w == guild_delete_spec(v, id),
        Event::GuildUpdate { d } => w == guild_update_spec(v, d),
        Event::ChannelCreate { d } => w == upsert_channel_spec(v, d),
        Event::ChannelUpdate { d } => w == upsert_channel_spec(v, d),
        Event::ChannelDelete { d } => w == delete_channel_spec(v, d.id),
        Event::MessageCreate { d } => w == message_create_spec(v, d, now_ms),
        Event::MessageUpdate { d } => w == message_update_spec(v, d),
        Event::MessageDelete { d } => w == message_delete_spec(v, d),
        Event::MessageDeleteBulk { d } => w == message_delete_bulk_spec(v, d),
        Event::MessageReactionAdd { d } => reaction_applied(v, w, d, true),
        Event::MessageReactionRemove { d } => reaction_applied(v, w, d, false),
        Event::TypingStart { d } => w == typing_start_spec(v, d, now_ms),
        Event::PresenceUpdate { d } => w == presence_update_spec(v, d, now_ms),
        Event::UserUpdate { d } => w == user_update_spec(v, d, now_ms),
        _ => w == v,
    }
}

proof fn lemma_ready_keeps_seq(v: StateView, d: ReadyPayload, t: u64)
    ensures
        ready_spec(v, d, t).last_seq == v.last_seq,
{
}

proof fn lemma_guild_create_keeps_seq(v: StateView, g: Guild, t: u64)
    ensures
        guild_create_spec(v, g, t).last_seq == v.last_seq,
{
}

proof fn lemma_guild_delete_keeps_seq(v: StateView, id: Option<String>)
    ensures
        guild_delete_spec(v, id).last_seq == v.last_seq,
{
}

proof fn lemma_guild_update_keeps_seq(v: StateView, g: Guild)
    ensures
        guild_update_spec(v, g).last_seq == v.last_seq,
{
}

proof fn lemma_upsert_channel_keeps_seq(v: StateView, c: Channel)
    ensures
        upsert_channel_spec(v, c).last_seq == v.last_seq,
{
}

proof fn lemma_delete_channel_keeps_seq(v: StateView, id: Snowflake)
    ensures
        delete_channel_spec(v, id).last_seq == v.last_seq,
{
}

proof fn lemma_message_create_keeps_seq(v: StateView, m: Message, t: u64)
    ensures
        message_create_spec(v, m, t).last_seq == v.last_seq,
{
}

proof fn lemma_message_update_keeps_seq(v: StateView, d: PartialMessage)
    ensures
        message_update_spec(v, d).last_seq == v.last_seq,
{
}

proof fn lemma_message_delete_keeps_seq(v: StateView, d: MessageDelete)
    ensures
        message_delete_spec(v, d).last_seq == v.last_seq,
{
}

proof fn lemma_message_delete_bulk_keeps_seq(v: StateView, d: MessageDeleteBulk)
    ensures
        message_delete_bulk_spec(v, d).last_seq == v.last_seq,
{
}

proof fn lemma_typing_start_keeps_seq(v: StateView, d: TypingStart, t: u64)
    ensures
        typing_start_spec(v, d, t).last_seq == v.last_seq,
{
}

proof fn lemma_presence_update_keeps_seq(v: StateView, d: PresenceUpdate, t: u64)
    ensures
        presence_update_spec(v, d, t).last_seq == v.last_seq,
{
}

proof fn lemma_user_update_keeps_seq(v: StateView, u: User, t: u64)
    ensures
        user_update_spec(v, u, t).last_seq == v.last_seq,
{
}

/// Dispatching an event never touches the gateway sequence number.
pub proof fn lemma_dispatch_keeps_seq(v: StateView, w: StateView, e: Event, now_ms: u64)
    requires
        dispatched(v, w, e, now_ms),
    ensures
        w.last_seq == v.last_seq,
{
    match e {
        Event::Ready { d } => lemma_ready_keeps_seq(v, *d, now_ms),
        Event::GuildCreate { d } => lemma_guild_create_keeps_seq(v, d, now_ms),
        Event::GuildDelete { id } => lemma_guild_delete_keeps_seq(v, id),
        Event::GuildUpdate { d } => lemma_guild_update_keeps_seq(v, d),
        Event::ChannelCreate { d } => lemma_upsert_channel_keeps_seq(v, d),
        Event::ChannelUpdate { d } => lemma_upsert_channel_keeps_seq(v, d),
        Event::ChannelDelete { d } => lemma_delete_channel_keeps_seq(v, d.id),
        Event::MessageCreate { d } => lemma_message_create_keeps_seq(v, d, now_ms),
        Event::MessageUpdate { d } => lemma_message_update_keeps_seq(v, d),
        Event::MessageDelete { d } => lemma_message_delete_keeps_seq(v, d),
        Event::MessageDeleteBulk { d } => lemma_message_delete_bulk_keeps_seq(v, d),
        Event::TypingStart { d } => lemma_typing_start_keeps_seq(v, d, now_ms),
        Event::PresenceUpdate { d } => lemma_presence_update_keeps_seq(v, d, now_ms),
        Event::UserUpdate { d } => lemma_user_update_keeps_seq(v, d, now_ms),
        _ => {},
    }
}

/// No two cached messages of the history share an id.
pub open spec fn ids_distinct(s: Seq<Message>) -> bool {
    forall|i: int, j: int| 0 <= i < j < s.len() ==> #[trigger] s[i].id != #[trigger] s[j].id
}

/// Every channel's cached history holds each message id once.
pub open spec fn caches_distinct(v: StateView) -> bool {
    forall|c: u64| #[trigger] v.messages.contains_key(c) ==> ids_distinct(v.messages[c])
}

proof fn lemma_filter_keeps_distinct(s: Seq<Message>, p: spec_fn(Message) -> bool)
    requires
        ids_distinct(s),
    ensures
        ids_distinct(s.filter(p)),
        forall|i: int| 0 <= i < s.filter(p).len() ==> has_id(s, #[trigger] s.filter(p)[i].id),
    decreases s.len(),
{
    reveal_with_fuel(Seq::filter, 1);
    if s.len() > 0 {
        let d = s.drop_last();
        assert(ids_distinct(d)) by {
            assert forall|i: int, j: int| 0 <= i < j < d.len() implies #[trigger] d[i].id != #[trigger] d[j].id by {
                assert(d[i] == s[i] && d[j] == s[j]);
            }
        }
        lemma_filter_keeps_distinct(d, p);
        let f0 = d.filter(p);
        assert forall|i: int| 0 <= i < f0.len() implies has_id(s, #[trigger] f0[i].id) by {
            let k = choose|k: int| 0 <= k < d.len() && #[trigger] d[k].id == f0[i].id;
            assert(s[k] == d[k]);
        }
        if p(s.last()) {
            let f = f0.push(s.last());
            assert forall|i: int| 0 <= i < f0.len() implies #[trigger] f0[i].id != s.last().id by {
                let k = choose|k: int| 0 <= k < d.len() && #[trigger] d[k].id == f0[i].id;
                assert(s[k] == d[k]);
                assert(s[k].id != s[s.len() - 1].id);
            }
            assert forall|i: int, j: int| 0 <= i < j < f.len() implies #[trigger] f[i].id != #[trigger] f[j].id by {
                assert(f[i] == f0[i]);
                if j < f0.len() {
                    assert(f[j] == f0[j]);
                }
            }
            assert forall|i: int| 0 <= i < f.len() implies has_id(s, #[trigger] f[i].id) by {
                if i < f0.len() {
                    assert(f[i] == f0[i]);
                } else {
                    assert(s[s.len() - 1].id == f[i].id);
                }
            }
        }
    }
}

proof fn lemma_push_keeps_distinct(v: StateView, m: Message)
    requires
        caches_distinct(v),
    ensures
        caches_distinct(push_message_spec(v, m)),
{
    let c = m.channel_id.0;
    let cur = msgs_of(v, c);
    let w = push_message_spec(v, m);
    assert(ids_distinct(cur));
    if !has_id(cur, m.id) {
        let p = cur.push(m);
        assert forall|i: int, j: int| 0 <= i < j < p.len() implies #[trigger] p[i].id != #[trigger] p[j].id by {
            assert(p[i] == cur[i]);
            if j < cur.len() {
                assert(p[j] == cur[j]);
            }
        }
        let k = keep_last(p, MAX_MESSAGES_PER_CHANNEL as nat);
        assert forall|i: int, j: int| 0 <= i < j < k.len() implies #[trigger] k[i].id != #[trigger] k[j].id by {
            if p.len() > MAX_MESSAGES_PER_CHANNEL {
                let o = p.len() - MAX_MESSAGES_PER_CHANNEL;
                assert(k[i] == p[i + o] && k[j] == p[j + o]);
            }
        }
    }
    assert forall|x: u64| #[trigger] w.messages.contains_key(x) implies ids_distinct(w.messages[x]) by {
        if x != c {
            assert(w.messages[x] == v.messages[x]);
        }
    }
}

proof fn lemma_update_at_keeps_distinct(v: StateView, c: u64, i: int, nm: Message)
    requires
        caches_distinct(v),
        v.messages.contains_key(c),
        0 <= i < v.messages[c].len(),
        nm.id == v.messages[c][i].id,
    ensures
        caches_distinct(StateView { messages: v.messages.insert(c, v.messages[c].update(i, nm)), ..v }),
{
    let s = v.messages[c];
    let u = s.update(i, nm);
    assert(ids_distinct(s));
    assert forall|a: int, b: int| 0 <= a < b < u.len() implies #[trigger] u[a].id != #[trigger] u[b].id by {
        assert(u[a].id == s[a].id && u[b].id == s[b].id);
    }
}

proof fn lemma_filter_at_keeps_distinct(v: StateView, c: u64, p: spec_fn(Message) -> bool)
    requires
        caches_distinct(v),
        v.messages.contains_key(c),
    ensures
        caches_distinct(StateView { messages: v.messages.insert(c, v.messages[c].filter(p)), ..v }),
{
    lemma_filter_keeps_distinct(v.messages[c], p);
}

proof fn lemma_create_keeps_distinct(v: StateView, m: Message, t: u64)
    requires
        caches_distinct(v),
    ensures
        caches_distinct(message_create_spec(v, m, t)),
{
    let c = m.channel_id.0;
    let v1 = bump_spec(v, m);
    let v2 = StateView { users: touch_users(v1.users, m.author, t), ..v1 };
    let v3 = if unknown_dm(v, m) && !authored_by_me(v, m) && m.author.id.0 != 0 {
        StateView { channels: v2.channels.push(dm_view(m)), ..v2 }
    } else {
        v2
    };
    let v4 = if m.guild_id is None {
        match first_channel(v3.channels, m.channel_id) {
            Some(i) => StateView { channels: v3.channels.update(i, ChannelV { last_message_id: Some(m.id), ..v3.channels[i] }), ..v3 },
            None => v3,
        }
    } else {
        v3
    };
    let v5 = if v4.typing.contains_key(c) {
        StateView { typing: v4.typing.insert(c, v4.typing[c].filter(|x: TypingV| x.user_id != m.author.id)), ..v4 }
    } else {
        v4
    };
    assert(v5.messages == v.messages);
    lemma_push_keeps_distinct(v5, m);
}

proof fn lemma_edit_keeps_distinct(v: StateView, d: PartialMessage)
    requires
        caches_distinct(v),
    ensures
        caches_distinct(message_update_spec(v, d)),
{
    let c = d.channel_id.0;
    if v.messages.contains_key(c) && first_message(v.messages[c], d.id.0) is Some {
        let i = first_message(v.messages[c], d.id.0)->0;
        let m = v.messages[c][i];
        let nm = Message {
            content: match d.content { Some(x) => x, None => m.content },
            edited_timestamp: match d.edited_timestamp { Some(e) => Some(e), None => m.edited_timestamp },
            attachments: match d.attachments { Some(a) => a, None => m.attachments },
            embeds: match d.embeds { Some(e) => e, None => m.embeds },
            ..m
        };
        lemma_update_at_keeps_distinct(v, c, i, nm);
    }
}

proof fn lemma_delete_keeps_distinct(v: StateView, d: MessageDelete)
    requires
        caches_distinct(v),
    ensures
        caches_distinct(message_delete_spec(v, d)),
{
    if v.messages.contains_key(d.channel_id.0) {
        lemma_filter_at_keeps_distinct(v, d.channel_id.0, |x: Message| x.id != d.id);
    }
}

proof fn lemma_delete_bulk_keeps_distinct(v: StateView, b: MessageDeleteBulk)
    requires
        caches_distinct(v),
    ensures
        caches_distinct(message_delete_bulk_spec(v, b)),
{
    if v.messages.contains_key(b.channel_id.0) {
        lemma_filter_at_keeps_distinct(v, b.channel_id.0, |x: Message| !b.ids@.contains(x.id));
    }
}

proof fn lemma_reaction_keeps_distinct(v: StateView, w: StateView, d: ReactionEvent, add: bool)
    requires
        caches_distinct(v),
        reaction_applied(v, w, d, add),
    ensures
        caches_distinct(w),
{
    match reaction_target(v, d) {
        Some((c, i, e)) => {
            lemma_update_at_keeps_distinct(v, c, i, w.messages[c][i]);
        },
        None => {},
    }
}

proof fn lemma_other_events_keep_messages(v: StateView, w: StateView, e: Event, now_ms: u64)
    requires
        dispatched(v, w, e, now_ms),
        !(e is MessageCreate || e is MessageUpdate || e is MessageDelete || e is MessageDeleteBulk
            || e is MessageReactionAdd || e is MessageReactionRemove),
    ensures
        w.messages == v.messages,
{
    match e {
        Event::Ready { d } => {},
        Event::GuildCreate { d } => {},
        Event::GuildDelete { id } => {},
        Event::GuildUpdate { d } => {},
        Event::ChannelCreate { d } => {},
        Event::ChannelUpdate { d } => {},
        Event::ChannelDelete { d } => {},
        Event::TypingStart { d } => {},
        Event::PresenceUpdate { d } => {},
        Event::UserUpdate { d } => {},
        _ => {},
    }
}

/// Bounded memory, without repeats: whatever event is dispatched, a
/// channel's history that held each message id once still does.
#[verifier::spinoff_prover]
#[verifier::rlimit(60)]
pub proof fn law_dispatch_keeps_ids_distinct(v: StateView, w: StateView, e: Event, now_ms: u64)
    requires
        dispatched(v, w, e, now_ms),
        caches_distinct(v),
    ensures
        caches_distinct(w),
{
    match e {
        Event::MessageCreate { d } => lemma_create_keeps_distinct(v, d, now_ms),
        Event::MessageUpdate { d } => lemma_edit_keeps_distinct(v, d),
        Event::MessageDelete { d } => lemma_delete_keeps_distinct(v, d),
        Event::MessageDeleteBulk { d } => lemma_delete_bulk_keeps_distinct(v, d),
        Event::MessageReactionAdd { d } => lemma_reaction_keeps_distinct(v, w, d, true),
        Event::MessageReactionRemove { d } => lemma_reaction_keeps_distinct(v, w, d, false),
        _ => lemma_other_events_keep_messages(v, w, e, now_ms),
    }
}

/// The DM channel an event asks the app to fetch over REST.
pub open spec fn dispatch_fetch(v: StateView, e: Event) -> Option<Snowflake> {
    match e {
        Event::MessageCreate { d } => dm_fetch_spec(v, d),
        _ => None,
    }
}

impl AppState {
    fn filter_history(&mut self, c: u64, keep: &Vec<bool>, Ghost(p): Ghost<spec_fn(Message) -> bool>)
        requires
            old(self).wf(),
            old(self)@.messages.contains_key(c),
            keep@.len() == old(self)@.messages[c].len(),
            forall|i: int| 0 <= i < keep@.len() ==> keep@[i] == p(#[trigger] old(self)@.messages[c][i]),
        ensures
            final(self).wf(),
            final(self)@ == (StateView { messages: old(self)@.messages.insert(c, old(self)@.messages[c].filter(p)), ..old(self)@ }),
    {
        let ms = self.take_history(c);
        proof {
            crate::seqs::lemma_flagged_filter_self(ms@, keep@, p);
            ms@.lemma_filter_len(p);
        }
        let kept = keep_flagged(ms, keep);
        self.put_history(c, kept);
    }

    fn on_message_delete(&mut self, d: &MessageDelete)
        requires
            old(self).wf(),
        ensures
            final(self).wf(),
            final(self)@ == message_delete_spec(old(self)@, *d),
    {
        let c = d.channel_id.0;
        let keep = match self.messages.get(c) {
            Some(ms) => {
                let mut keep: Vec<bool> = Vec::new();
                for i in 0..ms.len()
                    invariant
                        keep@.len() == i,
                        forall|j: int| 0 <= j < i ==> keep@[j] == ((#[trigger] ms@[j]).id != d.id),
                {
                    keep.push(ms[i].id.0 != d.id.0);
                }
                keep
            }
            None => return,
        };
        self.filter_history(c, &keep, Ghost(|x: Message| x.id != d.id));
    }

    fn on_message_delete_bulk(&mut self, d: &MessageDeleteBulk)
        requires
            old(self).wf(),
        ensures
            final(self).wf(),
            final(self)@ == message_delete_bulk_spec(old(self)@, *d),
    {
        let c = d.channel_id.0;
        let keep = match self.messages.get(c) {
            Some(ms) => {
                let mut keep: Vec<bool> = Vec::new();
                for i in 0..ms.len()
                    invariant
                        keep@.len() == i,
                        forall|j: int| 0 <= j < i ==> keep@[j] == !d.ids@.contains((#[trigger] ms@[j]).id),
                {
                    let id = ms[i].id;
                    let mut found = false;
                    for k in 0..d.ids.len()
                        invariant
                            found <==> exists|q: int| 0 <= q < k && d.ids@[q] == id,
                    {
                        if d.ids[k].0 == id.0 {
                            found = true;
                        }
                    }
                    keep.push(!found);
                }
                keep
            }
            None => return,
        };
        self.filter_history(c, &keep, Ghost(|x: Message| !d.ids@.contains(x.id)));
    }

    fn on_message_update(&mut self, d: PartialMessage)
        requires
            old(self).wf(),
        ensures
            final(self).wf(),
            final(self)@ == message_update_spec(old(self)@, d),
    {
        let ghost v = self@;
        let ghost dd = d;
        let c = d.channel_id.0;
        let i = match self.find_message(c, d.id.0) {
            Some(i) => i,
            None => return,
        };
        proof { lemma_first_message(self@.messages[c], d.id.0); }
        let mut ms = self.take_history(c);
        let mut msg = ms.remove(i);
        let PartialMessage { content, edited_timestamp, attachments, embeds, .. } = d;
        if let Some(x) = content {
            msg.content = x;
        }
        if let Some(e) = edited_timestamp {
            msg.edited_timestamp = Some(e);
        }
        if let Some(a) = attachments {
            msg.attachments = a;
        }
        if let Some(e) = embeds {
            msg.embeds = e;
        }
        ms.insert(i, msg);
        assert(ms@ =~= v.messages[c].update(i as int, msg));
        self.put_history(c, ms);
        assert(self@ =~= message_update_spec(v, dd));
    }

    /// Registers an unknown DM channel from its first message, or reports
    /// that it must be fetched.
    fn register_dm(&mut self, d: &Message, Ghost(v): Ghost<StateView>) -> (fetch: Option<Snowflake>)
        requires
            old(self).wf(),
            old(self)@.channels == v.channels,
            old(self)@.current_user == v.current_user,
        ensures
            final(self).wf(),
            final(self)@ == (if unknown_dm(v, *d) && !authored_by_me(v, *d) && d.author.id.0 != 0 {
                StateView { channels: old(self)@.channels.push(dm_view(*d)), ..old(self)@ }
            } else {
                old(self)@
            }),
            fetch == dm_fetch_spec(v, *d),
    {
        let cid = d.channel_id;
        if d.guild_id.is_none() && self.channel_index(cid).is_none() {
            let is_me = match &self.current_user {
                Some(u) => u.id.0 == d.author.id.0,
                None => false,
            };
            if !is_me && d.author.id.0 != 0 {
                let mut recipients: Vec<User> = Vec::new();
                recipients.push(d.author.duplicate());
                let ch = Channel {
                    id: cid,
                    kind: ChannelType::Dm,
                    name: String::new(),
                    topic: None,
                    guild_id: None,
                    parent_id: None,
                    position: None,
                    last_message_id: Some(d.id),
                    bitrate: None,
                    user_limit: None,
                    recipients,
                    recipient_ids: Vec::new(),
                    nsfw: false,
                    flags: None,
                };
                assert(channel_view(ch) =~= dm_view(*d));
                self.push_channel(ch);
                None
            } else {
                Some(cid)
            }
        } else {
            None
        }
    }

    /// Keeps a DM channel's `last_message_id` fresh for sorting.
    fn refresh_dm_last_id(&mut self, d: &Message)
        requires
            old(self).wf(),
        ensures
            final(self).wf(),
            final(self)@ == (if d.guild_id is None {
                match first_channel(old(self)@.channels, d.channel_id) {
                    Some(i) => StateView { channels: old(self)@.channels.update(i, ChannelV { last_message_id: Some(d.id), ..old(self)@.channels[i] }), ..old(self)@ },
                    None => old(self)@,
                }
            } else {
                old(self)@
            }),
    {
        if d.guild_id.is_some() {
            return;
        }
        match self.channel_index(d.channel_id) {
            Some(i) => {
                let ghost cs = self.channels@;
                let mut ch = self.channels.remove(i);
                ch.last_message_id = Some(d.id);
                let ghost chv = channel_view(ch);
                self.channels.insert(i, ch);
                assert(self.channels@ =~= cs.update(i as int, ch));
                assert(self.channels@.map_values(|c: Channel| channel_view(c)) =~= cs.map_values(|c: Channel| channel_view(c)).update(i as int, chv));
                assert(chv == (ChannelV { last_message_id: Some(d.id), ..old(self)@.channels[i as int] }));
                assert(self@ =~= (StateView { channels: old(self)@.channels.update(i as int, chv), ..old(self)@ }));
            }
            None => {}
        }
    }

    /// Drops `author`'s typing indicator in channel `c`.
    fn end_typing(&mut self, c: u64, author: Snowflake)
        requires
            old(self).wf(),
        ensures
            final(self).wf(),
            final(self)@ == (if old(self)@.typing.contains_key(c) {
                StateView { typing: old(self)@.typing.insert(c, old(self)@.typing[c].filter(|t: TypingV| t.user_id != author)), ..old(self)@ }
            } else {
                old(self)@
            }),
    {
        if !self.typing.contains_key(c) {
            return;
        }
        let entry = self.take_typing(c);
        let mut keep: Vec<bool> = Vec::new();
        for i in 0..entry.len()
            invariant
                keep@.len() == i,
                forall|j: int| 0 <= j < i ==> keep@[j] == (entry@[j].user_id != author),
        {
            keep.push(entry[i].user_id.0 != author.0);
        }
        proof {
            lemma_flagged_filter(entry@, keep@, |t: TypingUser| typing_view(t), |t: TypingV| t.user_id != author);
            assert(typing_seq_view(entry@) =~= entry@.map_values(|t: TypingUser| typing_view(t)));
        }
        let kept = keep_flagged(entry, &keep);
        assert(typing_seq_view(kept@) =~= kept@.map_values(|t: TypingUser| typing_view(t)));
        self.put_typing(c, kept);
    }

    fn on_message_create(&mut self, d: Message, now_ms: u64) -> (fetch: Option<Snowflake>)
        requires
            old(self).wf(),
            bump_ok(old(self)@, d),
        ensures
            final(self).wf(),
            final(self)@ == message_create_spec(old(self)@, d, now_ms),
            fetch == dm_fetch_spec(old(self)@, d),
    {
        let ghost v = self@;
        self.bump_unread(&d);
        self.touch_user(&d.author, now_ms);
        let fetch = self.register_dm(&d, Ghost(v));
        self.refresh_dm_last_id(&d);
        self.end_typing(d.channel_id.0, d.author.id);
        self.push_message(d);
        assert(self@ =~= message_create_spec(v, d, now_ms));
        fetch
    }

    /// Registers a channel fetched over REST unless it is already known.
    pub fn add_channel_if_absent(&mut self, ch: Channel)
        requires
            old(self).wf(),
        ensures
            final(self).wf(),
            first_channel(old(self)@.channels, ch.id) is None ==>
                final(self)@ == (StateView { channels: old(self)@.channels.push(channel_view(ch)), ..old(self)@ }),
            first_channel(old(self)@.channels, ch.id) is Some ==> final(self)@ == old(self)@,
    {
        if self.channel_index(ch.id).is_none() {
            self.push_channel(ch);
        }
    }

    fn mentions_me_exec(&self, msg: &Message) -> (r: bool)
        ensures
            r == mentions_me(self@, *msg),
    {
        if msg.mention_everyone {
            return true;
        }
        match &self.current_user {
            Some(u) => {
                let mut i: usize = 0;
                while i < msg.mentions.len()
                    invariant
                        i <= msg.mentions@.len(),
                        self@.current_user == Some(*u),
                        forall|j: int| 0 <= j < i ==> msg.mentions@[j].id != u.id,
                    decreases msg.mentions.len() - i,
                {
                    if msg.mentions[i].id == u.id {
                        assert(msg.mentions@[i as int].id == u.id);
                        return true;
                    }
                    i += 1;
                }
                false
            }
            None => false,
        }
    }

    /// Whether `dispatch_event` may take this event: the unread, mention
    /// and reaction counters it would bump are below `u32::MAX`.
    pub fn can_dispatch(&self, event: &Event) -> (r: bool)
        requires
            self.wf(),
        ensures
            r == dispatch_ok(self@, *event),
    {
        match event {
            Event::MessageCreate { d } => {
                let c = d.channel_id.0;
                if let Some(s) = self.selection.channel_id {
                    if s.0 == c {
                        return true;
                    }
                }
                if self.unread_count(d.channel_id) == u32::MAX {
                    return false;
                }
                !self.mentions_me_exec(d) || self.mention_count(d.channel_id) < u32::MAX
            }
            Event::MessageReactionAdd { d } => {
                let c = match parse_id(&d.channel_id) {
                    Some(x) => x,
                    None => return true,
                };
                let m = match parse_id(&d.message_id) {
                    Some(x) => x,
                    None => return true,
                };
                let e = match &d.emoji {
                    Some(e) => e,
                    None => return true,
                };
                let i = match self.find_message(c, m) {
                    Some(i) => i,
                    None => return true,
                };
                proof { lemma_first_message(self@.messages[c], m); }
                assert(reaction_target(self@, *d) == Some((c, i as int, *e)));
                let ms = self.messages.get(c).unwrap();
                let key = e.content_string();
                proof { reveal(emoji_key); }
                match find_reaction(&ms[i].reactions, &key) {
                    Some(k) => ms[i].reactions[k].count < u32::MAX,
                    None => true,
                }
            }
            _ => true,
        }
    }

    /// Applies a gateway event to the cache. Returns the DM channel the
    /// app should fetch over REST, if the event calls for one.
    pub fn dispatch_event(&mut self, event: Event, now_ms: u64) -> (fetch: Option<Snowflake>)
        requires
            old(self).wf(),
            dispatch_ok(old(self)@, event),
        ensures
            final(self).wf(),
            dispatched(old(self)@, final(self)@, event, now_ms),
            fetch == dispatch_fetch(old(self)@, event),
    {
        match event {
            Event::Ready { d } => {
                self.on_ready(*d, now_ms);
                None
            }
            Event::GuildCreate { d } => {
                self.on_guild_create(d, now_ms);
                None
            }
            Event::GuildDelete { id } => {
                self.on_guild_delete(&id);
                None
            }
            Event::GuildUpdate { d } => {
                self.on_guild_update(d);
                None
            }
            Event::ChannelCreate { d } => {
                self.upsert_channel(d);
                None
            }
            Event::ChannelUpdate { d } => {
                self.upsert_channel(d);
                None
            }
            Event::ChannelDelete { d } => {
                self.delete_channel(d.id);
                None
            }
            Event::MessageCreate { d } => self.on_message_create(d, now_ms),
            Event::MessageUpdate { d } => {
                self.on_message_update(d);
                None
            }
            Event::MessageDelete { d } => {
                self.on_message_delete(&d);
                None
            }
            Event::MessageDeleteBulk { d } => {
                self.on_message_delete_bulk(&d);
                None
            }
            Event::MessageReactionAdd { d } => {
                self.apply_reaction(&d, true);
                None
            }
            Event::MessageReactionRemove { d } => {
                self.apply_reaction(&d, false);
                None
            }
            Event::TypingStart { d } => {
                self.on_typing_start(&d, now_ms);
                None
            }
            Event::PresenceUpdate { d } => {
                self.on_presence_update(&d, now_ms);
                None
            }
            Event::UserUpdate { d } => {
                self.on_user_update(d, now_ms);
                None
            }
            // Resumed, pins, bulk reaction clears, voice, internal UI events
            // and unknown events carry nothing the cache holds.
            _ => None,
        }
    }
}


// ───────────────────────────── Channel auto-selection ─────────────────────────────

/// Channels sort by (has a parent category, position).
pub open spec fn sort_key_lt(a: ChannelV, b: ChannelV) -> bool {
    let pa = a.parent_id is Some;
    let pb = b.parent_id is Some;
    let xa: int = match a.position { Some(p) => p as int, None => 0 };
    let xb: int = match b.position { Some(p) => p as int, None => 0 };
    (!pa && pb) || (pa == pb && xa < xb)
}

pub open spec fn eligible(c: ChannelV, g: Snowflake) -> bool {
    c.guild_id == Some(g) && crate::model::is_text_like_kind(c.kind)
}

/// `i` is the first text channel of guild `g` in sorted order: no eligible
/// channel sorts before it, and every earlier eligible one sorts after it.
pub open spec fn is_first_pick(cs: Seq<ChannelV>, g: Snowflake, i: int) -> bool {
    &&& 0 <= i < cs.len()
    &&& eligible(cs[i], g)
    &&& forall|j: int| 0 <= j < cs.len() && eligible(#[trigger] cs[j], g) ==> !sort_key_lt(cs[j], cs[i])
    &&& forall|j: int| 0 <= j < i && eligible(#[trigger] cs[j], g) ==> sort_key_lt(cs[i], cs[j])
}

pub open spec fn auto_select_spec(v: StateView) -> StateView {
    match (v.selection.guild_id, v.selection.channel_id) {
        (Some(g), None) => {
            if exists|i: int| is_first_pick(v.channels, g, i) {
                let i = choose|i: int| is_first_pick(v.channels, g, i);
                select_spec(v, Selection { guild_id: Some(g), channel_id: Some(v.channels[i].id) })
            } else {
                v
            }
        }
        _ => v,
    }
}

pub proof fn lemma_first_pick_unique(cs: Seq<ChannelV>, g: Snowflake, i: int, k: int)
    requires
        is_first_pick(cs, g, i),
        is_first_pick(cs, g, k),
    ensures
        i == k,
{
    if i < k {
        assert(sort_key_lt(cs[k], cs[i]));
        assert(!sort_key_lt(cs[i], cs[k]));
        assert(!sort_key_lt(cs[k], cs[i]));
    } else if k < i {
        assert(sort_key_lt(cs[i], cs[k]));
        assert(!sort_key_lt(cs[i], cs[k]));
    }
}

impl AppState {
    fn channel_sort_lt(a: &Channel, b: &Channel) -> (r: bool)
        ensures
            r == sort_key_lt(channel_view(*a), channel_view(*b)),
    {
        let pa = a.parent_id.is_some();
        let pb = b.parent_id.is_some();
        let xa: i32 = match a.position { Some(p) => p, None => 0 };
        let xb: i32 = match b.position { Some(p) => p, None => 0 };
        (!pa && pb) || (pa == pb && xa < xb)
    }

    /// With a guild selected but no channel, selects the guild's first
    /// text channel in sidebar order (uncategorized first, then by
    /// position; ties keep list order).
    pub fn auto_select_first_channel(&mut self)
        requires
            old(self).wf(),
        ensures
            final(self).wf(),
            final(self)@ == auto_select_spec(old(self)@),
    {
        let g = match (self.selection.guild_id, self.selection.channel_id) {
            (Some(g), None) => g,
            _ => return,
        };
        let ghost cs = self@.channels;
        let mut best: Option<usize> = None;
        let mut i: usize = 0;
        while i < self.channels.len()
            invariant
                cs == self@.channels,
                i <= cs.len(),
                best matches Some(b) ==> b < i && eligible(cs[b as int], g)
                    && (forall|j: int| 0 <= j < i && eligible(#[trigger] cs[j], g) ==> !sort_key_lt(cs[j], cs[b as int]))
                    && (forall|j: int| 0 <= j < b && eligible(#[trigger] cs[j], g) ==> sort_key_lt(cs[b as int], cs[j])),
                best is None ==> forall|j: int| 0 <= j < i ==> !eligible(#[trigger] cs[j], g),
            decreases self.channels.len() - i,
        {
            let c = &self.channels[i];
            assert(cs[i as int] == channel_view(*c));
            let ok = match c.guild_id { Some(x) => x.0 == g.0, None => false } && c.is_text_like();
            if ok {
                match best {
                    None => { best = Some(i); }
                    Some(b) => {
                        assert(cs[b as int] == channel_view(self.channels@[b as int]));
                        if Self::channel_sort_lt(c, &self.channels[b]) {
                            best = Some(i);
                        }
                    }
                }
            }
            i += 1;
        }
        match best {
            Some(b) => {
                assert(is_first_pick(cs, g, b as int));
                proof {
                    let k = choose|k: int| is_first_pick(cs, g, k);
                    lemma_first_pick_unique(cs, g, b as int, k);
                }
                let id = self.channels[b].id;
                self.set_selection(Selection { guild_id: Some(g), channel_id: Some(id) });
            }
            None => {
                assert(!exists|k: int| is_first_pick(cs, g, k));
            }
        }
    }
}

// ───────────────────────────── Laws ─────────────────────────────

impl AppState {
    /// Every state the cache can reach keeps at most
    /// `MAX_MESSAGES_PER_CHANNEL` messages per channel and at most
    /// `MAX_CACHED_USERS` user records, each id once.
    pub proof fn lemma_wf_bounds(&self)
        requires
            self.wf(),
        ensures
            state_inv(self@),
    {
    }
}

/// A message delivered twice (REST and gateway) is cached once: a second
/// MESSAGE_CREATE with a cached id leaves that channel's history as it was.
pub proof fn law_duplicate_message_not_duplicated(v: StateView, m: Message, now_ms: u64)
    requires
        has_id(msgs_of(v, m.channel_id.0), m.id),
    ensures
        msgs_of(message_create_spec(v, m, now_ms), m.channel_id.0) == msgs_of(v, m.channel_id.0),
{
}

/// A new live message is appended to its own channel's history (oldest
/// dropped beyond the cap) and no other channel's history changes.
pub proof fn law_message_create_appends(v: StateView, m: Message, now_ms: u64, other: u64)
    requires
        !has_id(msgs_of(v, m.channel_id.0), m.id),
        other != m.channel_id.0,
    ensures
        msgs_of(message_create_spec(v, m, now_ms), m.channel_id.0)
            == keep_last(msgs_of(v, m.channel_id.0).push(m), MAX_MESSAGES_PER_CHANNEL as nat),
        msgs_of(message_create_spec(v, m, now_ms), m.channel_id.0).last() == m,
        msgs_of(message_create_spec(v, m, now_ms), other) == msgs_of(v, other),
{
}

/// Installing a history page touches only that channel's cache and marks
/// it fetched.
pub proof fn law_set_messages_isolated(v: StateView, c: u64, msgs: Seq<Message>, other: u64)
    requires
        other != c,
    ensures
        msgs_of(set_messages_spec(v, c, msgs), other) == msgs_of(v, other),
        set_messages_spec(v, c, msgs).fetched.contains(c),
        set_messages_spec(v, c, msgs).fetched.contains(other) == v.fetched.contains(other),
{
}

/// A late REST page that is older than what the gateway already delivered
/// leaves the live cache in place.
pub proof fn law_stale_rest_keeps_live_cache(v: StateView, c: u64, msgs: Seq<Message>)
    requires
        v.messages.contains_key(c),
        rest_is_stale(v.messages[c], keep_last(msgs, MAX_MESSAGES_PER_CHANNEL as nat)),
    ensures
        set_messages_spec(v, c, msgs).messages == v.messages,
{
}

/// Messages in the channel on screen are read as they arrive; messages
/// elsewhere count as unread.
pub proof fn law_unread_only_for_other_channels(v: StateView, m: Message, now_ms: u64)
    requires
        bump_ok(v, m),
    ensures
        is_selected(v, m.channel_id.0) ==>
            count_of(message_create_spec(v, m, now_ms).unread, m.channel_id.0) == count_of(v.unread, m.channel_id.0),
        !is_selected(v, m.channel_id.0) ==>
            count_of(message_create_spec(v, m, now_ms).unread, m.channel_id.0) == count_of(v.unread, m.channel_id.0) + 1,
        !is_selected(v, m.channel_id.0) && mentions_me(v, m) ==>
            count_of(message_create_spec(v, m, now_ms).mentions, m.channel_id.0) == count_of(v.mentions, m.channel_id.0) + 1,
        !mentions_me(v, m) ==>
            count_of(message_create_spec(v, m, now_ms).mentions, m.channel_id.0) == count_of(v.mentions, m.channel_id.0),
        forall|c2: u64| c2 != m.channel_id.0 ==>
            #[trigger] count_of(message_create_spec(v, m, now_ms).unread, c2) == count_of(v.unread, c2)
                && count_of(message_create_spec(v, m, now_ms).mentions, c2) == count_of(v.mentions, c2),
{
}

/// Marking a channel read, or selecting it, zeroes its counters.
pub proof fn law_mark_read_clears(v: StateView, c: u64, s: Selection)
    ensures
        count_of(mark_read_spec(v, c).unread, c) == 0,
        count_of(mark_read_spec(v, c).mentions, c) == 0,
        forall|c2: u64| c2 != c ==> #[trigger] count_of(mark_read_spec(v, c).unread, c2) == count_of(v.unread, c2)
            && count_of(mark_read_spec(v, c).mentions, c2) == count_of(v.mentions, c2),
        s.channel_id matches Some(x) ==> count_of(select_spec(v, s).unread, x.0) == 0
            && count_of(select_spec(v, s).mentions, x.0) == 0,
{
}

/// After a user is touched, looking the id up gives that record back.
pub proof fn law_touch_then_lookup(us: Seq<UserEntry>, u: User, now_ms: u64)
    requires
        us.len() <= MAX_CACHED_USERS,
        user_ids_distinct(us),
    ensures
        lookup_user(touch_users(us, u, now_ms), u.id) == Some(u),
{
    lemma_touch_keeps_inv(us, u, now_ms);
    let r = touch_users(us, u, now_ms);
    let last = r.len() - 1;
    assert(r[last].user.id == u.id);
    let p = user_pos(r, u.id);
    if p != last {
        assert(r[p].user.id != r[last].user.id);
    }
}

/// A presence that was just set is what the cache reports.
pub proof fn law_presence_roundtrip(v: StateView, id: Snowflake, status: Seq<char>)
    ensures
        (StateView { presences: v.presences.insert(id.0, status), ..v }).presences[id.0] == status,
{
}

/// A fresh typing indicator shows its name inside the window and is gone
/// once `TYPING_WINDOW_MS` have passed.
pub proof fn law_typing_window(v: StateView, c: u64, uid: Snowflake, name: Seq<char>, t0: u64, now_ms: u64)
    requires
        !v.typing.contains_key(c),
        t0 <= now_ms,
    ensures
        now_ms - t0 < TYPING_WINDOW_MS ==>
            typing_names(typing_of(expire_typing_spec(set_typing_spec(v, c, uid, name, t0), c, now_ms), c)) == seq![name],
        now_ms - t0 >= TYPING_WINDOW_MS ==>
            typing_of(expire_typing_spec(set_typing_spec(v, c, uid, name, t0), c, now_ms), c).len() == 0,
{
    reveal_with_fuel(Seq::filter, 2);
    let e: Seq<TypingV> = seq![];
    assert(typing_of(v, c) == e);
    assert(e.filter(|t: TypingV| t.user_id != uid) =~= e);
    let one = seq![TypingV { user_id: uid, name, since_ms: t0 }];
    assert(e.push(TypingV { user_id: uid, name, since_ms: t0 }) =~= one);
    assert(one.drop_last() =~= e);
    if now_ms - t0 < TYPING_WINDOW_MS {
        assert(one.filter(|t: TypingV| is_live(t, now_ms)) =~= one);
        assert(typing_names(one) =~= seq![name]);
    } else {
        assert(one.filter(|t: TypingV| is_live(t, now_ms)) =~= e);
    }
}

pub proof fn lemma_removed_none(s: Seq<Reaction>, k: Seq<char>)
    requires
        forall|j: int| 0 <= j < s.len() ==> emoji_key(#[trigger] s[j].emoji) != k,
    ensures
        removed_reactions(s, k) == s,
    decreases s.len(),
{
    if s.len() > 0 {
        assert(emoji_key(s[s.len() - 1].emoji) != k);
        lemma_removed_none(s.drop_last(), k);
        assert(s.drop_last().push(s.last()) =~= s);
    }
}

pub proof fn lemma_removed_single(s: Seq<Reaction>, k: Seq<char>, i: int)
    requires
        0 <= i < s.len(),
        emoji_key(s[i].emoji) == k,
        s[i].count > 1,
        forall|j: int| 0 <= j < s.len() && j != i ==> emoji_key(#[trigger] s[j].emoji) != k,
    ensures
        removed_reactions(s, k) == s.update(i, Reaction { count: (s[i].count - 1) as u32, ..s[i] }),
    decreases s.len(),
{
    let t = s.drop_last();
    if i == s.len() - 1 {
        assert forall|j: int| 0 <= j < t.len() implies emoji_key(#[trigger] t[j].emoji) != k by {
            assert(t[j] == s[j]);
        }
        lemma_removed_none(t, k);
        assert(t.push(Reaction { count: (s[i].count - 1) as u32, ..s[i] }) =~= s.update(i, Reaction { count: (s[i].count - 1) as u32, ..s[i] }));
    } else {
        assert forall|j: int| 0 <= j < t.len() && j != i implies emoji_key(#[trigger] t[j].emoji) != k by {
            assert(t[j] == s[j]);
        }
        lemma_removed_single(t, k, i);
        assert(emoji_key(s[s.len() - 1].emoji) != k);
        assert(t.update(i, Reaction { count: (s[i].count - 1) as u32, ..s[i] }).push(s.last())
            =~= s.update(i, Reaction { count: (s[i].count - 1) as u32, ..s[i] }));
    }
}

/// Adding a reaction and then removing the same emoji restores the
/// message's reactions, when at most one reaction carries that emoji and
/// its count is positive and below `u32::MAX`.
pub proof fn law_reaction_add_remove_roundtrip(rs: Seq<Reaction>, e: ReactionEmoji)
    requires
        forall|i: int, j: int| 0 <= i < rs.len() && 0 <= j < rs.len()
            && emoji_key(#[trigger] rs[i].emoji) == emoji_key(e) && emoji_key(#[trigger] rs[j].emoji) == emoji_key(e) ==> i == j,
        first_reaction(rs, emoji_key(e)) matches Some(i) ==> 1 <= rs[i].count < u32::MAX,
    ensures
        removed_reactions(added_reactions(rs, e), emoji_key(e)) == rs,
{
    let k = emoji_key(e);
    match first_reaction(rs, k) {
        Some(i) => {
            let a = added_reactions(rs, e);
            assert forall|j: int| 0 <= j < a.len() && j != i implies emoji_key(#[trigger] a[j].emoji) != k by {
                assert(a[j] == rs[j]);
                if emoji_key(rs[j].emoji) == k {
                    assert(emoji_key(rs[i].emoji) == k);
                }
            }
            lemma_removed_single(a, k, i);
            assert(a.update(i, Reaction { count: (a[i].count - 1) as u32, ..a[i] }) =~= rs);
        }
        None => {
            let a = added_reactions(rs, e);
            assert forall|j: int| 0 <= j < rs.len() implies emoji_key(#[trigger] rs[j].emoji) != k by {
                if emoji_key(rs[j].emoji) == k {
                    lemma_first_match_exists(rs, k, j);
                }
            }
            lemma_removed_none(rs, k);
            assert(a.drop_last() =~= rs);
            assert(emoji_key(a.last().emoji) == k);
        }
    }
}

/// Some match implies a first match.
pub proof fn lemma_first_match_exists(rs: Seq<Reaction>, k: Seq<char>, j: int)
    requires
        0 <= j < rs.len(),
        emoji_key(rs[j].emoji) == k,
    ensures
        first_reaction(rs, k) is Some,
    decreases j,
{
    if exists|q: int| 0 <= q < j && emoji_key(#[trigger] rs[q].emoji) == k {
        let q = choose|q: int| 0 <= q < j && emoji_key(#[trigger] rs[q].emoji) == k;
        lemma_first_match_exists(rs, k, q);
    } else {
        assert(0 <= j < rs.len() && emoji_key(rs[j].emoji) == k
            && forall|q: int| 0 <= q < j ==> emoji_key(rs[q].emoji) != k);
    }
}

} // verus!
