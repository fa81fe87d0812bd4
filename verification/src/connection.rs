//! Gateway connection lifecycle decisions.
//!
//! The app runs the websocket, the timers and the sleeps; this module
//! decides: how a close code ends a connection, what an inbound frame
//! asks for, what a heartbeat tick does, whether to IDENTIFY or RESUME,
//! and what the supervisor does after a connection ends (reconnect
//! backoff, the one-shot retry with baseline intents, halting).
use vstd::prelude::*;
use crate::opcodes::{next_backoff, next_backoff_spec, BASE_BACKOFF_MS, BASELINE_INTENTS, FULL_INTENTS, MAX_BACKOFF_MS};
use crate::snowflake::Snowflake;
use crate::events::Event;
use crate::state::{dispatch_fetch, dispatch_ok, dispatched, AppState, ConnectionStatus, StateView};

verus! {

/// What the UI / app sends to the gateway task.
#[derive(Debug)]
pub enum Outbound {
    /// Open the connection with this token; `bot` selects the bot IDENTIFY.
    Connect { token: String, bot: bool },
    /// Send a presence update (any time after READY).
    SetPresence { status: String, afk: bool },
    /// Soft-shutdown the gateway task.
    Shutdown,
}

#[derive(Debug, Clone, Copy, PartialEq, Eq, Structural)]
pub enum ConnOutcome {
    CleanShutdown,
    ReconnectFresh,
    ReconnectResume,
}

/// How one connection attempt ended.
#[derive(Debug, Clone, Copy, PartialEq, Eq, Structural)]
pub enum LoopEnd {
    Outcome(ConnOutcome),
    /// Close code 4004: the token is bad.
    AuthFailed,
    /// Close code 4014: privileged intents not granted.
    DisallowedIntent,
    /// Any other failure (I/O, protocol).
    Failed,
}

pub open spec fn close_end_spec(code: u16) -> LoopEnd {
    if code == 4004 {
        LoopEnd::AuthFailed
    } else if code == 4014 {
        LoopEnd::DisallowedIntent
    } else if code == 4009 {
        LoopEnd::Outcome(ConnOutcome::ReconnectFresh)
    } else if 4000 <= code < 5000 {
        LoopEnd::Outcome(ConnOutcome::ReconnectResume)
    } else {
        LoopEnd::Outcome(ConnOutcome::ReconnectFresh)
    }
}

/// A server close frame: 4004 and 4014 are fatal errors, 4009 (session
/// timed out) identifies afresh, other 4xxx codes resume, anything else
/// (a plain 1000 after an invalid session) identifies afresh.
pub fn close_code_end(code: u16) -> (r: LoopEnd)
    ensures
        r == close_end_spec(code),
{
    if code == 4004 {
        LoopEnd::AuthFailed
    } else if code == 4014 {
        LoopEnd::DisallowedIntent
    } else if code == 4009 {
        LoopEnd::Outcome(ConnOutcome::ReconnectFresh)
    } else if 4000 <= code && code < 5000 {
        LoopEnd::Outcome(ConnOutcome::ReconnectResume)
    } else {
        LoopEnd::Outcome(ConnOutcome::ReconnectFresh)
    }
}

/// What a decoded gateway frame asks for.
#[derive(Debug, Clone, Copy, PartialEq, Eq, Structural)]
pub enum FrameAction {
    /// op 0: record the sequence number and dispatch the event.
    Dispatch,
    /// op 11: the last heartbeat was acknowledged.
    HeartbeatAck,
    /// op 1: the server wants a heartbeat now.
    HeartbeatNow,
    /// op 7, or op 9 with `d = true`: close and RESUME.
    ReconnectResume,
    /// op 9 with `d = false`: forget the session, close and IDENTIFY.
    ReconnectFresh,
    /// Ops this client does not act on, or a frame without `op`.
    Ignore,
}

pub open spec fn frame_action_spec(op: Option<u64>, resumable: Option<bool>) -> FrameAction {
    match op {
        Some(0) => FrameAction::Dispatch,
        Some(11) => FrameAction::HeartbeatAck,
        Some(1) => FrameAction::HeartbeatNow,
        Some(7) => FrameAction::ReconnectResume,
        Some(9) => if resumable == Some(true) { FrameAction::ReconnectResume } else { FrameAction::ReconnectFresh },
        _ => FrameAction::Ignore,
    }
}

/// Classifies a frame by its `op` and, for op 9, its boolean `d`.
pub fn frame_action(op: Option<u64>, resumable: Option<bool>) -> (r: FrameAction)
    ensures
        r == frame_action_spec(op, resumable),
{
    match op {
        Some(0) => FrameAction::Dispatch,
        Some(11) => FrameAction::HeartbeatAck,
        Some(1) => FrameAction::HeartbeatNow,
        Some(7) => FrameAction::ReconnectResume,
        Some(9) => match resumable {
            Some(true) => FrameAction::ReconnectResume,
            _ => FrameAction::ReconnectFresh,
        },
        _ => FrameAction::Ignore,
    }
}

/// The `d` of a heartbeat: the last sequence number, or 0 before any.
pub fn heartbeat_seq(last_seq: Option<Snowflake>) -> (r: u64)
    ensures
        r == (match last_seq { Some(n) => n.0, None => 0 }),
{
    match last_seq {
        Some(n) => n.0,
        None => 0,
    }
}

/// What a heartbeat tick does.
#[derive(Debug, Clone, Copy, PartialEq, Eq, Structural)]
pub enum TickAction {
    /// The previous heartbeat was never acknowledged: close and RESUME.
    ReconnectResume,
    /// Send a heartbeat carrying this sequence number.
    Send(u64),
}

pub fn heartbeat_tick(acked: bool, last_seq: Option<Snowflake>) -> (r: TickAction)
    ensures
        !acked ==> r == TickAction::ReconnectResume,
        acked ==> r == TickAction::Send(match last_seq { Some(n) => n.0, None => 0 }),
{
    if !acked {
        TickAction::ReconnectResume
    } else {
        TickAction::Send(heartbeat_seq(last_seq))
    }
}

/// Heartbeat period: HELLO's interval, but never under 500 ms.
pub fn heartbeat_period_ms(interval_ms: u64) -> (r: u64)
    ensures
        r == (if interval_ms >= 500 { interval_ms } else { 500 }),
{
    if interval_ms >= 500 { interval_ms } else { 500 }
}

#[derive(Debug, Clone, Copy, PartialEq, Eq, Structural)]
pub enum Handshake {
    Resume,
    Identify,
}

/// RESUME needs both a session and a sequence number; otherwise IDENTIFY.
pub fn handshake_kind(has_session: bool, last_seq: Option<Snowflake>) -> (r: Handshake)
    ensures
        r == (if has_session && last_seq is Some { Handshake::Resume } else { Handshake::Identify }),
{
    if has_session && last_seq.is_some() { Handshake::Resume } else { Handshake::Identify }
}

/// What the supervisor does with a command while disconnected.
#[derive(Debug, Clone, Copy, PartialEq, Eq, Structural)]
pub enum CommandEffect {
    /// Nothing to do (empty token, or a presence update before connecting).
    Ignored,
    /// Connect with the new token; the intent attempt was reset (the app
    /// clears the "limited intents" flag).
    Connect,
    /// Stop the gateway task.
    Stop,
}

/// What the supervisor asks after a connection ended.
#[derive(Debug, Clone, Copy, PartialEq, Eq, Structural)]
pub struct EndEffect {
    pub clear_session: bool,
    /// Sleep this long (the app adds jitter) before reconnecting.
    pub sleep_ms: Option<u64>,
    /// Connection status to publish.
    pub status: Option<ConnectionStatus>,
    /// New value of the "limited intents" flag.
    pub intents_limited: Option<bool>,
    /// Halt the gateway task.
    pub stop: bool,
}

/// The reconnect supervisor's state.
pub struct Supervisor {
    pub token: Option<String>,
    pub is_bot: bool,
    pub backoff_ms: u64,
    pub intent_set: u32,
}

pub open spec fn supervisor_inv(s: Supervisor) -> bool {
    BASE_BACKOFF_MS <= s.backoff_ms <= MAX_BACKOFF_MS
        && (s.intent_set == FULL_INTENTS || s.intent_set == BASELINE_INTENTS)
}

pub open spec fn no_effect() -> EndEffect {
    EndEffect { clear_session: false, sleep_ms: None, status: None, intents_limited: None, stop: false }
}

/// The supervisor's reaction to a connection that ended with `end` after
/// living `lived_ms`: the effect, the next backoff and the next intent set.
pub open spec fn on_end_spec(backoff: u64, intents: u32, end: LoopEnd, lived_ms: u64) -> (EndEffect, u64, u32) {
    match end {
        LoopEnd::Outcome(ConnOutcome::CleanShutdown) => (EndEffect { stop: true, ..no_effect() }, backoff, intents),
        LoopEnd::Outcome(ConnOutcome::ReconnectFresh) => {
            let b = next_backoff_spec(backoff, lived_ms);
            (EndEffect { clear_session: true, sleep_ms: Some(b), ..no_effect() }, b, intents)
        }
        LoopEnd::Outcome(ConnOutcome::ReconnectResume) => {
            let b = next_backoff_spec(backoff, lived_ms);
            (EndEffect { sleep_ms: if b > BASE_BACKOFF_MS { Some(b) } else { None }, ..no_effect() }, b, intents)
        }
        LoopEnd::AuthFailed => (EndEffect { status: Some(ConnectionStatus::AuthFailed), stop: true, ..no_effect() }, backoff, intents),
        LoopEnd::DisallowedIntent => {
            if intents == FULL_INTENTS {
                (EndEffect { clear_session: true, intents_limited: Some(true), ..no_effect() }, backoff, BASELINE_INTENTS)
            } else {
                (EndEffect { status: Some(ConnectionStatus::DisallowedIntent), stop: true, ..no_effect() }, backoff, intents)
            }
        }
        LoopEnd::Failed => {
            let b = next_backoff_spec(backoff, lived_ms);
            (EndEffect { sleep_ms: Some(b), ..no_effect() }, b, intents)
        }
    }
}

impl Supervisor {
    pub fn new() -> (s: Self)
        ensures
            supervisor_inv(s),
            s.token is None,
            s.backoff_ms == BASE_BACKOFF_MS,
            s.intent_set == FULL_INTENTS,
    {
        Supervisor { token: None, is_bot: false, backoff_ms: BASE_BACKOFF_MS, intent_set: FULL_INTENTS }
    }

    /// A command received while no connection runs.
    pub fn on_command(&mut self, cmd: Outbound) -> (e: CommandEffect)
        requires
            supervisor_inv(*old(self)),
        ensures
            supervisor_inv(*final(self)),
            final(self).backoff_ms == old(self).backoff_ms,
            match cmd {
                Outbound::Connect { token, bot } => if token@.len() == 0 {
                    e == CommandEffect::Ignored && *final(self) == *old(self)
                } else {
                    e == CommandEffect::Connect && final(self).token == Some(token)
                        && final(self).is_bot == bot && final(self).intent_set == FULL_INTENTS
                },
                Outbound::SetPresence { .. } => e == CommandEffect::Ignored && *final(self) == *old(self),
                Outbound::Shutdown => e == CommandEffect::Stop && *final(self) == *old(self),
            },
    {
        match cmd {
            Outbound::Connect { token, bot } => {
                if token.as_str().is_empty() {
                    return CommandEffect::Ignored;
                }
                self.token = Some(token);
                self.is_bot = bot;
                self.intent_set = FULL_INTENTS;
                CommandEffect::Connect
            }
            Outbound::SetPresence { .. } => CommandEffect::Ignored,
            Outbound::Shutdown => CommandEffect::Stop,
        }
    }

    /// A connection ended with `end` after living `lived_ms`.
    pub fn on_end(&mut self, end: LoopEnd, lived_ms: u64) -> (e: EndEffect)
        requires
            supervisor_inv(*old(self)),
        ensures
            supervisor_inv(*final(self)),
            (e, final(self).backoff_ms, final(self).intent_set) == on_end_spec(old(self).backoff_ms, old(self).intent_set, end, lived_ms),
            final(self).token == old(self).token,
            final(self).is_bot == old(self).is_bot,
    {
        let none = EndEffect { clear_session: false, sleep_ms: None, status: None, intents_limited: None, stop: false };
        match end {
            LoopEnd::Outcome(ConnOutcome::CleanShutdown) => EndEffect { stop: true, ..none },
            LoopEnd::Outcome(ConnOutcome::ReconnectFresh) => {
                self.backoff_ms = next_backoff(self.backoff_ms, lived_ms);
                EndEffect { clear_session: true, sleep_ms: Some(self.backoff_ms), ..none }
            }
            LoopEnd::Outcome(ConnOutcome::ReconnectResume) => {
                self.backoff_ms = next_backoff(self.backoff_ms, lived_ms);
                // Resuming right after a drop is expected; only churn waits.
                let sleep = if self.backoff_ms > BASE_BACKOFF_MS { Some(self.backoff_ms) } else { None };
                EndEffect { sleep_ms: sleep, ..none }
            }
            LoopEnd::AuthFailed => EndEffect { status: Some(ConnectionStatus::AuthFailed), stop: true, ..none },
            LoopEnd::DisallowedIntent => {
                if self.intent_set == FULL_INTENTS {
                    // One retry with the baseline set; the backoff ladder is untouched.
                    self.intent_set = BASELINE_INTENTS;
                    EndEffect { clear_session: true, intents_limited: Some(true), ..none }
                } else {
                    EndEffect { status: Some(ConnectionStatus::DisallowedIntent), stop: true, ..none }
                }
            }
            LoopEnd::Failed => {
                self.backoff_ms = next_backoff(self.backoff_ms, lived_ms);
                EndEffect { sleep_ms: Some(self.backoff_ms), ..none }
            }
        }
    }
}

/// A 4014 close first drops to the baseline intents (the app keeps
/// working without presence data); a second one halts.
pub proof fn law_disallowed_intent_retries_once(backoff: u64, lived_ms: u64)
    ensures
        ({
            let (e1, b1, i1) = on_end_spec(backoff, FULL_INTENTS, LoopEnd::DisallowedIntent, lived_ms);
            let (e2, b2, i2) = on_end_spec(b1, i1, LoopEnd::DisallowedIntent, lived_ms);
            &&& !e1.stop && i1 == BASELINE_INTENTS && e1.intents_limited == Some(true)
            &&& e2.stop && e2.status == Some(ConnectionStatus::DisallowedIntent)
        }),
{
}

/// A bad token halts the supervisor at once; every other ending keeps the
/// backoff within its bounds.
pub proof fn law_backoff_bounded_and_auth_halts(backoff: u64, intents: u32, end: LoopEnd, lived_ms: u64)
    requires
        BASE_BACKOFF_MS <= backoff <= MAX_BACKOFF_MS,
    ensures
        BASE_BACKOFF_MS <= on_end_spec(backoff, intents, end, lived_ms).1 <= MAX_BACKOFF_MS,
        end == LoopEnd::AuthFailed ==> on_end_spec(backoff, intents, end, lived_ms).0.stop,
        on_end_spec(backoff, intents, end, lived_ms).0.sleep_ms matches Some(ms) ==> ms <= MAX_BACKOFF_MS,
{
    crate::opcodes::lemma_backoff_bounded(backoff, lived_ms);
}


/// What the connection loop does after a frame has been applied.
#[derive(Debug, Clone, Copy, PartialEq, Eq, Structural)]
pub enum Flow {
    Continue,
    ReconnectFresh,
    ReconnectResume,
}

/// The outcome of one decoded frame: how the loop goes on, the heartbeat
/// to send right away (op 1), and the DM channel to fetch over REST.
#[derive(Debug, Clone, Copy, PartialEq, Eq, Structural)]
pub struct FrameStep {
    pub flow: Flow,
    pub heartbeat: Option<u64>,
    pub fetch: Option<Snowflake>,
}

/// `w` and `step` are what a frame with this `op`, sequence, op 9 flag and
/// (for op 0) parsed event makes of state `v`.
pub open spec fn frame_applied(
    v: StateView, w: StateView, step: FrameStep,
    op: Option<u64>, seq: Option<u64>, resumable: Option<bool>, event: Option<Event>, now_ms: u64,
) -> bool {
    match frame_action_spec(op, resumable) {
        FrameAction::Dispatch => {
            let v1 = StateView { last_seq: Some(Snowflake(match seq { Some(n) => n, None => 0 })), ..v };
            &&& step.flow == Flow::Continue
            &&& step.heartbeat is None
            &&& match event {
                Some(e) => dispatched(v1, w, e, now_ms) && step.fetch == dispatch_fetch(v1, e),
                None => w == v1 && step.fetch is None,
            }
        },
        FrameAction::HeartbeatAck => w == (StateView { heartbeat_ack: true, ..v })
            && step == (FrameStep { flow: Flow::Continue, heartbeat: None, fetch: None }),
        FrameAction::HeartbeatNow => w == v
            && step == (FrameStep { flow: Flow::Continue, heartbeat: Some(match v.last_seq { Some(n) => n.0, None => 0 }), fetch: None }),
        FrameAction::ReconnectResume => w == v
            && step == (FrameStep { flow: Flow::ReconnectResume, heartbeat: None, fetch: None }),
        FrameAction::ReconnectFresh => w == (StateView { session: None, last_seq: None, ..v })
            && step == (FrameStep { flow: Flow::ReconnectFresh, heartbeat: None, fetch: None }),
        FrameAction::Ignore => w == v
            && step == (FrameStep { flow: Flow::Continue, heartbeat: None, fetch: None }),
    }
}

/// Applies one decoded gateway frame to the cache: op 0 records the
/// sequence number (0 when absent) and dispatches the event, op 11 marks
/// the heartbeat acknowledged, op 1 asks for a heartbeat now, op 7 and a
/// resumable op 9 reconnect with RESUME, a non-resumable op 9 forgets the
/// session and reconnects fresh; anything else is ignored.
pub fn handle_decoded(
    state: &mut AppState, op: Option<u64>, seq: Option<u64>, resumable: Option<bool>, event: Option<Event>, now_ms: u64,
) -> (step: FrameStep)
    requires
        old(state).wf(),
        event matches Some(e) ==> dispatch_ok(old(state)@, e),
    ensures
        final(state).wf(),
        frame_applied(old(state)@, final(state)@, step, op, seq, resumable, event, now_ms),
{
    let none = FrameStep { flow: Flow::Continue, heartbeat: None, fetch: None };
    match frame_action(op, resumable) {
        FrameAction::Dispatch => {
            let n = match seq {
                Some(n) => n,
                None => 0,
            };
            state.set_last_seq(Snowflake(n));
            match event {
                Some(e) => {
                    let fetch = state.dispatch_event(e, now_ms);
                    FrameStep { flow: Flow::Continue, heartbeat: None, fetch }
                }
                None => none,
            }
        }
        FrameAction::HeartbeatAck => {
            state.mark_heartbeat_ack();
            none
        }
        FrameAction::HeartbeatNow => FrameStep { flow: Flow::Continue, heartbeat: Some(heartbeat_seq(state.last_seq())), fetch: None },
        FrameAction::ReconnectResume => FrameStep { flow: Flow::ReconnectResume, heartbeat: None, fetch: None },
        FrameAction::ReconnectFresh => {
            state.clear_session();
            FrameStep { flow: Flow::ReconnectFresh, heartbeat: None, fetch: None }
        }
        FrameAction::Ignore => none,
    }
}

/// A heartbeat the gateway asks for carries the sequence number of the
/// dispatch frame before it: whatever event that frame held, the cache
/// remembers its sequence number, and op 1 answers with it.
pub proof fn law_heartbeat_echoes_last_seq(
    v: StateView, w: StateView, w2: StateView, s1: FrameStep, s2: FrameStep,
    n: u64, r1: Option<bool>, r2: Option<bool>, seq2: Option<u64>, event: Option<Event>, t1: u64, t2: u64,
)
    requires
        frame_applied(v, w, s1, Some(0), Some(n), r1, event, t1),
        frame_applied(w, w2, s2, Some(1), seq2, r2, None, t2),
    ensures
        w.last_seq == Some(Snowflake(n)),
        s2.heartbeat == Some(n),
{
    if let Some(e) = event {
        let v1 = StateView { last_seq: Some(Snowflake(n)), ..v };
        crate::state::lemma_dispatch_keeps_seq(v1, w, e, t1);
    }
}

/// The fields of a gateway frame the connection reads: `op`, `s`, the
/// `d` of an op 9 (whether the session can be resumed) and the HELLO's
/// `d.heartbeat_interval`.
#[derive(Debug, Clone, Copy, PartialEq, Eq, Structural)]
pub struct FrameHead {
    pub op: Option<u64>,
    pub seq: Option<u64>,
    pub resumable: Option<bool>,
    pub interval: Option<u64>,
}

/// What `serde_json::from_slice::<Value>` reads from a frame's bytes:
/// `None` when they are not JSON; otherwise `op` and `s` as unsigned
/// integers, `d` as a boolean and `d.heartbeat_interval` as an unsigned
/// integer, each `None` when absent or of another type.
pub uninterp spec fn json_frame_head(bytes: Seq<u8>) -> Option<FrameHead>;

/// `serde_json::from_slice::<Value>(bytes)`, read with `Value`'s indexing
/// and `as_u64` / `as_bool`. Claimed: the result is `json_frame_head` of
/// the bytes.
#[verifier::external_body]
fn frame_head(bytes: &[u8]) -> (r: Option<FrameHead>)
    ensures
        r == json_frame_head(bytes@),
{
    match serde_json::from_slice::<serde_json::Value>(bytes) {
        Ok(v) => Some(FrameHead {
            op: v["op"].as_u64(),
            seq: v["s"].as_u64(),
            resumable: v["d"].as_bool(),
            interval: v["d"]["heartbeat_interval"].as_u64(),
        }),
        Err(_) => None,
    }
}

/// Applies one decoded gateway frame, given as its bytes: a frame that is
/// not JSON is skipped with nothing changed; otherwise its `op`, `s` and
/// op 9 flag are handled as `handle_decoded` does. `event` is the
/// dispatch the app parsed from the frame's `t` and `d`.
pub fn handle_frame(state: &mut AppState, bytes: &[u8], event: Option<Event>, now_ms: u64) -> (step: FrameStep)
    requires
        old(state).wf(),
        event matches Some(e) ==> dispatch_ok(old(state)@, e),
    ensures
        final(state).wf(),
        json_frame_head(bytes@) is None ==> step == (FrameStep { flow: Flow::Continue, heartbeat: None, fetch: None })
            && final(state)@ == old(state)@,
        json_frame_head(bytes@) matches Some(h) ==> frame_applied(
            old(state)@, final(state)@, step, h.op, h.seq, h.resumable, event, now_ms,
        ),
{
    match frame_head(bytes) {
        None => FrameStep { flow: Flow::Continue, heartbeat: None, fetch: None },
        Some(h) => handle_decoded(state, h.op, h.seq, h.resumable, event, now_ms),
    }
}

/// Why the first frame was not a usable HELLO.
#[derive(Debug, Clone, Copy, PartialEq, Eq, Structural)]
pub enum HelloError {
    /// The frame is not JSON.
    NotJson,
    /// The frame's op is not 10.
    NotHello { op: Option<u64> },
    /// The HELLO has no `d.heartbeat_interval`.
    NoInterval,
}

/// The heartbeat interval of the HELLO frame, in ms.
pub fn read_hello(bytes: &[u8]) -> (r: Result<u64, HelloError>)
    ensures
        match json_frame_head(bytes@) {
            None => r == Err::<u64, HelloError>(HelloError::NotJson),
            Some(h) => if h.op != Some(10u64) {
                r == Err::<u64, HelloError>(HelloError::NotHello { op: h.op })
            } else {
                match h.interval {
                    Some(ms) => r == Ok::<u64, HelloError>(ms),
                    None => r == Err::<u64, HelloError>(HelloError::NoInterval),
                }
            },
        },
{
    match frame_head(bytes) {
        None => Err(HelloError::NotJson),
        Some(h) => {
            let is_hello = match h.op {
                Some(n) => n == 10,
                None => false,
            };
            if !is_hello {
                Err(HelloError::NotHello { op: h.op })
            } else {
                match h.interval {
                    Some(ms) => Ok(ms),
                    None => Err(HelloError::NoInterval),
                }
            }
        }
    }
}

} // verus!
