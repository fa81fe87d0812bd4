//! Message send governor.
//!
//! The composer never fires REST calls directly: it queues one request per
//! Enter press and a single worker drains the queue, one POST per request,
//! never retried. Before each POST the worker asks the send lock:
//!   - a hard per-minute cap: extra sends are refused locally, never queued;
//!   - a hard stop after a Discord "blocked / captcha / verification"
//!     answer: every send is refused until the user explicitly unlocks it.
//!     Nothing but the user unlocks it.
use vstd::prelude::*;
use crate::rest::CreateMessageBody;
use crate::snowflake::Snowflake;
use crate::text::{chars_of, contains_seq, lower_chars, lower_seq, push_str, seq_contains};

verus! {

/// (channel id, message body, nonce string for the optimistic echo).
pub type SendRequest = (Snowflake, CreateMessageBody, String);

/// Local hard cap on outbound message POSTs per rolling minute.
pub const MAX_SENDS_PER_MINUTE: usize = 30;
/// The rolling window, in ms.
pub const SEND_WINDOW_MS: u64 = 60000;

/// Milliseconds from `t` to `now` (zero when the clock is behind `t`).
pub open spec fn since_ms(t: u64, now_ms: u64) -> int {
    if now_ms >= t { now_ms - t } else { 0 }
}

pub open spec fn in_window(t: u64, now_ms: u64) -> bool {
    since_ms(t, now_ms) < SEND_WINDOW_MS
}

pub open spec fn window_pred(now_ms: u64) -> spec_fn(u64) -> bool {
    |t: u64| in_window(t, now_ms)
}

/// The remembered sends that are less than a minute old at `now_ms`.
pub open spec fn live_sends(s: Seq<u64>, now_ms: u64) -> Seq<u64> {
    s.filter(window_pred(now_ms))
}

/// Whether a reservation at `now_ms` is granted.
pub open spec fn grants_at(s: Seq<u64>, now_ms: u64) -> bool {
    live_sends(s, now_ms).len() < MAX_SENDS_PER_MINUTE
}

/// The remembered sends after a reservation at `now_ms`.
pub open spec fn after_reserve(s: Seq<u64>, now_ms: u64) -> Seq<u64> {
    if grants_at(s, now_ms) { live_sends(s, now_ms).push(now_ms) } else { live_sends(s, now_ms) }
}

/// Sliding-window counter behind `MAX_SENDS_PER_MINUTE`.
pub struct SendGovernor {
    timestamps_ms: Vec<u64>,
}

impl SendGovernor {
    /// The send times still remembered, oldest first.
    pub closed spec fn sends(&self) -> Seq<u64> {
        self.timestamps_ms@
    }

    /// Never more than the cap is remembered.
    pub closed spec fn wf(&self) -> bool {
        self.timestamps_ms@.len() <= MAX_SENDS_PER_MINUTE
    }

    pub fn new() -> (g: Self)
        ensures
            g.wf(),
            g.sends() == Seq::<u64>::empty(),
    {
        SendGovernor { timestamps_ms: Vec::new() }
    }

    /// Reserves one send slot at `now_ms`: sends older than a minute are
    /// forgotten; the slot is granted (and recorded) only while fewer than
    /// `MAX_SENDS_PER_MINUTE` remain.
    pub fn reserve(&mut self, now_ms: u64) -> (r: Result<(), ()>)
        requires
            old(self).wf(),
        ensures
            final(self).wf(),
            r is Ok == grants_at(old(self).sends(), now_ms),
            final(self).sends() == after_reserve(old(self).sends(), now_ms),
    {
        let mut keep: Vec<bool> = Vec::new();
        for i in 0..self.timestamps_ms.len()
            invariant
                keep@.len() == i,
                forall|j: int| 0 <= j < i ==> keep@[j] == in_window(#[trigger] self.timestamps_ms@[j], now_ms),
        {
            let t = self.timestamps_ms[i];
            let since: u64 = if now_ms >= t { now_ms - t } else { 0 };
            keep.push(since < SEND_WINDOW_MS);
        }
        let mut ts: Vec<u64> = Vec::new();
        std::mem::swap(&mut ts, &mut self.timestamps_ms);
        proof {
            crate::seqs::lemma_flagged_filter_self(ts@, keep@, window_pred(now_ms));
            ts@.lemma_filter_len(window_pred(now_ms));
        }
        self.timestamps_ms = crate::seqs::keep_flagged(ts, &keep);
        if self.timestamps_ms.len() >= MAX_SENDS_PER_MINUTE {
            return Err(());
        }
        self.timestamps_ms.push(now_ms);
        Ok(())
    }
}

/// Reserves one outbound send slot; `false` = local cap reached, do not send.
pub fn reserve_send_slot(g: &mut SendGovernor, now_ms: u64) -> (r: bool)
    requires
        old(g).wf(),
    ensures
        final(g).wf(),
        r == grants_at(old(g).sends(), now_ms),
{
    g.reserve(now_ms).is_ok()
}

/// What a new governor remembers after a reservation at each of `times`.
pub open spec fn run_reserves(times: Seq<u64>) -> Seq<u64>
    decreases times.len(),
{
    if times.len() == 0 { seq![] } else { after_reserve(run_reserves(times.drop_last()), times.last()) }
}

/// The times, among `times`, at which a new governor granted the send.
pub open spec fn granted_times(times: Seq<u64>) -> Seq<u64>
    decreases times.len(),
{
    if times.len() == 0 {
        seq![]
    } else if grants_at(run_reserves(times.drop_last()), times.last()) {
        granted_times(times.drop_last()).push(times.last())
    } else {
        granted_times(times.drop_last())
    }
}

pub open spec fn non_decreasing(ts: Seq<u64>) -> bool {
    forall|i: int, j: int| 0 <= i <= j < ts.len() ==> ts[i] <= ts[j]
}

/// A send at `t` falls in the minute that ends at `end_ms`.
pub open spec fn minute_pred(end_ms: u64) -> spec_fn(u64) -> bool {
    |t: u64| t <= end_ms && end_ms - t < SEND_WINDOW_MS
}

proof fn lemma_filter_mono(s: Seq<u64>, p: spec_fn(u64) -> bool, q: spec_fn(u64) -> bool)
    requires
        forall|i: int| 0 <= i < s.len() && #[trigger] p(s[i]) ==> q(s[i]),
    ensures
        s.filter(p).len() <= s.filter(q).len(),
    decreases s.len(),
{
    reveal_with_fuel(Seq::filter, 1);
    if s.len() > 0 {
        lemma_filter_mono(s.drop_last(), p, q);
        assert(p(s[s.len() - 1]) ==> q(s[s.len() - 1]));
    }
}

proof fn lemma_filter_narrow(s: Seq<u64>, p: spec_fn(u64) -> bool, q: spec_fn(u64) -> bool)
    requires
        forall|i: int| 0 <= i < s.len() && #[trigger] q(s[i]) ==> p(s[i]),
    ensures
        s.filter(p).filter(q) == s.filter(q),
    decreases s.len(),
{
    reveal_with_fuel(Seq::filter, 1);
    if s.len() > 0 {
        lemma_filter_narrow(s.drop_last(), p, q);
        let x = s.last();
        assert(q(s[s.len() - 1]) ==> p(s[s.len() - 1]));
        if p(x) {
            assert(s.filter(p) == s.drop_last().filter(p).push(x));
            assert(s.filter(p).drop_last() =~= s.drop_last().filter(p));
        }
    } else {
        assert(s.filter(p) =~= s);
    }
}

/// What the governor remembers is the granted sends less than a minute old
/// at the latest reservation, and no grant is later than it.
proof fn lemma_run_is_recent_grants(times: Seq<u64>)
    requires
        times.len() > 0,
        non_decreasing(times),
    ensures
        run_reserves(times) == granted_times(times).filter(window_pred(times.last())),
        forall|k: int| 0 <= k < granted_times(times).len() ==> #[trigger] granted_times(times)[k] <= times.last(),
    decreases times.len(),
{
    reveal_with_fuel(Seq::filter, 1);
    let prev = times.drop_last();
    let now = times.last();
    let g0 = granted_times(prev);
    if prev.len() == 0 {
        assert(run_reserves(prev) =~= Seq::<u64>::empty());
        assert(live_sends(Seq::<u64>::empty(), now) =~= Seq::<u64>::empty());
        assert(g0 =~= Seq::<u64>::empty());
        assert(seq![now].drop_last() =~= Seq::<u64>::empty());
        assert(granted_times(times) =~= seq![now]);
        assert(window_pred(now)(now));
        assert(run_reserves(times) =~= seq![now]);
        assert(granted_times(times).filter(window_pred(now)) =~= seq![now]);
    } else {
        lemma_run_is_recent_grants(prev);
        let last = prev.last();
        assert(last <= now) by {
            assert(prev.last() == times[times.len() - 2]);
        }
        assert forall|i: int| 0 <= i < g0.len() && #[trigger] window_pred(now)(g0[i]) implies window_pred(last)(g0[i]) by {
            assert(g0[i] <= last);
        }
        lemma_filter_narrow(g0, window_pred(last), window_pred(now));
        assert(live_sends(run_reserves(prev), now) == g0.filter(window_pred(now)));
        if grants_at(run_reserves(prev), now) {
            let g = g0.push(now);
            assert(g.drop_last() =~= g0);
            assert(window_pred(now)(now));
            assert(g.filter(window_pred(now)) == g0.filter(window_pred(now)).push(now));
            assert forall|k: int| 0 <= k < g.len() implies #[trigger] g[k] <= now by {
                if k < g0.len() {
                    assert(g[k] == g0[k]);
                }
            }
        }
    }
}

/// A reservation is refused exactly when 30 earlier grants fall in the
/// minute before it: with a clock that never runs backwards, the send at
/// `now_ms` after reservations at `times` is granted if and only if fewer
/// than `MAX_SENDS_PER_MINUTE` of the granted times are less than a minute
/// old at `now_ms`.
pub proof fn law_refused_exactly_at_cap(times: Seq<u64>, now_ms: u64)
    requires
        non_decreasing(times.push(now_ms)),
    ensures
        grants_at(run_reserves(times), now_ms)
            <==> granted_times(times).filter(window_pred(now_ms)).len() < MAX_SENDS_PER_MINUTE,
{
    reveal_with_fuel(Seq::filter, 1);
    let all = times.push(now_ms);
    if times.len() == 0 {
        assert(run_reserves(times) =~= Seq::<u64>::empty());
        assert(granted_times(times) =~= Seq::<u64>::empty());
        assert(live_sends(Seq::<u64>::empty(), now_ms) =~= Seq::<u64>::empty());
    } else {
        assert(non_decreasing(times)) by {
            assert forall|i: int, j: int| 0 <= i <= j < times.len() implies times[i] <= times[j] by {
                assert(times[i] == all[i] && times[j] == all[j]);
            }
        }
        lemma_run_is_recent_grants(times);
        let last = times.last();
        let g = granted_times(times);
        assert(last <= now_ms) by {
            assert(all[times.len() - 1] == last && all[times.len() as int] == now_ms);
        }
        assert forall|i: int| 0 <= i < g.len() && #[trigger] window_pred(now_ms)(g[i]) implies window_pred(last)(g[i]) by {
            assert(g[i] <= last);
        }
        lemma_filter_narrow(g, window_pred(last), window_pred(now_ms));
    }
}

/// However reservations come, as long as the clock does not run backwards
/// no minute holds more granted sends than `MAX_SENDS_PER_MINUTE`.
pub proof fn law_sends_per_minute(times: Seq<u64>, end_ms: u64)
    requires
        non_decreasing(times),
    ensures
        granted_times(times).filter(minute_pred(end_ms)).len() <= MAX_SENDS_PER_MINUTE,
    decreases times.len(),
{
    reveal_with_fuel(Seq::filter, 1);
    if times.len() > 0 {
        let prev = times.drop_last();
        let now = times.last();
        let g0 = granted_times(prev);
        assert(non_decreasing(prev)) by {
            assert forall|i: int, j: int| 0 <= i <= j < prev.len() implies prev[i] <= prev[j] by {
                assert(prev[i] == times[i] && prev[j] == times[j]);
            }
        }
        law_sends_per_minute(prev, end_ms);
        if grants_at(run_reserves(prev), now) {
            let g = g0.push(now);
            assert(g.drop_last() =~= g0);
            if minute_pred(end_ms)(now) {
                assert(g.filter(minute_pred(end_ms)) == g0.filter(minute_pred(end_ms)).push(now));
                if prev.len() > 0 {
                    lemma_run_is_recent_grants(prev);
                    let last = prev.last();
                    assert(last <= now) by {
                        assert(prev.last() == times[times.len() - 2]);
                    }
                    assert forall|i: int| 0 <= i < g0.len() && #[trigger] minute_pred(end_ms)(g0[i]) implies window_pred(now)(g0[i]) by {
                        assert(g0[i] <= last);
                    }
                    lemma_filter_mono(g0, minute_pred(end_ms), window_pred(now));
                    assert forall|i: int| 0 <= i < g0.len() && #[trigger] window_pred(now)(g0[i]) implies window_pred(last)(g0[i]) by {
                        assert(g0[i] <= last);
                    }
                    lemma_filter_narrow(g0, window_pred(last), window_pred(now));
                } else {
                    assert(g0 =~= Seq::<u64>::empty());
                    assert(g0.filter(minute_pred(end_ms)) =~= Seq::<u64>::empty());
                }
            } else {
                assert(g.filter(minute_pred(end_ms)) == g0.filter(minute_pred(end_ms)));
            }
        }
    }
}

/// The Discord error markers that mean "sending is blocked".
pub open spec fn block_marker(low: Seq<char>) -> bool {
    contains_seq(low, "captcha"@)
        || contains_seq(low, "you need to verify"@)
        || contains_seq(low, "account_verification_required"@)
        || contains_seq(low, "message sending is temporarily blocked"@)
        || contains_seq(low, "blocked from sending"@)
        || contains_seq(low, "spam"@)
}

pub open spec fn is_block_spec(status: u16, body: Seq<char>) -> bool {
    status == 403 || block_marker(lower_seq(body))
}

/// A Discord answer is a block when its status is 403 or its body holds,
/// in any letter case, one of the block phrases; then sending locks.
pub proof fn law_block_phrases_lock(status: u16, body: Seq<char>)
    ensures
        status == 403 ==> is_block_spec(status, body),
        contains_seq(lower_seq(body), "captcha"@) ==> is_block_spec(status, body),
        contains_seq(lower_seq(body), "you need to verify"@) ==> is_block_spec(status, body),
        contains_seq(lower_seq(body), "account_verification_required"@) ==> is_block_spec(status, body),
        contains_seq(lower_seq(body), "message sending is temporarily blocked"@) ==> is_block_spec(status, body),
        contains_seq(lower_seq(body), "blocked from sending"@) ==> is_block_spec(status, body),
        contains_seq(lower_seq(body), "spam"@) ==> is_block_spec(status, body),
{
}

/// Does a Discord error response mean "sending is blocked" (captcha,
/// verification, spam guard, account-level block)?
pub fn is_block_response(status: u16, body: &str) -> (r: bool)
    ensures
        r == is_block_spec(status, body@),
{
    if status == 403 {
        return true;
    }
    let cs = chars_of(body);
    let low = lower_chars(cs.as_slice());
    let l = low.as_slice();
    seq_contains(l, chars_of("captcha").as_slice())
        || seq_contains(l, chars_of("you need to verify").as_slice())
        || seq_contains(l, chars_of("account_verification_required").as_slice())
        || seq_contains(l, chars_of("message sending is temporarily blocked").as_slice())
        || seq_contains(l, chars_of("blocked from sending").as_slice())
        || seq_contains(l, chars_of("spam").as_slice())
}

/// How a POST failed, as far as the worker tells failures apart.
#[derive(Debug)]
pub enum SendFailure {
    /// Discord answered 429.
    RateLimited,
    /// Discord answered another error status; `status_text` is how the
    /// status prints ("400 Bad Request").
    Discord { status: u16, status_text: String, body: String },
    /// Network, decoding or building failure, as it prints.
    Other(String),
}

/// The verdict on the next queued send.
#[derive(Debug, PartialEq, Eq)]
pub enum Admission {
    /// POST it.
    Post,
    /// Refuse it with this message for the user.
    Refuse(String),
}

/// The worker's decisions: the block lock and the rate cap.
pub struct SendControl {
    lock_reason: Option<String>,
    governor: SendGovernor,
}

pub const BLOCK_REASON: &'static str = "Discord blocked message sending (verification, captcha or spam guard)";

pub open spec fn paused_message(reason: Seq<char>) -> Seq<char> {
    "Sending is paused: "@ + reason + ". Tap Retry after resolving it in Discord."@
}

pub open spec fn cap_message() -> Seq<char> {
    "Local rate cap reached (30 messages per minute). Nothing was sent; try again shortly."@
}

/// The message a failed POST shows, and whether it locks sending.
pub open spec fn failure_spec(f: SendFailure) -> (Seq<char>, bool) {
    match f {
        SendFailure::RateLimited => ("Rate limited by Discord. Please wait a moment and press Enter again."@, false),
        SendFailure::Discord { status, status_text, body } => {
            if is_block_spec(status, body@) {
                ("Discord blocked sending. Basalt stopped all sends for your safety."@, true)
            } else {
                ("Discord rejected the message (HTTP "@ + status_text@ + "): "@ + body@, false)
            }
        }
        SendFailure::Other(d) => ("Could not deliver the message ("@ + d@ + ")."@, false),
    }
}

impl SendControl {
    pub closed spec fn locked(&self) -> Option<Seq<char>> {
        match self.lock_reason {
            Some(r) => Some(r@),
            None => None,
        }
    }

    pub closed spec fn governor(&self) -> SendGovernor {
        self.governor
    }

    pub closed spec fn wf(&self) -> bool {
        self.governor.wf()
    }

    pub fn new() -> (g: Self)
        ensures
            g.wf(),
            g.locked() is None,
            g.governor().sends() == Seq::<u64>::empty(),
    {
        SendControl { lock_reason: None, governor: SendGovernor::new() }
    }

    /// Decides on the next queued send at `now_ms`: a lock refuses it
    /// (without spending a slot); otherwise the rate cap decides.
    pub fn check_next(&mut self, now_ms: u64) -> (a: Admission)
        requires
            old(self).wf(),
        ensures
            final(self).wf(),
            final(self).locked() == old(self).locked(),
            old(self).locked() matches Some(reason) ==> (a matches Admission::Refuse(m) && m@ == paused_message(reason))
                && final(self).governor() == old(self).governor(),
            old(self).locked() is None ==> {
                let live = old(self).governor().sends().filter(|t: u64| in_window(t, now_ms));
                &&& live.len() < MAX_SENDS_PER_MINUTE ==> a == Admission::Post
                &&& live.len() >= MAX_SENDS_PER_MINUTE ==> (a matches Admission::Refuse(m) && m@ == cap_message())
            },
    {
        if let Some(reason) = &self.lock_reason {
            let mut m = String::new();
            push_str(&mut m, "Sending is paused: ");
            push_str(&mut m, reason.as_str());
            push_str(&mut m, ". Tap Retry after resolving it in Discord.");
            return Admission::Refuse(m);
        }
        if self.governor.reserve(now_ms).is_ok() {
            Admission::Post
        } else {
            proof { reveal_strlit("Local rate cap reached (30 messages per minute). Nothing was sent; try again shortly."); }
            Admission::Refuse("Local rate cap reached (30 messages per minute). Nothing was sent; try again shortly.".to_string())
        }
    }

    /// Records a failed POST: returns the message for the user, and locks
    /// sending when Discord said sending is blocked.
    pub fn on_failure(&mut self, f: SendFailure) -> (m: String)
        requires
            old(self).wf(),
        ensures
            final(self).wf(),
            m@ == failure_spec(f).0,
            failure_spec(f).1 ==> final(self).locked() == Some(BLOCK_REASON@),
            !failure_spec(f).1 ==> final(self).locked() == old(self).locked(),
            final(self).governor() == old(self).governor(),
    {
        match f {
            SendFailure::RateLimited => "Rate limited by Discord. Please wait a moment and press Enter again.".to_string(),
            SendFailure::Discord { status, status_text, body } => {
                if is_block_response(status, body.as_str()) {
                    self.lock_reason = Some(BLOCK_REASON.to_string());
                    "Discord blocked sending. Basalt stopped all sends for your safety.".to_string()
                } else {
                    let mut m = String::new();
                    push_str(&mut m, "Discord rejected the message (HTTP ");
                    push_str(&mut m, status_text.as_str());
                    push_str(&mut m, "): ");
                    push_str(&mut m, body.as_str());
                    m
                }
            }
            SendFailure::Other(d) => {
                let mut m = String::new();
                push_str(&mut m, "Could not deliver the message (");
                push_str(&mut m, d.as_str());
                push_str(&mut m, ").");
                m
            }
        }
    }

    /// The user's Retry: reopens sending.
    pub fn clear_lock(&mut self)
        requires
            old(self).wf(),
        ensures
            final(self).wf(),
            final(self).locked() is None,
            final(self).governor() == old(self).governor(),
    {
        self.lock_reason = None;
    }

    pub fn lock_reason(&self) -> (r: Option<String>)
        ensures
            r matches Some(s) ==> self.locked() == Some(s@),
            r is None <==> self.locked() is None,
    {
        match &self.lock_reason {
            Some(s) => Some(s.clone()),
            None => None,
        }
    }
}

} // verus!
