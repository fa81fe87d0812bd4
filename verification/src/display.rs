//! Text the UI shows and the small state machines behind it: connection
//! labels, toasts, mention notifications, profile badges and dates.
use vstd::prelude::*;
use vstd::string::StringSliceAdditionalSpecFns;
use crate::model::{Guild, Member, Rgb, Role};
use crate::state::{first_guild, AppState, ConnectionStatus};
use crate::snowflake::Snowflake;
use crate::text::{str_eq, all_digits, chars_of, dec, digits_value, parse_u64_chars, parse_u64_spec, push_dec, push_str, string_of, sub_chars};

verus! {

pub open spec fn connection_label_spec(s: ConnectionStatus) -> Seq<char> {
    match s {
        ConnectionStatus::Disconnected => "Connection lost - reconnecting"@,
        ConnectionStatus::Connecting => "Connecting to Discord"@,
        ConnectionStatus::Connected => "Connected"@,
        ConnectionStatus::AuthFailed => "Login failed - check your token"@,
        ConnectionStatus::DisallowedIntent => "Gateway rejected our intents"@,
        ConnectionStatus::Reconnecting => "Reconnecting"@,
    }
}

/// The human-readable label for a connection status.
pub fn connection_label(s: ConnectionStatus) -> (r: &'static str)
    ensures
        r@ == connection_label_spec(s),
{
    match s {
        ConnectionStatus::Disconnected => "Connection lost - reconnecting",
        ConnectionStatus::Connecting => "Connecting to Discord",
        ConnectionStatus::Connected => "Connected",
        ConnectionStatus::AuthFailed => "Login failed - check your token",
        ConnectionStatus::DisallowedIntent => "Gateway rejected our intents",
        ConnectionStatus::Reconnecting => "Reconnecting",
    }
}

// ───────────────────────────── Toasts ─────────────────────────────

#[derive(Debug, Clone, Copy, PartialEq, Eq, Structural)]
pub enum Kind {
    Info,
    Success,
    Error,
}

/// A brief notice: errors stay 5 s, everything else 3 s.
#[derive(Debug)]
pub struct Toast {
    pub text: String,
    pub kind: Kind,
    pub born_ms: u64,
    pub life_ms: u64,
}

pub open spec fn life_of(kind: Kind) -> u64 {
    match kind {
        Kind::Error => 5000,
        _ => 3000,
    }
}

pub open spec fn toast_live(t: Toast, now_ms: u64) -> bool {
    (if now_ms >= t.born_ms { now_ms - t.born_ms } else { 0 }) < t.life_ms
}

/// The queue of toasts on screen.
pub struct Toasts {
    items: Vec<Toast>,
}

impl Toasts {
    pub closed spec fn shown(&self) -> Seq<Toast> {
        self.items@
    }

    pub fn new() -> (t: Self)
        ensures
            t.shown() == Seq::<Toast>::empty(),
    {
        Toasts { items: Vec::new() }
    }

    /// Shows a toast from `now_ms` on.
    pub fn show(&mut self, kind: Kind, text: String, now_ms: u64)
        ensures
            final(self).shown() == old(self).shown().push(Toast { text, kind, born_ms: now_ms, life_ms: life_of(kind) }),
    {
        let life_ms: u64 = match kind {
            Kind::Error => 5000,
            _ => 3000,
        };
        self.items.push(Toast { text, kind, born_ms: now_ms, life_ms });
    }

    pub fn info(&mut self, text: String, now_ms: u64)
        ensures
            final(self).shown() == old(self).shown().push(Toast { text, kind: Kind::Info, born_ms: now_ms, life_ms: 3000 }),
    {
        self.show(Kind::Info, text, now_ms);
    }

    pub fn success(&mut self, text: String, now_ms: u64)
        ensures
            final(self).shown() == old(self).shown().push(Toast { text, kind: Kind::Success, born_ms: now_ms, life_ms: 3000 }),
    {
        self.show(Kind::Success, text, now_ms);
    }

    pub fn error(&mut self, text: String, now_ms: u64)
        ensures
            final(self).shown() == old(self).shown().push(Toast { text, kind: Kind::Error, born_ms: now_ms, life_ms: 5000 }),
    {
        self.show(Kind::Error, text, now_ms);
    }

    /// Drops the expired toasts; the live ones stay, in order.
    pub fn prune(&mut self, now_ms: u64)
        ensures
            final(self).shown() == old(self).shown().filter(|t: Toast| toast_live(t, now_ms)),
    {
        let mut keep: Vec<bool> = Vec::new();
        for i in 0..self.items.len()
            invariant
                keep@.len() == i,
                forall|j: int| 0 <= j < i ==> keep@[j] == toast_live(#[trigger] self.items@[j], now_ms),
        {
            let t = &self.items[i];
            let age: u64 = if now_ms >= t.born_ms { now_ms - t.born_ms } else { 0 };
            keep.push(age < t.life_ms);
        }
        let mut items: Vec<Toast> = Vec::new();
        std::mem::swap(&mut items, &mut self.items);
        proof { crate::seqs::lemma_flagged_filter_self(items@, keep@, |t: Toast| toast_live(t, now_ms)); }
        self.items = crate::seqs::keep_flagged(items, &keep);
    }

    /// The toasts still live at `now_ms`, oldest first.
    pub fn live(&self, now_ms: u64) -> (r: Vec<&Toast>)
        ensures
            r@.map_values(|t: &Toast| *t) == self.shown().filter(|t: Toast| toast_live(t, now_ms)),
    {
        let mut r: Vec<&Toast> = Vec::new();
        let ghost s = self.items@;
        for i in 0..self.items.len()
            invariant
                s == self.items@,
                r@.map_values(|t: &Toast| *t) == s.take(i as int).filter(|t: Toast| toast_live(t, now_ms)),
        {
            proof {
                reveal(Seq::filter);
                assert(s.take(i + 1).drop_last() =~= s.take(i as int));
            }
            let t = &self.items[i];
            let age: u64 = if now_ms >= t.born_ms { now_ms - t.born_ms } else { 0 };
            if age < t.life_ms {
                r.push(t);
                assert(r@.map_values(|t: &Toast| *t) =~= s.take(i as int).filter(|t: Toast| toast_live(t, now_ms)).push(s[i as int]));
            }
        }
        assert(s.take(s.len() as int) =~= s);
        r
    }
}

// ───────────────────────────── Mentions ─────────────────────────────

/// Notification preferences, mirrored from the config each frame.
#[derive(Debug, Clone, Copy, PartialEq, Eq, Structural)]
pub struct NotifyPrefs {
    pub sound: bool,
    pub desktop: bool,
}

pub fn set_prefs(sound: bool, desktop: bool) -> (p: NotifyPrefs)
    ensures
        p == (NotifyPrefs { sound, desktop }),
{
    NotifyPrefs { sound, desktop }
}

/// What a mention produces: an in-app toast, a desktop notification title
/// (sent where the platform has a notification daemon).
#[derive(Debug, PartialEq, Eq)]
pub struct MentionPlan {
    pub toast: Option<String>,
    pub desktop_title: Option<String>,
}

pub open spec fn mention_title_spec(author: Seq<char>, channel: Seq<char>) -> Seq<char> {
    author + " mentioned you in #"@ + channel
}

pub fn mention(prefs: NotifyPrefs, author: &str, channel: &str, snippet: &str) -> (p: MentionPlan)
    ensures
        prefs.desktop ==> (p.toast matches Some(t) && t@ == mention_title_spec(author@, channel@) + ": "@ + snippet@),
        !prefs.desktop ==> p.toast is None,
        prefs.sound ==> (p.desktop_title matches Some(t) && t@ == mention_title_spec(author@, channel@)),
        !prefs.sound ==> p.desktop_title is None,
{
    let toast = if prefs.desktop {
        let mut t = String::new();
        push_str(&mut t, author);
        push_str(&mut t, " mentioned you in #");
        push_str(&mut t, channel);
        push_str(&mut t, ": ");
        push_str(&mut t, snippet);
        Some(t)
    } else {
        None
    };
    let desktop_title = if prefs.sound {
        let mut t = String::new();
        push_str(&mut t, author);
        push_str(&mut t, " mentioned you in #");
        push_str(&mut t, channel);
        Some(t)
    } else {
        None
    };
    MentionPlan { toast, desktop_title }
}

// ───────────────────────────── Small text helpers ─────────────────────────────

pub open spec fn shorten_spec(s: Seq<char>, n: nat) -> Seq<char> {
    if s.len() > n { s.take(n as int) + "..."@ } else { s }
}

/// The first `n` characters, with `...` when something was cut.
pub fn shorten(s: &str, n: usize) -> (r: String)
    ensures
        r@ == shorten_spec(s@, n as nat),
{
    let cs = chars_of(s);
    if cs.len() > n {
        let head = sub_chars(cs.as_slice(), 0, n);
        let mut r = string_of(head.as_slice());
        push_str(&mut r, "...");
        r
    } else {
        string_of(cs.as_slice())
    }
}

/// Discord `public_flags` bits and their badge labels, in display order.
pub open spec fn flag_badges(flags: u64) -> Seq<Seq<char>> {
    let b = |bit: u64, name: Seq<char>| if flags & (1u64 << bit) != 0 { seq![name] } else { Seq::<Seq<char>>::empty() };
    b(0, "STAFF"@) + b(1, "PARTNER"@) + b(2, "HYPESQUAD"@) + b(3, "BUG HUNTER"@) + b(6, "BRAVERY"@)
        + b(7, "BRILLIANCE"@) + b(8, "BALANCE"@) + b(9, "EARLY SUPPORTER"@) + b(14, "BUG HUNTER 2"@)
        + b(17, "VERIFIED BOT"@) + b(18, "DEV"@) + b(19, "MOD"@) + b(22, "ACTIVE DEV"@)
}

fn push_badge(out: &mut Vec<&'static str>, flags: u64, bit: u64, name: &'static str)
    requires
        bit < 64,
    ensures
        final(out)@.map_values(|s: &'static str| s@) == old(out)@.map_values(|s: &'static str| s@)
            + (if flags & (1u64 << bit) != 0 { seq![name@] } else { Seq::<Seq<char>>::empty() }),
{
    let ghost before = out@;
    if flags & (1u64 << bit) != 0 {
        out.push(name);
        assert(out@.map_values(|s: &'static str| s@) =~= before.map_values(|s: &'static str| s@) + seq![name@]);
    } else {
        assert(out@.map_values(|s: &'static str| s@) =~= before.map_values(|s: &'static str| s@) + Seq::<Seq<char>>::empty());
    }
}

/// Badge labels for a user's public flags.
pub fn user_flags(flags: u64) -> (r: Vec<&'static str>)
    ensures
        r@.map_values(|s: &'static str| s@) == flag_badges(flags),
{
    let mut out: Vec<&'static str> = Vec::new();
    assert(out@.map_values(|s: &'static str| s@) =~= Seq::<Seq<char>>::empty());
    push_badge(&mut out, flags, 0, "STAFF");
    push_badge(&mut out, flags, 1, "PARTNER");
    push_badge(&mut out, flags, 2, "HYPESQUAD");
    push_badge(&mut out, flags, 3, "BUG HUNTER");
    push_badge(&mut out, flags, 6, "BRAVERY");
    push_badge(&mut out, flags, 7, "BRILLIANCE");
    push_badge(&mut out, flags, 8, "BALANCE");
    push_badge(&mut out, flags, 9, "EARLY SUPPORTER");
    push_badge(&mut out, flags, 14, "BUG HUNTER 2");
    push_badge(&mut out, flags, 17, "VERIFIED BOT");
    push_badge(&mut out, flags, 18, "DEV");
    push_badge(&mut out, flags, 19, "MOD");
    push_badge(&mut out, flags, 22, "ACTIVE DEV");
    assert(out@.map_values(|s: &'static str| s@) =~= flag_badges(flags));
    out
}

pub open spec fn month_name(m: u64) -> Option<Seq<char>> {
    let idx = if m >= 1 { m - 1 } else { 0 };
    if idx == 0 { Some("January"@) } else if idx == 1 { Some("February"@) } else if idx == 2 { Some("March"@) }
    else if idx == 3 { Some("April"@) } else if idx == 4 { Some("May"@) } else if idx == 5 { Some("June"@) }
    else if idx == 6 { Some("July"@) } else if idx == 7 { Some("August"@) } else if idx == 8 { Some("September"@) }
    else if idx == 9 { Some("October"@) } else if idx == 10 { Some("November"@) } else if idx == 11 { Some("December"@) }
    else { None }
}

fn month_name_exec(m: u64) -> (r: Option<&'static str>)
    ensures
        r matches Some(s) ==> month_name(m) == Some(s@),
        r is None <==> month_name(m) is None,
{
    let idx = if m >= 1 { m - 1 } else { 0 };
    if idx == 0 { Some("January") } else if idx == 1 { Some("February") } else if idx == 2 { Some("March") }
    else if idx == 3 { Some("April") } else if idx == 4 { Some("May") } else if idx == 5 { Some("June") }
    else if idx == 6 { Some("July") } else if idx == 7 { Some("August") } else if idx == 8 { Some("September") }
    else if idx == 9 { Some("October") } else if idx == 10 { Some("November") } else if idx == 11 { Some("December") }
    else { None }
}

pub open spec fn pow10(n: nat) -> nat
    decreases n,
{
    if n == 0 { 1 } else { 10 * pow10((n - 1) as nat) }
}

proof fn lemma_digits_bound(s: Seq<char>)
    requires
        all_digits(s),
    ensures
        digits_value(s) < pow10(s.len()),
    decreases s.len(),
{
    if s.len() > 0 {
        let t = s.drop_last();
        assert(all_digits(t)) by {
            assert forall|i: int| 0 <= i < t.len() implies crate::text::is_digit(#[trigger] t[i]) by {
                assert(t[i] == s[i]);
            }
        }
        lemma_digits_bound(t);
        assert(crate::text::is_digit(s[s.len() - 1]));
    }
}

/// A number of at most four characters is below 10000.
proof fn lemma_parse_small(s: Seq<char>)
    requires
        s.len() <= 4,
    ensures
        parse_u64_spec(s) matches Some(n) ==> n < 10000,
{
    let body = if s.len() > 0 && s[0] == '+' { s.drop_first() } else { s };
    if body.len() > 0 && all_digits(body) {
        lemma_digits_bound(body);
        assert(pow10(0) == 1);
        assert(pow10(1) == 10);
        assert(pow10(2) == 100);
        assert(pow10(3) == 1000);
        assert(pow10(4) == 10000);
    }
}

/// `i32::from_str` for what fits four characters or fewer: an optional
/// sign, then decimal digits.
pub open spec fn parse_year_spec(s: Seq<char>) -> Option<int> {
    if s.len() > 0 && s[0] == '-' {
        match parse_u64_spec(s.drop_first()) {
            Some(n) => if s.drop_first().len() > 0 && s.drop_first()[0] != '+' { Some(-(n as int)) } else { None },
            None => None,
        }
    } else {
        match parse_u64_spec(s) {
            Some(n) => Some(n as int),
            None => None,
        }
    }
}

fn parse_year(s: &[char]) -> (r: Option<i64>)
    requires
        s@.len() <= 4,
    ensures
        r matches Some(y) ==> parse_year_spec(s@) == Some(y as int),
        r is None <==> parse_year_spec(s@) is None,
{
    if s.len() > 0 && s[0] == '-' {
        let rest = sub_chars(s, 1, s.len());
        assert(rest@ =~= s@.drop_first());
        if rest.len() > 0 && rest[0] == '+' {
            return None;
        }
        match parse_u64_chars(rest.as_slice()) {
            Some(n) => {
                proof { lemma_parse_small(rest@); }
                Some(-(n as i64))
            }
            None => None,
        }
    } else {
        match parse_u64_chars(s) {
            Some(n) => {
                proof { lemma_parse_small(s@); }
                Some(n as i64)
            }
            None => None,
        }
    }
}

pub open spec fn int_text(y: int) -> Seq<char> {
    if y < 0 { "-"@ + dec((-y) as nat) } else { dec(y as nat) }
}

fn push_int(s: &mut String, y: i64)
    requires
        -10000 < y < 10000,
    ensures
        final(s)@ == old(s)@ + int_text(y as int),
{
    if y < 0 {
        push_str(s, "-");
        push_dec(s, (-y) as u64);
    } else {
        push_dec(s, y as u64);
    }
}

/// Bytes a character takes in UTF-8.
pub open spec fn utf8_len(c: char) -> nat {
    let u = c as u32;
    if u < 0x80 { 1 } else if u < 0x800 { 2 } else if u < 0x10000 { 3 } else { 4 }
}

/// Byte offset of character `k` of `s` in its UTF-8 form.
pub open spec fn byte_pos(s: Seq<char>, k: int) -> nat
    decreases k,
{
    if k <= 0 || k > s.len() { 0 } else { byte_pos(s, k - 1) + utf8_len(s[k - 1]) }
}

/// The character index that starts at byte `b`, when `b` falls on a
/// character boundary (the end of the text counts).
pub open spec fn char_at_byte(s: Seq<char>, b: int) -> Option<int> {
    if exists|k: int| 0 <= k <= s.len() && #[trigger] byte_pos(s, k) == b {
        Some(choose|k: int| 0 <= k <= s.len() && #[trigger] byte_pos(s, k) == b)
    } else {
        None
    }
}

/// `str::get(a..b)`: the characters between bytes `a` and `b`, when both
/// fall on character boundaries and `a <= b`.
pub open spec fn byte_get(s: Seq<char>, a: int, b: int) -> Option<Seq<char>> {
    match (char_at_byte(s, a), char_at_byte(s, b)) {
        (Some(i), Some(j)) => if i <= j { Some(s.subrange(i, j)) } else { None },
        _ => None,
    }
}

proof fn lemma_byte_pos_grows(s: Seq<char>, i: int, j: int)
    requires
        0 <= i < j <= s.len(),
    ensures
        byte_pos(s, i) < byte_pos(s, j),
    decreases j - i,
{
    if i + 1 < j {
        lemma_byte_pos_grows(s, i, j - 1);
    }
}

fn utf8_len_exec(c: char) -> (r: usize)
    ensures
        r == utf8_len(c),
{
    let u = c as u32;
    if u < 0x80 { 1 } else if u < 0x800 { 2 } else if u < 0x10000 { 3 } else { 4 }
}

/// The character index starting at byte `b`, when it is a boundary.
fn char_index_at_byte(cs: &[char], b: usize) -> (r: Option<usize>)
    requires
        b <= 16,
    ensures
        r is None <==> char_at_byte(cs@, b as int) is None,
        r matches Some(k) ==> char_at_byte(cs@, b as int) == Some(k as int),
{
    let mut k: usize = 0;
    let mut pos: usize = 0;
    while k < cs.len() && pos < b
        invariant
            k <= cs@.len(),
            b <= 16,
            pos == byte_pos(cs@, k as int),
            pos <= b + 4,
            forall|j: int| 0 <= j < k ==> #[trigger] byte_pos(cs@, j) < b,
        decreases cs.len() - k,
    {
        pos = pos + utf8_len_exec(cs[k]);
        k = k + 1;
        proof {
            assert forall|j: int| 0 <= j < k implies #[trigger] byte_pos(cs@, j) < b by {
                if j < k - 1 {
                } else {
                    assert(j == k - 1);
                }
            }
        }
    }
    if pos == b {
        proof {
            assert(byte_pos(cs@, k as int) == b);
            let c = choose|c: int| 0 <= c <= cs@.len() && #[trigger] byte_pos(cs@, c) == b;
            if c < k {
            } else if c > k {
                lemma_byte_pos_grows(cs@, k as int, c);
            }
        }
        Some(k)
    } else {
        proof {
            assert forall|c: int| 0 <= c <= cs@.len() implies #[trigger] byte_pos(cs@, c) != b by {
                if c > k {
                    lemma_byte_pos_grows(cs@, k as int, c);
                }
            }
        }
        None
    }
}

/// `str::get(a..b)` on the characters of a text.
fn byte_slice(cs: &[char], a: usize, b: usize) -> (r: Option<Vec<char>>)
    requires
        a <= b <= 16,
    ensures
        r is None <==> byte_get(cs@, a as int, b as int) is None,
        r matches Some(v) ==> byte_get(cs@, a as int, b as int) == Some(v@),
{
    match (char_index_at_byte(cs, a), char_index_at_byte(cs, b)) {
        (Some(i), Some(j)) => {
            if i <= j {
                let v = sub_chars(cs, i, j);
                Some(v)
            } else {
                None
            }
        }
        _ => None,
    }
}

/// The year (bytes 0..4) and month (bytes 5..7) of an ISO timestamp, each
/// parsed when those bytes are whole characters.
pub open spec fn iso_year(ts: Seq<char>) -> Option<int> {
    match byte_get(ts, 0, 4) {
        Some(y) => parse_year_spec(y),
        None => None,
    }
}

pub open spec fn iso_month(ts: Seq<char>) -> Option<u64> {
    match byte_get(ts, 5, 7) {
        Some(m) => parse_u64_spec(m),
        None => None,
    }
}

fn iso_parts(ts: &str) -> (r: (Option<i64>, Option<u64>))
    ensures
        r.0 matches Some(y) ==> iso_year(ts@) == Some(y as int) && -10000 < y < 10000,
        r.0 is None <==> iso_year(ts@) is None,
        r.1 == iso_month(ts@),
{
    let cs = chars_of(ts);
    let year = match byte_slice(cs.as_slice(), 0, 4) {
        Some(y) => {
            proof {
                let i = char_at_byte(cs@, 0)->0;
                let j = char_at_byte(cs@, 4)->0;
                lemma_chars_within_bytes(cs@, i, j);
            }
            let r = parse_year(y.as_slice());
            proof {
                if r is Some {
                    lemma_parse_small(if y@[0] == '-' { y@.drop_first() } else { y@ });
                }
            }
            r
        }
        None => None,
    };
    let month = match byte_slice(cs.as_slice(), 5, 7) {
        Some(m) => parse_u64_chars(m.as_slice()),
        None => None,
    };
    (year, month)
}

/// Between two character boundaries there are no more characters than bytes.
proof fn lemma_chars_within_bytes(s: Seq<char>, i: int, j: int)
    requires
        0 <= i <= j <= s.len(),
    ensures
        j - i <= byte_pos(s, j) - byte_pos(s, i),
    decreases j - i,
{
    if i < j {
        lemma_chars_within_bytes(s, i, j - 1);
    }
}

/// "2024-08-13T..." -> "August 2024"; `None` when the year, the month or
/// its name is missing.
pub fn month_year(ts: &str) -> (r: Option<String>)
    ensures
        ({
            let want = match (iso_year(ts@), iso_month(ts@)) {
                (Some(y), Some(m)) => match month_name(m) {
                    Some(name) => Some(name + " "@ + int_text(y)),
                    None => None,
                },
                _ => None,
            };
            &&& r matches Some(s) ==> want == Some(s@)
            &&& r is None <==> want is None
        }),
{
    let (year, month) = iso_parts(ts);
    match (year, month) {
        (Some(y), Some(m)) => match month_name_exec(m) {
            Some(name) => {
                let mut s = String::new();
                push_str(&mut s, name);
                push_str(&mut s, " ");
                push_int(&mut s, y);
                Some(s)
            }
            None => None,
        },
        _ => None,
    }
}

/// "2026-09-01T..." -> "September 2026"; a missing year reads 0 and a
/// missing month reads as January; an out-of-range month shows "?".
pub fn month_year_or_default(ts: &str) -> (r: String)
    ensures
        ({
            let y = match iso_year(ts@) { Some(y) => y, None => 0 };
            let m = match iso_month(ts@) { Some(m) => m, None => 0 };
            let name = match month_name(m) { Some(n) => n, None => "?"@ };
            r@ == name + " "@ + int_text(y)
        }),
{
    let (year, month) = iso_parts(ts);
    let y: i64 = match year { Some(y) => y, None => 0 };
    let m: u64 = match month { Some(m) => m, None => 0 };
    let name = match month_name_exec(m) { Some(n) => n, None => "?" };
    let mut s = String::new();
    push_str(&mut s, name);
    push_str(&mut s, " ");
    push_int(&mut s, y);
    s
}

// ───────────────────────────── Colors ─────────────────────────────

pub open spec fn rgb(r: u8, g: u8, b: u8) -> Rgb {
    Rgb { r, g, b }
}

/// The presence dot color of a status (2025 palette).
pub open spec fn status_color_spec(presence: Seq<char>) -> Rgb {
    if presence == "online"@ { rgb(0x3D, 0x9E, 0x60) }
    else if presence == "idle"@ { rgb(0xFF, 0xCB, 0x6E) }
    else if presence == "dnd"@ { rgb(0xDC, 0x42, 0x47) }
    else { rgb(0x9D, 0x9E, 0xA5) }
}

pub fn status_color(presence: &str) -> (c: Rgb)
    ensures
        c == status_color_spec(presence@),
{
    if str_eq(presence, "online") { Rgb { r: 0x3D, g: 0x9E, b: 0x60 } }
    else if str_eq(presence, "idle") { Rgb { r: 0xFF, g: 0xCB, b: 0x6E } }
    else if str_eq(presence, "dnd") { Rgb { r: 0xDC, g: 0x42, b: 0x47 } }
    else { Rgb { r: 0x9D, g: 0x9E, b: 0xA5 } }
}

/// The default role colors, in Discord's order.
pub open spec fn role_palette(i: int) -> Rgb {
    if i == 0 { rgb(0x1A, 0x1A, 0x1A) } else if i == 1 { rgb(0x34, 0x9B, 0xD9) }
    else if i == 2 { rgb(0x2E, 0xCC, 0x71) } else if i == 3 { rgb(0xF1, 0xC4, 0x0F) }
    else if i == 4 { rgb(0xE7, 0x3C, 0x3E) } else if i == 5 { rgb(0xEA, 0x43, 0x80) }
    else if i == 6 { rgb(0x00, 0xA8, 0xFC) } else if i == 7 { rgb(0xBF, 0x37, 0xFB) }
    else if i == 8 { rgb(0xE8, 0x6F, 0x16) } else if i == 9 { rgb(0x41, 0x32, 0x9E) }
    else if i == 10 { rgb(0x35, 0x9B, 0xB8) } else if i == 11 { rgb(0xC6, 0x2E, 0x9F) }
    else if i == 12 { rgb(0xF2, 0x8B, 0x1E) } else if i == 13 { rgb(0x6D, 0x3F, 0xED) }
    else if i == 14 { rgb(0x46, 0x35, 0x28) } else if i == 15 { rgb(0x71, 0x60, 0xE4) }
    else if i == 16 { rgb(0x6B, 0x6F, 0x77) } else { rgb(0x00, 0xD0, 0x6B) }
}

pub const ROLE_PALETTE_LEN: usize = 18;

/// The palette color for index `idx`, wrapping around the 18 entries.
pub fn default_role_color_hex(idx: usize) -> (c: Rgb)
    ensures
        c == role_palette((idx % ROLE_PALETTE_LEN) as int),
{
    let i = idx % ROLE_PALETTE_LEN;
    if i == 0 { Rgb { r: 0x1A, g: 0x1A, b: 0x1A } } else if i == 1 { Rgb { r: 0x34, g: 0x9B, b: 0xD9 } }
    else if i == 2 { Rgb { r: 0x2E, g: 0xCC, b: 0x71 } } else if i == 3 { Rgb { r: 0xF1, g: 0xC4, b: 0x0F } }
    else if i == 4 { Rgb { r: 0xE7, g: 0x3C, b: 0x3E } } else if i == 5 { Rgb { r: 0xEA, g: 0x43, b: 0x80 } }
    else if i == 6 { Rgb { r: 0x00, g: 0xA8, b: 0xFC } } else if i == 7 { Rgb { r: 0xBF, g: 0x37, b: 0xFB } }
    else if i == 8 { Rgb { r: 0xE8, g: 0x6F, b: 0x16 } } else if i == 9 { Rgb { r: 0x41, g: 0x32, b: 0x9E } }
    else if i == 10 { Rgb { r: 0x35, g: 0x9B, b: 0xB8 } } else if i == 11 { Rgb { r: 0xC6, g: 0x2E, b: 0x9F } }
    else if i == 12 { Rgb { r: 0xF2, g: 0x8B, b: 0x1E } } else if i == 13 { Rgb { r: 0x6D, g: 0x3F, b: 0xED } }
    else if i == 14 { Rgb { r: 0x46, g: 0x35, b: 0x28 } } else if i == 15 { Rgb { r: 0x71, g: 0x60, b: 0xE4 } }
    else if i == 16 { Rgb { r: 0x6B, g: 0x6F, b: 0x77 } } else { Rgb { r: 0x00, g: 0xD0, b: 0x6B } }
}

/// The role palette repeats every 18 indices.
pub proof fn law_role_palette_wraps(idx: usize)
    requires
        idx + ROLE_PALETTE_LEN <= usize::MAX,
    ensures
        role_palette(((idx + ROLE_PALETTE_LEN) % ROLE_PALETTE_LEN as int) as int) == role_palette((idx % ROLE_PALETTE_LEN) as int),
{
}

/// Secondary text color, the fallback for member names.
pub open spec fn text_secondary() -> Rgb {
    rgb(0xDB, 0xDE, 0xE1)
}

/// The status dot color shown for a connection status.
pub open spec fn connection_color_spec(s: ConnectionStatus) -> Rgb {
    match s {
        ConnectionStatus::Disconnected => rgb(0x9D, 0x9E, 0xA5),
        ConnectionStatus::Connecting => rgb(0xFF, 0xCB, 0x6E),
        ConnectionStatus::Connected => rgb(0x3D, 0x9E, 0x60),
        ConnectionStatus::AuthFailed => rgb(0xDC, 0x42, 0x47),
        ConnectionStatus::DisallowedIntent => rgb(0xDC, 0x42, 0x47),
        ConnectionStatus::Reconnecting => rgb(0xFF, 0xCB, 0x6E),
    }
}

/// The connection dot uses the presence palette: offline, idle, online, dnd.
pub fn connection_color(s: ConnectionStatus) -> (c: Rgb)
    ensures
        c == connection_color_spec(s),
{
    match s {
        ConnectionStatus::Disconnected => Rgb { r: 0x9D, g: 0x9E, b: 0xA5 },
        ConnectionStatus::Connecting => Rgb { r: 0xFF, g: 0xCB, b: 0x6E },
        ConnectionStatus::Connected => Rgb { r: 0x3D, g: 0x9E, b: 0x60 },
        ConnectionStatus::AuthFailed | ConnectionStatus::DisallowedIntent => Rgb { r: 0xDC, g: 0x42, b: 0x47 },
        ConnectionStatus::Reconnecting => Rgb { r: 0xFF, g: 0xCB, b: 0x6E },
    }
}

/// A Discord role color integer `0xRRGGBB` as its three channels.
pub open spec fn role_color_spec(color: u32) -> Rgb {
    rgb(((color / 65536) % 256) as u8, ((color / 256) % 256) as u8, (color % 256) as u8)
}

pub fn role_color(color: u32) -> (c: Rgb)
    ensures
        c == role_color_spec(color),
{
    assert((color >> 16u32) & 0xFFu32 == (color / 65536) % 256) by (bit_vector);
    assert((color >> 8u32) & 0xFFu32 == (color / 256) % 256) by (bit_vector);
    assert(color & 0xFFu32 == color % 256) by (bit_vector);
    Rgb { r: ((color >> 16) & 0xFF) as u8, g: ((color >> 8) & 0xFF) as u8, b: (color & 0xFF) as u8 }
}

/// The string hash behind default banner colors: `h = h * 31 + byte`,
/// wrapping at 2^32, over the UTF-8 bytes of the seed.
pub open spec fn seed_hash(bytes: Seq<u8>) -> nat
    decreases bytes.len(),
{
    if bytes.len() == 0 {
        0
    } else {
        (seed_hash(bytes.drop_last()) * 31 + bytes.last() as nat) % 4_294_967_296
    }
}

/// A user's banner color: the accent color when one is set and non-zero,
/// else a palette color picked by the hash of `seed`.
pub open spec fn banner_color_spec(accent: Option<u32>, seed: Seq<u8>) -> Rgb {
    match accent {
        Some(c) if c != 0 => role_color_spec(c),
        _ => role_palette((seed_hash(seed) % 18) as int),
    }
}

pub fn banner_color_for(accent: Option<u32>, seed: &str) -> (c: Rgb)
    ensures
        c == banner_color_spec(accent, seed.spec_bytes()),
{
    if let Some(c) = accent {
        if c != 0 {
            return role_color(c);
        }
    }
    let bytes = seed.as_bytes();
    let mut h: u64 = 0;
    for i in 0..bytes.len()
        invariant
            h == seed_hash(bytes@.take(i as int)),
            h < 4_294_967_296,
    {
        assert(bytes@.take(i + 1).drop_last() =~= bytes@.take(i as int));
        h = (h * 31 + bytes[i] as u64) % 4_294_967_296;
    }
    assert(bytes@.take(bytes@.len() as int) =~= bytes@);
    default_role_color_hex((h % 18) as usize)
}

pub open spec fn member_is(m: Member, uid: Snowflake) -> bool {
    m.user matches Some(u) && u.id == uid
}

/// Index of the first member whose user is `uid`.
pub open spec fn first_member(ms: Seq<Member>, uid: Snowflake) -> Option<int> {
    if exists|i: int| 0 <= i < ms.len() && #[trigger] member_is(ms[i], uid) && forall|j: int| 0 <= j < i ==> !member_is(ms[j], uid) {
        Some(choose|i: int| 0 <= i < ms.len() && #[trigger] member_is(ms[i], uid)
            && forall|j: int| 0 <= j < i ==> !member_is(ms[j], uid))
    } else {
        None
    }
}

/// Index of the first role with id `id`.
pub open spec fn first_role(rs: Seq<Role>, id: Snowflake) -> Option<int> {
    if exists|i: int| 0 <= i < rs.len() && #[trigger] rs[i].id == id && forall|j: int| 0 <= j < i ==> rs[j].id != id {
        Some(choose|i: int| 0 <= i < rs.len() && #[trigger] rs[i].id == id
            && forall|j: int| 0 <= j < i ==> rs[j].id != id)
    } else {
        None
    }
}

/// The (position, color) of the highest colored role among `ids`, taken
/// in order: a later role wins only with a strictly higher position.
pub open spec fn best_role(rs: Seq<Role>, ids: Seq<Snowflake>) -> Option<(i32, u32)>
    decreases ids.len(),
{
    if ids.len() == 0 {
        None
    } else {
        let prev = best_role(rs, ids.drop_last());
        match first_role(rs, ids.last()) {
            Some(k) => {
                if rs[k].color != 0 && (match prev { Some(p) => rs[k].position > p.0, None => true }) {
                    Some((rs[k].position, rs[k].color))
                } else {
                    prev
                }
            },
            None => prev,
        }
    }
}

/// A member's name color in a guild: the color of their highest colored
/// role, else the secondary text color.
pub open spec fn member_name_color_spec(gs: Seq<Guild>, guild_id: Snowflake, user_id: Snowflake) -> Rgb {
    match first_guild(gs, guild_id) {
        None => text_secondary(),
        Some(gi) => match first_member(gs[gi].members@, user_id) {
            None => text_secondary(),
            Some(mi) => match best_role(gs[gi].roles@, gs[gi].members@[mi].roles@) {
                Some(b) => role_color_spec(b.1),
                None => text_secondary(),
            },
        },
    }
}

fn find_member(ms: &[Member], uid: Snowflake) -> (r: Option<usize>)
    ensures
        r matches Some(i) ==> first_member(ms@, uid) == Some(i as int),
        r is None <==> first_member(ms@, uid) is None,
{
    let mut i: usize = 0;
    while i < ms.len()
        invariant
            i <= ms@.len(),
            forall|j: int| 0 <= j < i ==> !member_is(#[trigger] ms@[j], uid),
        decreases ms.len() - i,
    {
        let hit = match &ms[i].user {
            Some(u) => u.id == uid,
            None => false,
        };
        if hit {
            proof {
                assert(member_is(ms@[i as int], uid));
                let p = first_member(ms@, uid)->0;
                if p < i { } else if p > i { assert(member_is(ms@[i as int], uid)); }
            }
            return Some(i);
        }
        i += 1;
    }
    None
}

fn find_role(rs: &[Role], id: Snowflake) -> (r: Option<usize>)
    ensures
        r matches Some(i) ==> first_role(rs@, id) == Some(i as int),
        r is None <==> first_role(rs@, id) is None,
{
    let mut i: usize = 0;
    while i < rs.len()
        invariant
            i <= rs@.len(),
            forall|j: int| 0 <= j < i ==> rs@[j].id != id,
        decreases rs.len() - i,
    {
        if rs[i].id == id {
            proof {
                let p = first_role(rs@, id)->0;
                if p < i { } else if p > i { assert(rs@[i as int].id == id); }
            }
            return Some(i);
        }
        i += 1;
    }
    None
}

/// The member's name color from their highest colored role.
pub fn member_name_color(app_state: &AppState, guild_id: Snowflake, user_id: Snowflake) -> (c: Rgb)
    ensures
        c == member_name_color_spec(app_state@.guilds, guild_id, user_id),
{
    let secondary = Rgb { r: 0xDB, g: 0xDE, b: 0xE1 };
    let guild = match app_state.guild_by_id(guild_id) {
        Some(g) => g,
        None => return secondary,
    };
    let mi = match find_member(guild.members.as_slice(), user_id) {
        Some(i) => i,
        None => return secondary,
    };
    let ids = &guild.members[mi].roles;
    let mut best: Option<(i32, u32)> = None;
    for k in 0..ids.len()
        invariant
            best == best_role(guild.roles@, ids@.take(k as int)),
    {
        assert(ids@.take(k + 1).drop_last() =~= ids@.take(k as int));
        assert(ids@.take(k + 1).last() == ids@[k as int]);
        if let Some(ri) = find_role(guild.roles.as_slice(), ids[k]) {
            let role = &guild.roles[ri];
            if role.color != 0 {
                let better = match best {
                    Some(b) => role.position > b.0,
                    None => true,
                };
                if better {
                    best = Some((role.position, role.color));
                }
            }
        }
    }
    assert(ids@.take(ids@.len() as int) =~= ids@);
    match best {
        Some(b) => role_color(b.1),
        None => secondary,
    }
}

// ───────────────────────────── UI states ─────────────────────────────

/// Settings sections.
#[derive(Debug, Clone, Copy, PartialEq, Eq, Structural)]
pub enum Section {
    Account,
    Appearance,
    Notifications,
    About,
}

/// Login flow phases.
#[derive(Debug, Clone, Copy, PartialEq, Eq, Structural)]
pub enum Phase {
    /// Card with the token field.
    Input,
    /// Validating the token against REST.
    Validating,
    /// Signed in; waiting for the app shell.
    Splash,
}

/// Sidebar popups (invite, settings, new channel, events, boosts, DM menu).
#[derive(Debug, Clone, Copy, PartialEq, Eq, Structural, Default)]
pub enum SidePopup {
    #[default]
    Invite,
    Settings,
    NewChannel { parent: Option<Snowflake> },
    Events,
    Boosts,
    DmContext { dm: Snowflake },
}

} // verus!
