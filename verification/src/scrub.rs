//! Token redaction for log lines and panic messages.
//!
//! Masks the live session token wherever it appears, generic Discord
//! token shapes (`<24+>.<6+>.<20+>` starting with a digit, or a single
//! 72+ character word), `mfa.<24+>` user tokens, and the value of
//! `Authorization:` headers. Cheap scans, no regex engine.
use vstd::prelude::*;
use crate::text::{chars_match_at, chars_of, contains_seq, find_from, find_spec, is_ascii_alnum,
    is_ascii_digit, lemma_find_spec, lower_chars, lower_seq, matches_at, push_char, push_str, seq_contains,
    string_of, trim, trim_chars};
use crate::emoji::slice_range;

verus! {

/// The token to redact from now on: `token` trimmed, or `None` when
/// that leaves nothing.
pub fn set_live_token(token: &str) -> (r: Option<String>)
    ensures
        r matches Some(t) ==> t@ == trim(token@) && t@.len() > 0,
        r is None <==> trim(token@).len() == 0,
{
    let cs = chars_of(token);
    let t = trim_chars(cs.as_slice());
    if t.len() == 0 {
        None
    } else {
        Some(string_of(t.as_slice()))
    }
}

// ───────────────────────── live token ─────────────────────────

/// `s[i..]` with every non-overlapping occurrence of `p` (scanning left
/// to right) replaced by `r` (`str::replace`).
pub open spec fn replace_from(s: Seq<char>, p: Seq<char>, r: Seq<char>, i: int) -> Seq<char>
    decreases s.len() - i,
{
    if i < 0 || i >= s.len() || p.len() == 0 {
        if 0 <= i < s.len() { s.subrange(i, s.len() as int) } else { seq![] }
    } else if matches_at(s, i, p) {
        r + replace_from(s, p, r, i + p.len())
    } else {
        seq![s[i]] + replace_from(s, p, r, i + 1)
    }
}

fn replace_all(s: &[char], p: &[char], r: &str) -> (out: Vec<char>)
    requires
        p@.len() > 0,
    ensures
        out@ == replace_from(s@, p@, r@, 0),
{
    let rc = chars_of(r);
    let mut out: Vec<char> = Vec::new();
    let mut i: usize = 0;
    while i < s.len()
        invariant
            i <= s@.len(),
            p@.len() > 0,
            rc@ == r@,
            out@ + replace_from(s@, p@, r@, i as int) == replace_from(s@, p@, r@, 0),
        decreases s.len() - i,
    {
        if chars_match_at(s, i, p) {
            let ghost before = out@;
            let mut k: usize = 0;
            while k < rc.len()
                invariant
                    k <= rc@.len(),
                    out@ =~= before + rc@.take(k as int),
                decreases rc.len() - k,
            {
                out.push(rc[k]);
                k += 1;
            }
            assert(rc@.take(rc@.len() as int) =~= rc@);
            assert(out@ + replace_from(s@, p@, r@, i + p@.len()) =~= before + replace_from(s@, p@, r@, i as int));
            i = i + p.len();
        } else {
            let ghost before = out@;
            out.push(s[i]);
            assert(out@ + replace_from(s@, p@, r@, i + 1) =~= before + replace_from(s@, p@, r@, i as int));
            i += 1;
        }
    }
    assert(replace_from(s@, p@, r@, i as int) =~= Seq::<char>::empty());
    assert(out@ =~= out@ + replace_from(s@, p@, r@, i as int));
    out
}

// ───────────────────────── token shapes ─────────────────────────

pub open spec fn word_char(c: char) -> bool {
    is_ascii_alnum(c) || c == '_' || c == '-' || c == '.'
}

pub open spec fn mfa_char(c: char) -> bool {
    is_ascii_alnum(c) || c == '_' || c == '-'
}

fn is_word_char(c: char) -> (r: bool)
    ensures
        r == word_char(c),
{
    ('0' <= c && c <= '9') || ('a' <= c && c <= 'z') || ('A' <= c && c <= 'Z') || c == '_' || c == '-' || c == '.'
}

fn is_mfa_char(c: char) -> (r: bool)
    ensures
        r == mfa_char(c),
{
    ('0' <= c && c <= '9') || ('a' <= c && c <= 'z') || ('A' <= c && c <= 'Z') || c == '_' || c == '-'
}

/// End of the run of word characters starting at `j`.
pub open spec fn word_end(s: Seq<char>, j: int) -> int
    decreases s.len() - j,
{
    if 0 <= j < s.len() && word_char(s[j]) { word_end(s, j + 1) } else { j }
}

/// End of the run of `mfa_char`s starting at `j`.
pub open spec fn mfa_end(s: Seq<char>, j: int) -> int
    decreases s.len() - j,
{
    if 0 <= j < s.len() && mfa_char(s[j]) { mfa_end(s, j + 1) } else { j }
}

pub proof fn lemma_word_end(s: Seq<char>, j: int)
    requires
        0 <= j <= s.len(),
    ensures
        j <= word_end(s, j) <= s.len(),
        j < s.len() && word_char(s[j]) ==> j < word_end(s, j),
        word_end(s, j) < s.len() ==> !word_char(s[word_end(s, j)]),
    decreases s.len() - j,
{
    if j < s.len() && word_char(s[j]) {
        lemma_word_end(s, j + 1);
    }
}

pub proof fn lemma_mfa_end(s: Seq<char>, j: int)
    requires
        0 <= j <= s.len(),
    ensures
        j <= mfa_end(s, j) <= s.len(),
        j < s.len() && mfa_char(s[j]) ==> j < mfa_end(s, j),
    decreases s.len() - j,
{
    if j < s.len() && mfa_char(s[j]) {
        lemma_mfa_end(s, j + 1);
    }
}

fn word_end_exec(s: &[char], j: usize) -> (r: usize)
    requires
        j <= s@.len(),
    ensures
        r == word_end(s@, j as int),
{
    let mut k = j;
    while k < s.len() && is_word_char(s[k])
        invariant
            j <= k <= s@.len(),
            word_end(s@, k as int) == word_end(s@, j as int),
        decreases s.len() - k,
    {
        k += 1;
    }
    k
}

fn mfa_end_exec(s: &[char], j: usize) -> (r: usize)
    requires
        j <= s@.len(),
    ensures
        r == mfa_end(s@, j as int),
{
    let mut k = j;
    while k < s.len() && is_mfa_char(s[k])
        invariant
            j <= k <= s@.len(),
            mfa_end(s@, k as int) == mfa_end(s@, j as int),
        decreases s.len() - k,
    {
        k += 1;
    }
    k
}

pub open spec fn dot_count(w: Seq<char>) -> nat
    decreases w.len(),
{
    if w.len() == 0 {
        0
    } else {
        dot_count(w.drop_last()) + (if w.last() == '.' { 1nat } else { 0nat })
    }
}

/// A word shaped like a Discord token: three dot-separated segments of
/// at least 24, 6 and 20 characters with a leading digit, or a single
/// segment of at least 72 characters.
pub open spec fn token_like(w: Seq<char>) -> bool {
    if dot_count(w) == 2 {
        let d1 = find_spec(w, seq!['.'], 0)->0;
        let d2 = find_spec(w, seq!['.'], d1 + 1)->0;
        d1 >= 24 && d2 - d1 - 1 >= 6 && w.len() - d2 - 1 >= 20 && is_ascii_digit(w[0])
    } else if dot_count(w) == 0 {
        w.len() >= 72
    } else {
        false
    }
}

/// The replacement of a token-like word (its dot count preserved).
pub open spec fn redacted_word(w: Seq<char>) -> Seq<char> {
    if dot_count(w) == 2 { "[REDACTED..]"@ } else { "[REDACTED]"@ }
}

/// `s[i..]` with each token-like word replaced.
pub open spec fn pattern_from(s: Seq<char>, i: int) -> Seq<char>
    decreases s.len() - i,
{
    if i < 0 || i >= s.len() {
        seq![]
    } else if word_char(s[i]) {
        let e = word_end(s, i);
        proof { lemma_word_end(s, i); }
        let w = s.subrange(i, e);
        (if token_like(w) { redacted_word(w) } else { w }) + pattern_from(s, e)
    } else {
        seq![s[i]] + pattern_from(s, i + 1)
    }
}

fn dot_count_exec(w: &[char]) -> (r: usize)
    ensures
        r == dot_count(w@),
        r <= w@.len(),
{
    let mut n: usize = 0;
    let mut i: usize = 0;
    while i < w.len()
        invariant
            i <= w@.len(),
            n == dot_count(w@.take(i as int)),
            n <= i,
        decreases w.len() - i,
    {
        assert(w@.take(i + 1).drop_last() =~= w@.take(i as int));
        if w[i] == '.' {
            n += 1;
        }
        i += 1;
    }
    assert(w@.take(w@.len() as int) =~= w@);
    n
}

proof fn lemma_dot_split(w: Seq<char>)
    requires
        dot_count(w) >= 1,
    ensures
        find_spec(w, seq!['.'], 0) is Some,
{
    lemma_find_spec(w, seq!['.'], 0);
    if find_spec(w, seq!['.'], 0) is None {
        lemma_no_dot(w);
    }
}

proof fn lemma_no_dot(w: Seq<char>)
    requires
        forall|j: int| 0 <= j ==> !#[trigger] matches_at(w, j, seq!['.']),
    ensures
        dot_count(w) == 0,
    decreases w.len(),
{
    if w.len() > 0 {
        assert forall|j: int| 0 <= j implies !#[trigger] matches_at(w.drop_last(), j, seq!['.']) by {
            if matches_at(w.drop_last(), j, seq!['.']) {
                assert(w.subrange(j, j + 1) =~= w.drop_last().subrange(j, j + 1));
                assert(matches_at(w, j, seq!['.']));
            }
        }
        lemma_no_dot(w.drop_last());
        assert(w.subrange(w.len() - 1, w.len() as int) =~= seq![w.last()]);
        if w.last() == '.' {
            assert(matches_at(w, w.len() - 1, seq!['.']));
        }
    }
}

proof fn lemma_dot_count_split(w: Seq<char>, k: int)
    requires
        0 <= k <= w.len(),
    ensures
        dot_count(w) == dot_count(w.take(k)) + dot_count(w.skip(k)),
    decreases w.len() - k,
{
    if k < w.len() {
        lemma_dot_count_split(w, k + 1);
        lemma_dot_count_prefix_step(w, k);
        lemma_dot_count_skip_step(w, k);
    } else {
        assert(w.take(k) =~= w);
        assert(w.skip(k) =~= Seq::<char>::empty());
    }
}

proof fn lemma_dot_count_prefix_step(w: Seq<char>, k: int)
    requires
        0 <= k < w.len(),
    ensures
        dot_count(w.take(k + 1)) == dot_count(w.take(k)) + (if w[k] == '.' { 1nat } else { 0nat }),
{
    assert(w.take(k + 1).drop_last() =~= w.take(k));
}

proof fn lemma_dot_count_skip_step(w: Seq<char>, k: int)
    requires
        0 <= k < w.len(),
    ensures
        dot_count(w.skip(k)) == dot_count(w.skip(k + 1)) + (if w[k] == '.' { 1nat } else { 0nat }),
    decreases w.len() - k,
{
    if k + 1 == w.len() {
        assert(w.skip(k).drop_last() =~= Seq::<char>::empty());
        assert(w.skip(k + 1) =~= Seq::<char>::empty());
    } else {
        lemma_dot_count_skip_step(w, k + 1);
        assert(w.skip(k).drop_last() =~= w.drop_last().skip(k));
        assert(w.skip(k + 1).drop_last() =~= w.drop_last().skip(k + 1));
        lemma_dot_count_skip_step_last(w, k);
    }
}

proof fn lemma_dot_count_skip_step_last(w: Seq<char>, k: int)
    requires
        0 <= k,
        k + 1 < w.len(),
    ensures
        dot_count(w.skip(k)) == dot_count(w.drop_last().skip(k)) + (if w.last() == '.' { 1nat } else { 0nat }),
        dot_count(w.skip(k + 1)) == dot_count(w.drop_last().skip(k + 1)) + (if w.last() == '.' { 1nat } else { 0nat }),
        dot_count(w.drop_last().skip(k)) == dot_count(w.drop_last().skip(k + 1)) + (if w[k] == '.' { 1nat } else { 0nat }),
    decreases w.len() - k,
{
    assert(w.skip(k).drop_last() =~= w.drop_last().skip(k));
    assert(w.skip(k + 1).drop_last() =~= w.drop_last().skip(k + 1));
    if k + 2 < w.len() {
        lemma_dot_count_skip_step_last(w.drop_last(), k);
    } else {
        assert(w.drop_last().skip(k + 1) =~= Seq::<char>::empty());
        assert(w.drop_last().skip(k).drop_last() =~= Seq::<char>::empty());
        assert(w.drop_last().skip(k).last() == w[k]);
    }
}

fn token_like_exec(w: &[char]) -> (r: bool)
    ensures
        r == token_like(w@),
{
    let n = dot_count_exec(w);
    let dot = ['.'];
    assert(dot@ =~= seq!['.']);
    if n == 2 {
        proof {
            lemma_dot_split(w@);
            lemma_find_spec(w@, seq!['.'], 0);
        }
        let d1 = match find_from(w, dot.as_slice(), 0) {
            Some(d) => d,
            None => { return false; }
        };
        let wl = w.len();
        assert(d1 < wl);
        proof {
            lemma_dot_count_split(w@, d1 + 1);
            assert(w@.subrange(d1 as int, d1 + 1) =~= seq!['.']);
            lemma_dot_count_prefix_step(w@, d1 as int);
            lemma_no_dot_before(w@, d1 as int);
            lemma_dot_split(w@.skip(d1 + 1));
            lemma_find_spec(w@, seq!['.'], d1 + 1);
            lemma_find_shift_some(w@, d1 + 1);
        }
        let d2 = match find_from(w, dot.as_slice(), d1 + 1) {
            Some(d) => d,
            None => { return false; }
        };
        d1 >= 24 && d2 - d1 - 1 >= 6 && w.len() - d2 - 1 >= 20 && '0' <= w[0] && w[0] <= '9'
    } else if n == 0 {
        w.len() >= 72
    } else {
        false
    }
}

proof fn lemma_no_dot_before(w: Seq<char>, d: int)
    requires
        0 <= d <= w.len(),
        forall|j: int| 0 <= j < d ==> !#[trigger] matches_at(w, j, seq!['.']),
    ensures
        dot_count(w.take(d)) == 0,
{
    assert forall|j: int| 0 <= j implies !#[trigger] matches_at(w.take(d), j, seq!['.']) by {
        if matches_at(w.take(d), j, seq!['.']) {
            assert(w.take(d).subrange(j, j + 1) =~= w.subrange(j, j + 1));
            assert(matches_at(w, j, seq!['.']));
        }
    }
    lemma_no_dot(w.take(d));
}

proof fn lemma_find_shift_some(w: Seq<char>, k: int)
    requires
        0 <= k <= w.len(),
        find_spec(w.skip(k), seq!['.'], 0) is Some,
    ensures
        find_spec(w, seq!['.'], k) is Some,
{
    lemma_find_spec(w.skip(k), seq!['.'], 0);
    let j = find_spec(w.skip(k), seq!['.'], 0)->0;
    assert(w.skip(k).subrange(j, j + 1) =~= w.subrange(k + j, k + j + 1));
    assert(matches_at(w, k + j, seq!['.']));
    lemma_find_spec(w, seq!['.'], k);
}

fn scrub_pattern(s: &[char]) -> (r: Vec<char>)
    ensures
        r@ == pattern_from(s@, 0),
{
    let mut out: Vec<char> = Vec::new();
    let mut i: usize = 0;
    while i < s.len()
        invariant
            i <= s@.len(),
            out@ + pattern_from(s@, i as int) == pattern_from(s@, 0),
        decreases s.len() - i,
    {
        if is_word_char(s[i]) {
            let e = word_end_exec(s, i);
            proof { lemma_word_end(s@, i as int); }
            let w = slice_range(s, i, e);
            let ghost before = out@;
            if token_like_exec(w.as_slice()) {
                let dots = dot_count_exec(w.as_slice());
                let rep = if dots == 2 { "[REDACTED..]" } else { "[REDACTED]" };
                let rc = chars_of(rep);
                append(&mut out, rc.as_slice());
            } else {
                append(&mut out, w.as_slice());
            }
            assert(out@ + pattern_from(s@, e as int) =~= before + pattern_from(s@, i as int));
            i = e;
        } else {
            let ghost before = out@;
            out.push(s[i]);
            assert(out@ + pattern_from(s@, i + 1) =~= before + pattern_from(s@, i as int));
            i += 1;
        }
    }
    assert(out@ + pattern_from(s@, i as int) =~= out@);
    out
}

fn append(out: &mut Vec<char>, t: &[char])
    ensures
        final(out)@ == old(out)@ + t@,
{
    let mut k: usize = 0;
    while k < t.len()
        invariant
            k <= t@.len(),
            out@ =~= old(out)@ + t@.take(k as int),
        decreases t.len() - k,
    {
        out.push(t[k]);
        k += 1;
    }
    assert(t@.take(t@.len() as int) =~= t@);
}

// ───────────────────────── mfa tokens ─────────────────────────

pub open spec fn mfa_pat() -> Seq<char> {
    seq!['m', 'f', 'a', '.']
}

/// `s[i..]` with every `mfa.` followed by 24+ token characters replaced
/// by `mfa.[REDACTED]`.
pub open spec fn mfa_from(s: Seq<char>, i: int) -> Seq<char>
    decreases s.len() - i,
{
    if i < 0 || i >= s.len() {
        seq![]
    } else if matches_at(s, i, mfa_pat()) && mfa_end(s, i + 4) - (i + 4) >= 24 {
        proof { lemma_mfa_end(s, i + 4); }
        "mfa.[REDACTED]"@ + mfa_from(s, mfa_end(s, i + 4))
    } else {
        seq![s[i]] + mfa_from(s, i + 1)
    }
}

fn scrub_mfa(s: &[char]) -> (r: Vec<char>)
    ensures
        r@ == mfa_from(s@, 0),
{
    let pat = ['m', 'f', 'a', '.'];
    assert(pat@ =~= mfa_pat());
    let rep = chars_of("mfa.[REDACTED]");
    let mut out: Vec<char> = Vec::new();
    let mut i: usize = 0;
    while i < s.len()
        invariant
            i <= s@.len(),
            pat@ == mfa_pat(),
            rep@ == "mfa.[REDACTED]"@,
            out@ + mfa_from(s@, i as int) == mfa_from(s@, 0),
        decreases s.len() - i,
    {
        if chars_match_at(s, i, pat.as_slice()) {
            let j = mfa_end_exec(s, i + 4);
            proof { lemma_mfa_end(s@, i + 4); }
            if j - (i + 4) >= 24 {
                let ghost before = out@;
                append(&mut out, rep.as_slice());
                assert(out@ + mfa_from(s@, j as int) =~= before + mfa_from(s@, i as int));
                i = j;
                continue;
            }
        }
        let ghost before = out@;
        out.push(s[i]);
        assert(out@ + mfa_from(s@, i + 1) =~= before + mfa_from(s@, i as int));
        i += 1;
    }
    assert(out@ + mfa_from(s@, i as int) =~= out@);
    out
}


// ───────────────────────── Authorization headers ─────────────────────────

pub open spec fn auth_pat() -> Seq<char> {
    seq!['a', 'u', 't', 'h', 'o', 'r', 'i', 'z', 'a', 't', 'i', 'o', 'n']
}

pub open spec fn bot_pat() -> Seq<char> {
    seq!['b', 'o', 't', ' ']
}

pub open spec fn bearer_pat() -> Seq<char> {
    seq!['b', 'e', 'a', 'r', 'e', 'r', ' ']
}

/// First index at or after `j` that is not a space.
pub open spec fn skip_spaces(s: Seq<char>, j: int) -> int
    decreases s.len() - j,
{
    if 0 <= j < s.len() && s[j] == ' ' { skip_spaces(s, j + 1) } else { j }
}

proof fn lemma_skip_spaces(s: Seq<char>, j: int)
    requires
        0 <= j <= s.len(),
    ensures
        j <= skip_spaces(s, j) <= s.len(),
    decreases s.len() - j,
{
    if j < s.len() && s[j] == ' ' {
        lemma_skip_spaces(s, j + 1);
    }
}

/// Start of the header value after the colon at `colon`: spaces and an
/// optional `Bot ` / `Bearer ` scheme (any case) skipped.
pub open spec fn auth_value_start(s: Seq<char>, colon: int) -> int {
    let v = skip_spaces(s, colon + 1);
    let lower = lower_seq(s);
    if matches_at(lower, v, bot_pat()) {
        v + 4
    } else if matches_at(lower, v, bearer_pat()) {
        v + 7
    } else {
        v
    }
}

/// `s[done..]` with the value of every `authorization` header (any
/// case) found from `scan` on replaced by `[REDACTED]`: after the first
/// colon, spaces and an optional `Bot `/`Bearer ` scheme are skipped, and a
/// value of more than eight word characters is masked. Positions are those
/// of `s`; a value that starts inside one already masked is the same value.
pub open spec fn auth_from(s: Seq<char>, scan: int, done: int) -> Seq<char>
    decreases s.len() - scan,
{
    if scan < 0 || scan >= s.len() {
        s.subrange(done, s.len() as int)
    } else {
        match find_spec(lower_seq(s), auth_pat(), scan) {
            None => s.subrange(done, s.len() as int),
            Some(abs) => {
                proof { lemma_find_spec(lower_seq(s), auth_pat(), scan); }
                match find_spec(s, seq![':'], abs) {
                    None => auth_from(s, abs + 13, done),
                    Some(colon) => {
                        let v = auth_value_start(s, colon);
                        let end = word_end(s, v);
                        if end > v + 8 && done <= v {
                            s.subrange(done, v) + "[REDACTED]"@ + auth_from(s, abs + 13, end)
                        } else {
                            auth_from(s, abs + 13, done)
                        }
                    },
                }
            },
        }
    }
}

/// `s` with the values of its `Authorization:` headers redacted.
pub open spec fn auth_scrub(s: Seq<char>) -> Seq<char> {
    auth_from(s, 0, 0)
}

/// Where a header value starts and ends stays inside the line.
proof fn lemma_auth_value(s: Seq<char>, colon: int)
    requires
        0 <= colon < s.len(),
    ensures
        colon < auth_value_start(s, colon) <= s.len(),
        auth_value_start(s, colon) <= word_end(s, auth_value_start(s, colon)) <= s.len(),
{
    lemma_skip_spaces(s, colon + 1);
    let v = auth_value_start(s, colon);
    lemma_word_end(s, v);
}

fn skip_spaces_exec(s: &[char], j: usize) -> (r: usize)
    requires
        j <= s@.len(),
    ensures
        r == skip_spaces(s@, j as int),
{
    let mut k = j;
    while k < s.len() && s[k] == ' '
        invariant
            j <= k <= s@.len(),
            skip_spaces(s@, k as int) == skip_spaces(s@, j as int),
        decreases s.len() - k,
    {
        k += 1;
    }
    k
}

fn scrub_auth_header(s: &[char]) -> (r: Vec<char>)
    ensures
        r@ == auth_scrub(s@),
{
    let lower = lower_chars(s);
    let pat = ['a', 'u', 't', 'h', 'o', 'r', 'i', 'z', 'a', 't', 'i', 'o', 'n'];
    let bot = ['b', 'o', 't', ' '];
    let bearer = ['b', 'e', 'a', 'r', 'e', 'r', ' '];
    let colon_p = [':'];
    assert(pat@ =~= auth_pat());
    assert(bot@ =~= bot_pat());
    assert(bearer@ =~= bearer_pat());
    assert(colon_p@ =~= seq![':']);
    let red = chars_of("[REDACTED]");
    let mut out: Vec<char> = Vec::new();
    let mut done: usize = 0;
    let mut scan: usize = 0;
    while scan < s.len()
        invariant
            lower@ == lower_seq(s@),
            lower@.len() == s@.len(),
            pat@ == auth_pat(),
            bot@ == bot_pat(),
            bearer@ == bearer_pat(),
            colon_p@ == seq![':'],
            red@ == "[REDACTED]"@,
            scan <= s@.len(),
            done <= s@.len(),
            out@ + auth_from(s@, scan as int, done as int) == auth_scrub(s@),
        decreases s.len() - scan,
    {
        proof { lemma_find_spec(lower@, auth_pat(), scan as int); }
        let ghost out0 = out@;
        let ghost done0 = done as int;
        let abs = match find_from(lower.as_slice(), pat.as_slice(), scan) {
            None => {
                let rest = slice_range(s, done, s.len());
                append(&mut out, rest.as_slice());
                return out;
            }
            Some(a) => a,
        };
        proof { lemma_find_spec(s@, seq![':'], abs as int); }
        match find_from(s, colon_p.as_slice(), abs) {
            None => {}
            Some(colon) => {
                proof { lemma_auth_value(s@, colon as int); }
                let mut v = skip_spaces_exec(s, colon + 1);
                proof { lemma_skip_spaces(s@, colon + 1); }
                if chars_match_at(lower.as_slice(), v, bot.as_slice()) {
                    v = v + 4;
                } else if chars_match_at(lower.as_slice(), v, bearer.as_slice()) {
                    v = v + 7;
                }
                assert(v == auth_value_start(s@, colon as int));
                let end = word_end_exec(s, v);
                if end > v && end - v > 8 && done <= v {
                    let kept = slice_range(s, done, v);
                    append(&mut out, kept.as_slice());
                    append(&mut out, red.as_slice());
                    done = end;
                }
            }
        }
        assert(out0 + auth_from(s@, scan as int, done0) =~= out@ + auth_from(s@, abs + 13, done as int));
        if abs >= s.len() || s.len() - abs <= 13 {
            let rest = slice_range(s, done, s.len());
            append(&mut out, rest.as_slice());
            return out;
        }
        scan = abs + 13;
    }
    let rest = slice_range(s, done, s.len());
    append(&mut out, rest.as_slice());
    out
}

// ───────────────────────── the live token never survives ─────────────────────────

/// No `[` or `]` in `t` (true of every Discord token).
pub open spec fn bracket_free(t: Seq<char>) -> bool {
    forall|k: int| 0 <= k < t.len() ==> #[trigger] t[k] != '[' && t[k] != ']'
}

/// What the passes insert: bracketed, at most twelve characters.
pub open spec fn is_block(b: Seq<char>) -> bool {
    2 <= b.len() <= 12 && b[0] == '[' && b[b.len() - 1] == ']'
}

proof fn lemma_bf_sub(y: Seq<char>, a: int, b: int)
    requires
        bracket_free(y),
        0 <= a <= b <= y.len(),
    ensures
        bracket_free(y.subrange(a, b)),
{
    assert forall|q: int| 0 <= q < y.subrange(a, b).len() implies #[trigger] y.subrange(a, b)[q] != '[' && y.subrange(a, b)[q] != ']' by {
        assert(y.subrange(a, b)[q] == y[a + q]);
    }
}

/// `x.take(n)` is `head + rest.take(n - head.len())` for `x = head + rest`.
proof fn lemma_take_concat(head: Seq<char>, rest: Seq<char>, n: int)
    requires
        head.len() <= n <= head.len() + rest.len(),
    ensures
        (head + rest).take(n) =~= head + rest.take(n - head.len()),
        rest.take(n - head.len()) =~= (head + rest).take(n).subrange(head.len() as int, n),
{
}

proof fn lemma_contains_sub(x: Seq<char>, a: int, b: int, t: Seq<char>)
    requires
        0 <= a <= b <= x.len(),
        contains_seq(x.subrange(a, b), t),
    ensures
        contains_seq(x, t),
{
    let y = x.subrange(a, b);
    let k = choose|k: int| 0 <= k <= y.len() - t.len() && #[trigger] matches_at(y, k, t);
    assert(y.subrange(k, k + t.len()) =~= x.subrange(a + k, a + k + t.len()));
    assert(matches_at(x, a + k, t));
}

/// An occurrence of a long bracket-free `t` in `a + b + c`, with `b` a
/// block, lies in `a` or in `c`.
proof fn lemma_block_gap(a: Seq<char>, b: Seq<char>, c: Seq<char>, t: Seq<char>)
    requires
        is_block(b),
        bracket_free(t),
        t.len() > 10,
        contains_seq(a + b + c, t),
    ensures
        contains_seq(a, t) || contains_seq(c, t),
{
    let x = a + b + c;
    let n = t.len() as int;
    let k = choose|k: int| 0 <= k <= x.len() - t.len() && #[trigger] matches_at(x, k, t);
    assert(x.subrange(k, k + n) =~= t);
    if k + n <= a.len() {
        assert(x.subrange(k, k + n) =~= a.subrange(k, k + n));
        assert(matches_at(a, k, t));
    } else if k >= a.len() + b.len() {
        let k2 = k - a.len() - b.len();
        assert(x.subrange(k, k + n) =~= c.subrange(k2, k2 + n));
        assert(matches_at(c, k2, t));
    } else if k <= a.len() {
        let j = a.len() - k;
        assert(x[a.len() as int] == '[');
        assert(t[j] == x.subrange(k, k + n)[j]);
    } else if k + n >= a.len() + b.len() {
        let j = a.len() + b.len() - 1 - k;
        assert(x[a.len() + b.len() - 1] == ']');
        assert(t[j] == x.subrange(k, k + n)[j]);
    }
}

/// A copied stretch `s[i..e]` followed by `rest` holds no `t` when
/// `s[i..]` and `rest` hold none and every short bracket-free prefix of
/// `rest` is copied from `s[e..]`.
proof fn lemma_copy_then(s: Seq<char>, i: int, e: int, rest: Seq<char>, t: Seq<char>)
    requires
        0 <= i <= e <= s.len(),
        bracket_free(t),
        t.len() > 10,
        !contains_seq(s.subrange(i, s.len() as int), t),
        !contains_seq(rest, t),
        forall|m: int| 0 <= m < t.len() && m <= rest.len() && #[trigger] bracket_free(rest.take(m))
            ==> e + m <= s.len() && rest.take(m) =~= s.subrange(e, e + m),
    ensures
        !contains_seq(s.subrange(i, e) + rest, t),
{
    let w = s.subrange(i, e);
    let x = w + rest;
    let n = t.len() as int;
    if contains_seq(x, t) {
        let k = choose|k: int| 0 <= k <= x.len() - t.len() && #[trigger] matches_at(x, k, t);
        assert(x.subrange(k, k + n) =~= t);
        if k + n <= w.len() {
            assert(x.subrange(k, k + n) =~= s.subrange(i, s.len() as int).subrange(k, k + n));
            assert(matches_at(s.subrange(i, s.len() as int), k, t));
        } else if k >= w.len() {
            let k2 = k - w.len();
            assert(x.subrange(k, k + n) =~= rest.subrange(k2, k2 + n));
            assert(matches_at(rest, k2, t));
        } else {
            let m = k + n - w.len();
            assert(rest.take(m) =~= t.subrange(w.len() - k, n));
            assert(bracket_free(rest.take(m))) by {
                assert forall|q: int| 0 <= q < rest.take(m).len() implies #[trigger] rest.take(m)[q] != '[' && rest.take(m)[q] != ']' by {
                    assert(rest.take(m)[q] == t[w.len() - k + q]);
                }
            }
            assert(rest.take(m) =~= s.subrange(e, e + m));
            assert(s.subrange(i, s.len() as int).subrange(k, k + n) =~= t) by {
                assert forall|q: int| 0 <= q < n implies #[trigger] s.subrange(i, s.len() as int).subrange(k, k + n)[q] == t[q] by {
                    if k + q < w.len() {
                        assert(x[k + q] == w[k + q]);
                    } else {
                        assert(x[k + q] == rest[k + q - w.len()]);
                        assert(rest.take(m)[k + q - w.len()] == s[e + (k + q - w.len())]);
                    }
                }
            }
            assert(matches_at(s.subrange(i, s.len() as int), k, t));
        }
    }
}

proof fn lemma_block_then(b: Seq<char>, rest: Seq<char>, t: Seq<char>)
    requires
        is_block(b),
        bracket_free(t),
        t.len() > 10,
        !contains_seq(rest, t),
    ensures
        !contains_seq(b + rest, t),
{
    if contains_seq(b + rest, t) {
        assert(seq![] + b + rest =~= b + rest);
        lemma_block_gap(seq![], b, rest, t);
    }
}

proof fn lemma_suffix_clean(s: Seq<char>, i: int, e: int, t: Seq<char>)
    requires
        0 <= i <= e <= s.len(),
        !contains_seq(s.subrange(i, s.len() as int), t),
    ensures
        !contains_seq(s.subrange(e, s.len() as int), t),
{
    if contains_seq(s.subrange(e, s.len() as int), t) {
        assert(s.subrange(i, s.len() as int).subrange(e - i, s.len() - i) =~= s.subrange(e, s.len() as int));
        lemma_contains_sub(s.subrange(i, s.len() as int), e - i, s.len() - i, t);
    }
}

proof fn lemma_blocks()
    ensures
        is_block("[REDACTED]"@),
        is_block("[REDACTED..]"@),
        "mfa.[REDACTED]"@ =~= mfa_pat() + "[REDACTED]"@,
{
    reveal_strlit("[REDACTED]");
    reveal_strlit("[REDACTED..]");
    reveal_strlit("mfa.[REDACTED]");
}

/// A bracket-free prefix of `replace_from(s, t, "[REDACTED]", i)` is copied
/// from `s[i..]`.
proof fn lemma_replace_prefix(s: Seq<char>, t: Seq<char>, i: int, n: int)
    requires
        0 <= i <= s.len(),
        t.len() > 0,
        0 <= n <= replace_from(s, t, "[REDACTED]"@, i).len(),
        bracket_free(replace_from(s, t, "[REDACTED]"@, i).take(n)),
    ensures
        i + n <= s.len(),
        replace_from(s, t, "[REDACTED]"@, i).take(n) =~= s.subrange(i, i + n),
    decreases s.len() - i,
{
    lemma_blocks();
    let x = replace_from(s, t, "[REDACTED]"@, i);
    if i >= s.len() {
        assert(x.len() == 0);
    } else if n > 0 {
        if matches_at(s, i, t) {
            assert(x =~= "[REDACTED]"@ + replace_from(s, t, "[REDACTED]"@, i + t.len()));
            assert(x.take(n)[0] == '[');
        } else {
            let rest = replace_from(s, t, "[REDACTED]"@, i + 1);
            assert(x =~= seq![s[i]] + rest);
            lemma_take_concat(seq![s[i]], rest, n);
            lemma_bf_sub(x.take(n), 1, n);
            lemma_replace_prefix(s, t, i + 1, n - 1);
            assert(x.take(n) =~= s.subrange(i, i + n));
        }
    }
}

/// After the live-token pass no occurrence of the token is left.
proof fn lemma_replace_removes(s: Seq<char>, t: Seq<char>, i: int)
    requires
        0 <= i <= s.len(),
        bracket_free(t),
        t.len() > 10,
    ensures
        !contains_seq(replace_from(s, t, "[REDACTED]"@, i), t),
    decreases s.len() - i,
{
    lemma_blocks();
    if i < s.len() {
        if matches_at(s, i, t) {
            lemma_replace_removes(s, t, i + t.len());
            lemma_block_then("[REDACTED]"@, replace_from(s, t, "[REDACTED]"@, i + t.len()), t);
        } else {
            let rest = replace_from(s, t, "[REDACTED]"@, i + 1);
            lemma_replace_removes(s, t, i + 1);
            let x = seq![s[i]] + rest;
            assert(replace_from(s, t, "[REDACTED]"@, i) =~= x);
            let n = t.len() as int;
            if contains_seq(x, t) {
                let k = choose|k: int| 0 <= k <= x.len() - t.len() && #[trigger] matches_at(x, k, t);
                assert(x.subrange(k, k + n) =~= t);
                if k >= 1 {
                    assert(x.subrange(k, k + n) =~= rest.subrange(k - 1, k - 1 + n));
                    assert(matches_at(rest, k - 1, t));
                } else {
                    assert(rest.take(n - 1) =~= t.skip(1));
                    assert(bracket_free(rest.take(n - 1))) by {
                        assert forall|q: int| 0 <= q < rest.take(n - 1).len() implies #[trigger] rest.take(n - 1)[q] != '[' && rest.take(n - 1)[q] != ']' by {
                            assert(rest.take(n - 1)[q] == t[q + 1]);
                        }
                    }
                    lemma_replace_prefix(s, t, i + 1, n - 1);
                    assert(s.subrange(i, i + n) =~= t) by {
                        assert forall|q: int| 0 <= q < n implies #[trigger] s.subrange(i, i + n)[q] == t[q] by {
                            if q > 0 {
                                assert(rest.take(n - 1)[q - 1] == s[i + 1 + (q - 1)]);
                                assert(x[q] == rest[q - 1]);
                            }
                        }
                    }
                    assert(matches_at(s, i, t));
                }
            }
        }
    }
}

/// A bracket-free prefix of `pattern_from(s, i)` is copied from `s[i..]`.
proof fn lemma_pattern_prefix(s: Seq<char>, i: int, n: int)
    requires
        0 <= i <= s.len(),
        0 <= n <= pattern_from(s, i).len(),
        bracket_free(pattern_from(s, i).take(n)),
    ensures
        i + n <= s.len(),
        pattern_from(s, i).take(n) =~= s.subrange(i, i + n),
    decreases s.len() - i,
{
    lemma_blocks();
    let x = pattern_from(s, i);
    if i >= s.len() {
        assert(x.len() == 0);
    } else if n > 0 {
        if word_char(s[i]) {
            lemma_word_end(s, i);
            let e = word_end(s, i);
            let w = s.subrange(i, e);
            let rest = pattern_from(s, e);
            if token_like(w) {
                assert(x =~= redacted_word(w) + rest);
                assert(x.take(n)[0] == redacted_word(w)[0]);
            } else {
                assert(x =~= w + rest);
                if n > w.len() {
                    lemma_take_concat(w, rest, n);
                    lemma_bf_sub(x.take(n), w.len() as int, n);
                    lemma_pattern_prefix(s, e, n - w.len());
                    assert(x.take(n) =~= s.subrange(i, i + n));
                } else {
                    assert(x.take(n) =~= w.take(n));
                    assert(x.take(n) =~= s.subrange(i, i + n));
                }
            }
        } else {
            let rest = pattern_from(s, i + 1);
            assert(x =~= seq![s[i]] + rest);
            lemma_take_concat(seq![s[i]], rest, n);
            lemma_bf_sub(x.take(n), 1, n);
            lemma_pattern_prefix(s, i + 1, n - 1);
            assert(x.take(n) =~= s.subrange(i, i + n));
        }
    }
}

proof fn lemma_pattern_keeps_out(s: Seq<char>, i: int, t: Seq<char>)
    requires
        0 <= i <= s.len(),
        bracket_free(t),
        t.len() > 10,
        !contains_seq(s.subrange(i, s.len() as int), t),
    ensures
        !contains_seq(pattern_from(s, i), t),
    decreases s.len() - i,
{
    lemma_blocks();
    if i < s.len() {
        let e = if word_char(s[i]) { word_end(s, i) } else { i + 1 };
        lemma_word_end(s, i);
        lemma_suffix_clean(s, i, e, t);
        lemma_pattern_keeps_out(s, e, t);
        let rest = pattern_from(s, e);
        if word_char(s[i]) && token_like(s.subrange(i, e)) {
            lemma_block_then(redacted_word(s.subrange(i, e)), rest, t);
        } else {
            assert forall|m: int| 0 <= m < t.len() && m <= rest.len() && #[trigger] bracket_free(rest.take(m))
                implies e + m <= s.len() && rest.take(m) =~= s.subrange(e, e + m) by {
                lemma_pattern_prefix(s, e, m);
            }
            lemma_copy_then(s, i, e, rest, t);
            assert(pattern_from(s, i) =~= s.subrange(i, e) + rest);
        }
    }
}

/// A bracket-free prefix of `mfa_from(s, i)` is copied from `s[i..]`.
proof fn lemma_mfa_prefix(s: Seq<char>, i: int, n: int)
    requires
        0 <= i <= s.len(),
        0 <= n <= mfa_from(s, i).len(),
        bracket_free(mfa_from(s, i).take(n)),
    ensures
        i + n <= s.len(),
        mfa_from(s, i).take(n) =~= s.subrange(i, i + n),
    decreases s.len() - i,
{
    lemma_blocks();
    let x = mfa_from(s, i);
    if i >= s.len() {
        assert(x.len() == 0);
    } else if n > 0 {
        if matches_at(s, i, mfa_pat()) && mfa_end(s, i + 4) - (i + 4) >= 24 {
            lemma_mfa_end(s, i + 4);
            let rest = mfa_from(s, mfa_end(s, i + 4));
            assert(x =~= mfa_pat() + "[REDACTED]"@ + rest);
            if n > 4 {
                assert(x.take(n)[4] == x[4]);
                assert(x[4] == '[');
            }
            assert(s.subrange(i, i + 4) =~= mfa_pat());
            assert(x.take(n) =~= s.subrange(i, i + n)) by {
                assert forall|q: int| 0 <= q < n implies #[trigger] x.take(n)[q] == s.subrange(i, i + n)[q] by {
                    assert(x[q] == mfa_pat()[q]);
                    assert(s.subrange(i, i + 4)[q] == s[i + q]);
                }
            }
        } else {
            let rest = mfa_from(s, i + 1);
            assert(x =~= seq![s[i]] + rest);
            lemma_take_concat(seq![s[i]], rest, n);
            lemma_bf_sub(x.take(n), 1, n);
            lemma_mfa_prefix(s, i + 1, n - 1);
            assert(x.take(n) =~= s.subrange(i, i + n));
        }
    }
}

proof fn lemma_mfa_keeps_out(s: Seq<char>, i: int, t: Seq<char>)
    requires
        0 <= i <= s.len(),
        bracket_free(t),
        t.len() > 10,
        !contains_seq(s.subrange(i, s.len() as int), t),
    ensures
        !contains_seq(mfa_from(s, i), t),
    decreases s.len() - i,
{
    lemma_blocks();
    if i < s.len() {
        if matches_at(s, i, mfa_pat()) && mfa_end(s, i + 4) - (i + 4) >= 24 {
            lemma_mfa_end(s, i + 4);
            let e = mfa_end(s, i + 4);
            lemma_suffix_clean(s, i, e, t);
            lemma_mfa_keeps_out(s, e, t);
            let rest = mfa_from(s, e);
            assert(mfa_from(s, i) =~= mfa_pat() + "[REDACTED]"@ + rest);
            if contains_seq(mfa_from(s, i), t) {
                lemma_block_gap(mfa_pat(), "[REDACTED]"@, rest, t);
            }
        } else {
            lemma_suffix_clean(s, i, i + 1, t);
            lemma_mfa_keeps_out(s, i + 1, t);
            let rest = mfa_from(s, i + 1);
            assert forall|m: int| 0 <= m < t.len() && m <= rest.len() && #[trigger] bracket_free(rest.take(m))
                implies i + 1 + m <= s.len() && rest.take(m) =~= s.subrange(i + 1, i + 1 + m) by {
                lemma_mfa_prefix(s, i + 1, m);
            }
            lemma_copy_then(s, i, i + 1, rest, t);
            assert(mfa_from(s, i) =~= s.subrange(i, i + 1) + rest);
        }
    }
}

proof fn lemma_auth_keeps_out(s: Seq<char>, scan: int, done: int, t: Seq<char>)
    requires
        0 <= done <= s.len(),
        bracket_free(t),
        t.len() > 10,
        !contains_seq(s.subrange(done, s.len() as int), t),
    ensures
        !contains_seq(auth_from(s, scan, done), t),
    decreases s.len() - scan,
{
    lemma_blocks();
    if 0 <= scan < s.len() {
        lemma_find_spec(lower_seq(s), auth_pat(), scan);
        if let Some(abs) = find_spec(lower_seq(s), auth_pat(), scan) {
            lemma_find_spec(s, seq![':'], abs);
            match find_spec(s, seq![':'], abs) {
                None => {
                    lemma_auth_keeps_out(s, abs + 13, done, t);
                },
                Some(colon) => {
                    lemma_auth_value(s, colon);
                    let v = auth_value_start(s, colon);
                    let end = word_end(s, v);
                    if end > v + 8 && done <= v {
                        lemma_suffix_clean(s, done, end, t);
                        lemma_auth_keeps_out(s, abs + 13, end, t);
                        let rest = auth_from(s, abs + 13, end);
                        lemma_block_then("[REDACTED]"@, rest, t);
                        let r2 = "[REDACTED]"@ + rest;
                        assert forall|m: int| 0 <= m < t.len() && m <= r2.len() && #[trigger] bracket_free(r2.take(m))
                            implies v + m <= s.len() && r2.take(m) =~= s.subrange(v, v + m) by {
                            if m > 0 {
                                assert(r2.take(m)[0] == '[');
                            }
                        }
                        lemma_copy_then(s, done, v, r2, t);
                        assert(auth_from(s, scan, done) =~= s.subrange(done, v) + r2);
                    } else {
                        lemma_auth_keeps_out(s, abs + 13, done, t);
                    }
                },
            }
        }
    }
}

/// The live token never survives redaction: a token longer than ten
/// characters and free of brackets (every Discord token) does not occur
/// anywhere in the redacted line.
pub proof fn law_live_token_never_logged(s: Seq<char>, t: Seq<char>)
    requires
        t.len() > 10,
        bracket_free(t),
    ensures
        !contains_seq(redact_spec(s, Some(t)), t),
{
    let a = if contains_seq(s, t) { replace_from(s, t, "[REDACTED]"@, 0) } else { s };
    if contains_seq(s, t) {
        lemma_replace_removes(s, t, 0);
    }
    assert(a.subrange(0, a.len() as int) =~= a);
    lemma_pattern_keeps_out(a, 0, t);
    let p = pattern_from(a, 0);
    assert(p.subrange(0, p.len() as int) =~= p);
    lemma_mfa_keeps_out(p, 0, t);
    let m = mfa_from(p, 0);
    assert(m.subrange(0, m.len() as int) =~= m);
    lemma_auth_keeps_out(m, 0, 0, t);
}

/// Every maximal run of word characters in `s` is not token-shaped.
pub open spec fn no_token_words(s: Seq<char>) -> bool {
    forall|i: int|
        0 <= i < s.len() && #[trigger] word_char(s[i]) && (i == 0 || !word_char(s[i - 1]))
            ==> !token_like(s.subrange(i, word_end(s, i)))
}

/// No `mfa.` in `s` is followed by 24 or more token characters.
pub open spec fn no_mfa_tokens(s: Seq<char>) -> bool {
    forall|i: int| #[trigger] matches_at(s, i, mfa_pat()) ==> mfa_end(s, i + 4) - (i + 4) < 24
}

proof fn lemma_pattern_plain(s: Seq<char>, i: int)
    requires
        no_token_words(s),
        0 <= i,
        i == 0 || i >= s.len() || !word_char(s[i - 1]) || !word_char(s[i]),
    ensures
        pattern_from(s, i) == (if i < s.len() { s.subrange(i, s.len() as int) } else { seq![] }),
    decreases s.len() - i,
{
    if i < s.len() {
        if word_char(s[i]) {
            let e = word_end(s, i);
            lemma_word_end(s, i);
            assert(!token_like(s.subrange(i, e)));
            if e < s.len() {
                assert(!word_char(s[e]));
            }
            lemma_pattern_plain(s, e);
            if e < s.len() {
                assert(s.subrange(i, e) + s.subrange(e, s.len() as int) =~= s.subrange(i, s.len() as int));
            } else {
                assert(s.subrange(i, e) + seq![] =~= s.subrange(i, s.len() as int));
            }
        } else {
            lemma_pattern_plain(s, i + 1);
            if i + 1 < s.len() {
                assert(seq![s[i]] + s.subrange(i + 1, s.len() as int) =~= s.subrange(i, s.len() as int));
            } else {
                assert(seq![s[i]] + seq![] =~= s.subrange(i, s.len() as int));
            }
        }
    }
}

proof fn lemma_mfa_plain(s: Seq<char>, i: int)
    requires
        no_mfa_tokens(s),
        0 <= i,
    ensures
        mfa_from(s, i) == (if i < s.len() { s.subrange(i, s.len() as int) } else { seq![] }),
    decreases s.len() - i,
{
    if i < s.len() {
        assert(!(matches_at(s, i, mfa_pat()) && mfa_end(s, i + 4) - (i + 4) >= 24));
        lemma_mfa_plain(s, i + 1);
        if i + 1 < s.len() {
            assert(seq![s[i]] + s.subrange(i + 1, s.len() as int) =~= s.subrange(i, s.len() as int));
        } else {
            assert(seq![s[i]] + seq![] =~= s.subrange(i, s.len() as int));
        }
    }
}

/// The shape passes, run after the live token is masked.
pub open spec fn scrub_passes(a: Seq<char>) -> Seq<char> {
    auth_scrub(mfa_from(pattern_from(a, 0), 0))
}

/// No secret shape: no `authorization` in any letter case, no `mfa.`
/// followed by 24 or more token characters, and no token-shaped word.
pub open spec fn shape_free(s: Seq<char>) -> bool {
    !contains_seq(lower_seq(s), auth_pat()) && no_mfa_tokens(s) && no_token_words(s)
}

proof fn lemma_passes_plain(s: Seq<char>)
    requires
        shape_free(s),
    ensures
        scrub_passes(s) == s,
{
    lemma_pattern_plain(s, 0);
    assert(pattern_from(s, 0) =~= s);
    lemma_mfa_plain(s, 0);
    let m = mfa_from(s, 0);
    assert(m =~= s);
    lemma_find_spec(lower_seq(s), auth_pat(), 0);
    if find_spec(lower_seq(s), auth_pat(), 0) is Some {
        let at = find_spec(lower_seq(s), auth_pat(), 0)->0;
        assert(matches_at(lower_seq(s), at, auth_pat()));
        assert(contains_seq(lower_seq(s), auth_pat()));
    }
    assert(s.subrange(0, s.len() as int) =~= s);
}

/// A line with none of the secret shapes comes back unchanged when no
/// live token is set.
pub proof fn law_plain_line_unchanged(s: Seq<char>)
    requires
        shape_free(s),
    ensures
        redact_spec(s, None) == s,
{
    lemma_passes_plain(s);
}

proof fn lemma_replace_none(s: Seq<char>, p: Seq<char>, r: Seq<char>, i: int)
    requires
        p.len() > 0,
        0 <= i,
        forall|j: int| i <= j ==> !#[trigger] matches_at(s, j, p),
    ensures
        replace_from(s, p, r, i) == (if i < s.len() { s.subrange(i, s.len() as int) } else { seq![] }),
    decreases s.len() - i,
{
    if i < s.len() {
        lemma_replace_none(s, p, r, i + 1);
        if i + 1 < s.len() {
            assert(seq![s[i]] + s.subrange(i + 1, s.len() as int) =~= s.subrange(i, s.len() as int));
        } else {
            assert(seq![s[i]] + seq![] =~= s.subrange(i, s.len() as int));
        }
    }
}

/// A new sign-in: once `set_live_token(token)` has recorded the trimmed
/// token, every later redaction first replaces each occurrence of it,
/// left to right, with `[REDACTED]`, then runs the shape passes; a line
/// with no other secret shape is then exactly the masked line.
pub proof fn law_new_sign_in_masks(token: Seq<char>, x: Seq<char>)
    requires
        trim(token).len() > 0,
    ensures
        redact_spec(x, Some(trim(token))) == scrub_passes(replace_from(x, trim(token), "[REDACTED]"@, 0)),
        shape_free(replace_from(x, trim(token), "[REDACTED]"@, 0))
            ==> redact_spec(x, Some(trim(token))) == replace_from(x, trim(token), "[REDACTED]"@, 0),
{
    let t = trim(token);
    let m = replace_from(x, t, "[REDACTED]"@, 0);
    if !contains_seq(x, t) {
        assert forall|j: int| 0 <= j implies !#[trigger] matches_at(x, j, t) by {
            if matches_at(x, j, t) {
                assert(0 <= j <= x.len() - t.len());
            }
        }
        lemma_replace_none(x, t, "[REDACTED]"@, 0);
        assert(m =~= x);
    }
    if shape_free(m) {
        lemma_passes_plain(m);
    }
}

// ───────────────────────── redact ─────────────────────────

pub open spec fn live_set(live: Option<Seq<char>>) -> bool {
    live matches Some(t) && t.len() > 0
}

/// Lines worth scanning: a live token is set, or the line holds `mfa.`,
/// `uthorization` in any letter case, or a dot.
pub open spec fn needs_scrub_spec(s: Seq<char>, live: Option<Seq<char>>) -> bool {
    live_set(live) || contains_seq(s, seq!['m', 'f', 'a', '.'])
        || contains_seq(lower_seq(s), seq!['u', 't', 'h', 'o', 'r', 'i', 'z', 'a', 't', 'i', 'o', 'n'])
        || contains_seq(s, seq!['.'])
}

/// The redacted line.
pub open spec fn redact_spec(s: Seq<char>, live: Option<Seq<char>>) -> Seq<char> {
    if !needs_scrub_spec(s, live) {
        s
    } else {
        let a = if live_set(live) && contains_seq(s, live->0) {
            replace_from(s, live->0, "[REDACTED]"@, 0)
        } else {
            s
        };
        scrub_passes(a)
    }
}

pub open spec fn opt_str(o: Option<&str>) -> Option<Seq<char>> {
    match o {
        Some(t) => Some(t@),
        None => None,
    }
}

fn needs_scrub(s: &[char], live: Option<&str>) -> (r: bool)
    ensures
        r == needs_scrub_spec(s@, opt_str(live)),
{
    if let Some(t) = live {
        if !t.is_empty() {
            return true;
        }
    }
    let mfa = ['m', 'f', 'a', '.'];
    let uth = ['u', 't', 'h', 'o', 'r', 'i', 'z', 'a', 't', 'i', 'o', 'n'];
    let dot = ['.'];
    assert(mfa@ =~= seq!['m', 'f', 'a', '.']);
    assert(uth@ =~= seq!['u', 't', 'h', 'o', 'r', 'i', 'z', 'a', 't', 'i', 'o', 'n']);
    assert(dot@ =~= seq!['.']);
    let lower = lower_chars(s);
    seq_contains(s, mfa.as_slice()) || seq_contains(lower.as_slice(), uth.as_slice()) || seq_contains(s, dot.as_slice())
}

/// Redact every known secret shape in `s`, with `live` the token set at
/// login (see [`set_live_token`]): the live token, token-shaped runs,
/// `mfa.` tokens and `Authorization` header values.
pub fn redact(s: &str, live: Option<&str>) -> (r: String)
    ensures
        r@ == redact_spec(s@, opt_str(live)),
{
    let cs = chars_of(s);
    if !needs_scrub(cs.as_slice(), live) {
        return string_of(cs.as_slice());
    }
    let mut a: Vec<char> = cs;
    if let Some(tok) = live {
        if !tok.is_empty() {
            let tc = chars_of(tok);
            if seq_contains(a.as_slice(), tc.as_slice()) {
                a = replace_all(a.as_slice(), tc.as_slice(), "[REDACTED]");
            }
        }
    }
    let b = scrub_pattern(a.as_slice());
    let c = scrub_mfa(b.as_slice());
    let d = scrub_auth_header(c.as_slice());
    string_of(d.as_slice())
}

} // verus!
