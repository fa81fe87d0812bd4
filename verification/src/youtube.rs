//! YouTube links in messages: finding the first video link and its id.
use vstd::prelude::*;
use vstd::string::StringSliceAdditionalSpecFns;
use crate::text::{chars_of, contains_seq, matches_at, find_from, find_spec, has_prefix, is_ascii_alnum, is_ws,
    char_is_ws, lemma_find_spec, lower_chars, lower_seq, pieces_view, push_char, push_str, seq_contains,
    split_chars, split_on, string_of, sub_chars};

verus! {

pub open spec fn id_char(c: char) -> bool {
    is_ascii_alnum(c) || c == '-' || c == '_'
}

/// An 11-character video id of letters, digits, `-` and `_`.
pub open spec fn is_vid(t: Seq<char>) -> bool {
    t.len() == 11 && forall|i: int| 0 <= i < t.len() ==> id_char(#[trigger] t[i])
}

/// The first eleven characters (all of them when there are fewer).
pub open spec fn take11(s: Seq<char>) -> Seq<char> {
    if s.len() >= 11 { s.take(11) } else { s }
}

/// What follows the first occurrence of `p`.
pub open spec fn after_first(s: Seq<char>, p: Seq<char>) -> Option<Seq<char>> {
    match find_spec(s, p, 0) {
        Some(k) => Some(s.skip(k + p.len())),
        None => None,
    }
}

/// The first `v=` parameter among `kvs[k..]` holding a valid id.
pub open spec fn query_id(kvs: Seq<Seq<char>>, k: int) -> Option<Seq<char>>
    decreases kvs.len() - k,
{
    if k < 0 || k >= kvs.len() {
        None
    } else if has_prefix(kvs[k], seq!['v', '=']) && is_vid(take11(kvs[k].skip(2))) {
        Some(take11(kvs[k].skip(2)))
    } else {
        query_id(kvs, k + 1)
    }
}

/// The id after the first `seg` (found case-insensitively), if valid.
pub open spec fn seg_id(url: Seq<char>, seg: Seq<char>) -> Option<Seq<char>> {
    match find_spec(lower_seq(url), seg, 0) {
        Some(idx) => if is_vid(take11(url.skip(idx + seg.len()))) {
            Some(take11(url.skip(idx + seg.len())))
        } else {
            None
        },
        None => None,
    }
}

pub open spec fn is_youtube(url: Seq<char>) -> bool {
    let low = lower_seq(url);
    contains_seq(low, "youtube.com/"@) || contains_seq(low, "youtu.be/"@)
        || contains_seq(low, "youtube-nocookie.com/"@)
}

/// Video id of a YouTube URL: `youtu.be/<id>`, then a `v=<id>` query
/// parameter, then `/shorts/`, `/embed/` or `/live/`.
pub open spec fn video_id_spec(url: Seq<char>) -> Option<Seq<char>> {
    if !is_youtube(url) {
        None
    } else if after_first(url, "youtu.be/"@) is Some && is_vid(take11(after_first(url, "youtu.be/"@)->0)) {
        Some(take11(after_first(url, "youtu.be/"@)->0))
    } else if after_first(url, seq!['?']) is Some && query_id(split_on(after_first(url, seq!['?'])->0, '&', 0), 0) is Some {
        query_id(split_on(after_first(url, seq!['?'])->0, '&', 0), 0)
    } else if seg_id(url, "shorts/"@) is Some {
        seg_id(url, "shorts/"@)
    } else if seg_id(url, "embed/"@) is Some {
        seg_id(url, "embed/"@)
    } else {
        seg_id(url, "live/"@)
    }
}

fn is_video_id(t: &[char]) -> (r: bool)
    ensures
        r == is_vid(t@),
{
    if t.len() != 11 {
        return false;
    }
    let mut i: usize = 0;
    while i < t.len()
        invariant
            i <= t@.len(),
            forall|j: int| 0 <= j < i ==> id_char(#[trigger] t@[j]),
        decreases t.len() - i,
    {
        let c = t[i];
        if !(('0' <= c && c <= '9') || ('a' <= c && c <= 'z') || ('A' <= c && c <= 'Z') || c == '-' || c == '_') {
            return false;
        }
        i += 1;
    }
    true
}

fn take11_exec(s: &[char], from: usize) -> (r: Vec<char>)
    requires
        from <= s@.len(),
    ensures
        r@ == take11(s@.skip(from as int)),
{
    let end = if s.len() - from >= 11 { from + 11 } else { s.len() };
    let r = sub_chars(s, from, end);
    assert(r@ =~= take11(s@.skip(from as int)));
    r
}

fn after_first_exec(s: &[char], p: &[char]) -> (r: Option<usize>)
    ensures
        r matches Some(start) ==> start <= s@.len() && after_first(s@, p@) == Some(s@.skip(start as int)),
        r is None ==> after_first(s@, p@) is None,
{
    proof { lemma_find_spec(s@, p@, 0); }
    let sl = s.len();
    let pl = p.len();
    match find_from(s, p, 0) {
        Some(k) => {
            assert(k + pl <= sl);
            Some(k + pl)
        }
        None => None,
    }
}

fn seg_id_exec(url: &[char], low: &[char], seg: &str) -> (r: Option<Vec<char>>)
    requires
        low@ == lower_seq(url@),
    ensures
        r matches Some(v) ==> seg_id(url@, seg@) == Some(v@),
        r is None ==> seg_id(url@, seg@) is None,
{
    let sc = chars_of(seg);
    proof { lemma_find_spec(low@, seg@, 0); }
    match find_from(low, sc.as_slice(), 0) {
        Some(idx) => {
            let ul = url.len();
            let scl = sc.len();
            assert(low@.len() == url@.len());
            assert(idx + scl <= ul);
            let t = take11_exec(url, idx + scl);
            if is_video_id(t.as_slice()) { Some(t) } else { None }
        }
        None => None,
    }
}

fn video_id_chars(url: &[char]) -> (r: Option<Vec<char>>)
    ensures
        r matches Some(v) ==> video_id_spec(url@) == Some(v@),
        r is None ==> video_id_spec(url@) is None,
{
    let low = lower_chars(url);
    let p1 = chars_of("youtube.com/");
    let p2 = chars_of("youtu.be/");
    let p3 = chars_of("youtube-nocookie.com/");
    if !(seq_contains(low.as_slice(), p1.as_slice()) || seq_contains(low.as_slice(), p2.as_slice())
        || seq_contains(low.as_slice(), p3.as_slice()))
    {
        return None;
    }
    assert(is_youtube(url@));
    if let Some(start) = after_first_exec(url, p2.as_slice()) {
        let t = take11_exec(url, start);
        if is_video_id(t.as_slice()) {
            return Some(t);
        }
    }
    assert(!(after_first(url@, "youtu.be/"@) is Some && is_vid(take11(after_first(url@, "youtu.be/"@)->0))));
    let q = ['?'];
    assert(q@ =~= seq!['?']);
    if let Some(start) = after_first_exec(url, q.as_slice()) {
        let query = sub_chars(url, start, url.len());
        assert(query@ =~= url@.skip(start as int));
        let kvs = split_chars(query.as_slice(), '&');
        let ghost kvv = pieces_view(kvs@);
        let mut k: usize = 0;
        while k < kvs.len()
            invariant
                k <= kvs@.len(),
                is_youtube(url@),
                !(after_first(url@, "youtu.be/"@) is Some && is_vid(take11(after_first(url@, "youtu.be/"@)->0))),
                after_first(url@, seq!['?']) == Some(query@),
                kvv == pieces_view(kvs@),
                kvv == split_on(query@, '&', 0),
                query_id(kvv, k as int) == query_id(kvv, 0),
            decreases kvs.len() - k,
        {
            let kv = kvs[k].as_slice();
            assert(kv@ == kvv[k as int]);
            if kv.len() >= 2 && kv[0] == 'v' && kv[1] == '=' {
                assert(has_prefix(kv@, seq!['v', '=']));
                let t = take11_exec(kv, 2);
                if is_video_id(t.as_slice()) {
                    return Some(t);
                }
            } else {
                assert(!has_prefix(kv@, seq!['v', '='])) by {
                    if kv@.len() >= 2 {
                        assert(kv@.subrange(0, 2)[0] == kv@[0]);
                        assert(kv@.subrange(0, 2)[1] == kv@[1]);
                    }
                }
            }
            k += 1;
        }
    }
    if let Some(t) = seg_id_exec(url, low.as_slice(), "shorts/") {
        return Some(t);
    }
    if let Some(t) = seg_id_exec(url, low.as_slice(), "embed/") {
        return Some(t);
    }
    seg_id_exec(url, low.as_slice(), "live/")
}

/// The video id of a YouTube URL.
pub fn extract_video_id(url: &str) -> (r: Option<String>)
    ensures
        r matches Some(v) ==> video_id_spec(url@) == Some(v@),
        r is None ==> video_id_spec(url@) is None,
{
    let cs = chars_of(url);
    match video_id_chars(cs.as_slice()) {
        Some(v) => Some(string_of(v.as_slice())),
        None => None,
    }
}

/// Whether an id has the 11-character video id shape.
pub fn is_video_id_str(id: &str) -> (r: bool)
    ensures
        r == is_vid(id@),
{
    let cs = chars_of(id);
    is_video_id(cs.as_slice())
}

pub open spec fn link_char(c: char) -> bool {
    is_ascii_alnum(c) || c == ':' || c == '/' || c == '.' || c == '=' || c == '?' || c == '-' || c == '_'
}

/// `w` with non-link characters trimmed from both ends.
pub open spec fn clean_word(w: Seq<char>) -> Seq<char> {
    w.subrange(clean_start(w, 0), clean_end(w, w.len() as int, clean_start(w, 0)))
}

pub open spec fn clean_start(w: Seq<char>, i: int) -> int
    decreases w.len() - i,
{
    if 0 <= i < w.len() && !link_char(w[i]) { clean_start(w, i + 1) } else { i }
}

pub open spec fn clean_end(w: Seq<char>, e: int, lo: int) -> int
    decreases e - lo,
{
    if lo < e && e <= w.len() && !link_char(w[e - 1]) { clean_end(w, e - 1, lo) } else { e }
}

pub proof fn lemma_clean_bounds(w: Seq<char>, i: int)
    requires
        0 <= i <= w.len(),
    ensures
        i <= clean_start(w, i) <= w.len(),
    decreases w.len() - i,
{
    if i < w.len() && !link_char(w[i]) {
        lemma_clean_bounds(w, i + 1);
    }
}

pub proof fn lemma_clean_end_bounds(w: Seq<char>, e: int, lo: int)
    requires
        0 <= lo <= e <= w.len(),
    ensures
        lo <= clean_end(w, e, lo) <= e,
    decreases e - lo,
{
    if lo < e && !link_char(w[e - 1]) {
        lemma_clean_end_bounds(w, e - 1, lo);
    }
}

/// End of the run of non-whitespace starting at `i`.
pub open spec fn word_stop(s: Seq<char>, i: int) -> int
    decreases s.len() - i,
{
    if 0 <= i < s.len() && !is_ws(s[i]) { word_stop(s, i + 1) } else { i }
}

pub proof fn lemma_word_stop(s: Seq<char>, i: int)
    requires
        0 <= i <= s.len(),
    ensures
        i <= word_stop(s, i) <= s.len(),
        i < s.len() && !is_ws(s[i]) ==> i < word_stop(s, i),
        word_stop(s, i) < s.len() ==> is_ws(s[word_stop(s, i)]),
        forall|k: int| i <= k < word_stop(s, i) ==> !is_ws(#[trigger] s[k]),
    decreases s.len() - i,
{
    if i < s.len() && !is_ws(s[i]) {
        lemma_word_stop(s, i + 1);
    }
}

/// The id of the first whitespace-separated word of `s[i..]` that is a
/// YouTube video link.
pub open spec fn find_link_from(s: Seq<char>, i: int) -> Option<Seq<char>>
    decreases s.len() - i,
{
    if i < 0 || i >= s.len() {
        None
    } else if is_ws(s[i]) {
        find_link_from(s, i + 1)
    } else {
        let e = word_stop(s, i);
        proof { lemma_word_stop(s, i); }
        match video_id_spec(clean_word(s.subrange(i, e))) {
            Some(id) => Some(id),
            None => find_link_from(s, e),
        }
    }
}

proof fn lemma_query_id_valid(kvs: Seq<Seq<char>>, k: int)
    ensures
        query_id(kvs, k) matches Some(id) ==> is_vid(id),
    decreases kvs.len() - k,
{
    if 0 <= k < kvs.len() {
        lemma_query_id_valid(kvs, k + 1);
    }
}

proof fn lemma_video_id_valid(url: Seq<char>)
    ensures
        video_id_spec(url) matches Some(id) ==> is_vid(id),
{
    if after_first(url, seq!['?']) is Some {
        lemma_query_id_valid(split_on(after_first(url, seq!['?'])->0, '&', 0), 0);
    }
}

proof fn lemma_find_link_valid(s: Seq<char>, i: int)
    ensures
        find_link_from(s, i) matches Some(id) ==> is_vid(id),
    decreases s.len() - i,
{
    if 0 <= i < s.len() {
        if is_ws(s[i]) {
            lemma_find_link_valid(s, i + 1);
        } else {
            let e = word_stop(s, i);
            lemma_word_stop(s, i);
            lemma_video_id_valid(clean_word(s.subrange(i, e)));
            lemma_find_link_valid(s, e);
        }
    }
}

/// A whole whitespace-separated word of `s`, from `i` to `e`, whose
/// trimmed form names a YouTube host.
pub open spec fn youtube_word_at(s: Seq<char>, i: int, e: int) -> bool {
    &&& 0 <= i < e <= s.len()
    &&& !is_ws(s[i])
    &&& (i == 0 || is_ws(s[i - 1]))
    &&& e == word_stop(s, i)
    &&& is_youtube(clean_word(s.subrange(i, e)))
}

proof fn lemma_found_link_has_host(s: Seq<char>, i: int)
    requires
        0 <= i,
        i == 0 || i >= s.len() || is_ws(s[i - 1]) || is_ws(s[i]),
    ensures
        find_link_from(s, i) is Some ==> exists|a: int, e: int| i <= a && #[trigger] youtube_word_at(s, a, e),
    decreases s.len() - i,
{
    if 0 <= i < s.len() {
        if is_ws(s[i]) {
            lemma_found_link_has_host(s, i + 1);
        } else {
            let e = word_stop(s, i);
            lemma_word_stop(s, i);
            if video_id_spec(clean_word(s.subrange(i, e))) is Some {
                assert(youtube_word_at(s, i, e));
            } else {
                lemma_found_link_has_host(s, e);
            }
        }
    }
}

/// `s[i..e]` is a whitespace-separated word of `s` that contains, ignoring
/// letter case, `youtube.com/`, `youtu.be/` or `youtube-nocookie.com/`.
pub open spec fn ws_word_names_youtube(s: Seq<char>, i: int, e: int) -> bool {
    &&& 0 <= i < e <= s.len()
    &&& (i == 0 || is_ws(s[i - 1]))
    &&& (e == s.len() || is_ws(s[e]))
    &&& forall|k: int| i <= k < e ==> !is_ws(#[trigger] s[k])
    &&& is_youtube(s.subrange(i, e))
}

proof fn lemma_contains_in_sub(x: Seq<char>, a: int, b: int, p: Seq<char>)
    requires
        0 <= a <= b <= x.len(),
        contains_seq(lower_seq(x.subrange(a, b)), p),
    ensures
        contains_seq(lower_seq(x), p),
{
    let y = lower_seq(x.subrange(a, b));
    assert(y =~= lower_seq(x).subrange(a, b));
    let j = choose|j: int| 0 <= j <= y.len() - p.len() && #[trigger] matches_at(y, j, p);
    assert(lower_seq(x).subrange(j + a, j + a + p.len()) =~= y.subrange(j, j + p.len()));
    assert(matches_at(lower_seq(x), j + a, p));
}

proof fn lemma_word_at_is_ws_word(s: Seq<char>, i: int, e: int)
    requires
        youtube_word_at(s, i, e),
    ensures
        ws_word_names_youtube(s, i, e),
{
    lemma_word_stop(s, i);
    let w = s.subrange(i, e);
    let a = clean_start(w, 0);
    lemma_clean_bounds(w, 0);
    let b = clean_end(w, w.len() as int, a);
    lemma_clean_end_bounds(w, w.len() as int, a);
    if contains_seq(lower_seq(w.subrange(a, b)), "youtube.com/"@) {
        lemma_contains_in_sub(w, a, b, "youtube.com/"@);
    }
    if contains_seq(lower_seq(w.subrange(a, b)), "youtu.be/"@) {
        lemma_contains_in_sub(w, a, b, "youtu.be/"@);
    }
    if contains_seq(lower_seq(w.subrange(a, b)), "youtube-nocookie.com/"@) {
        lemma_contains_in_sub(w, a, b, "youtube-nocookie.com/"@);
    }
}

/// A link is only found in a whitespace-separated word that contains,
/// ignoring letter case, `youtube.com/`, `youtu.be/` or
/// `youtube-nocookie.com/`; content with no such word has no link.
pub proof fn law_link_needs_youtube_word(s: Seq<char>)
    ensures
        find_link_from(s, 0) is Some ==> exists|i: int, e: int| #[trigger] ws_word_names_youtube(s, i, e),
{
    lemma_found_link_has_host(s, 0);
    if find_link_from(s, 0) is Some {
        let (i, e) = choose|i: int, e: int| 0 <= i && #[trigger] youtube_word_at(s, i, e);
        lemma_word_at_is_ws_word(s, i, e);
    }
}

/// Every link found names a real video id: eleven characters, each an
/// ASCII letter or digit, `-` or `_`.
pub proof fn law_found_link_is_video_id(s: Seq<char>)
    ensures
        find_link_from(s, 0) matches Some(id) ==> is_vid(id),
{
    lemma_find_link_valid(s, 0);
}

pub open spec fn watch_url(id: Seq<char>) -> Seq<char> {
    "https://www.youtube.com/watch?v="@ + id
}

fn is_link_char(c: char) -> (r: bool)
    ensures
        r == link_char(c),
{
    ('0' <= c && c <= '9') || ('a' <= c && c <= 'z') || ('A' <= c && c <= 'Z') || c == ':' || c == '/'
        || c == '.' || c == '=' || c == '?' || c == '-' || c == '_'
}

fn clean_word_exec(w: &[char]) -> (r: Vec<char>)
    ensures
        r@ == clean_word(w@),
{
    let mut i: usize = 0;
    while i < w.len() && !is_link_char(w[i])
        invariant
            i <= w@.len(),
            clean_start(w@, i as int) == clean_start(w@, 0),
        decreases w.len() - i,
    {
        i += 1;
    }
    let mut e: usize = w.len();
    while i < e && !is_link_char(w[e - 1])
        invariant
            i <= e <= w@.len(),
            i == clean_start(w@, 0),
            clean_end(w@, e as int, i as int) == clean_end(w@, w@.len() as int, i as int),
        decreases e - i,
    {
        e -= 1;
    }
    sub_chars(w, i, e)
}

/// The first YouTube video link in a message: `(video id, watch URL)`.
pub fn find_link(content: &str) -> (r: Option<(String, String)>)
    ensures
        r matches Some((id, url)) ==> find_link_from(content@, 0) == Some(id@) && url@ == watch_url(id@),
        r is None ==> find_link_from(content@, 0) is None,
{
    let s = chars_of(content);
    let mut i: usize = 0;
    while i < s.len()
        invariant
            s@ == content@,
            i <= s@.len(),
            find_link_from(s@, i as int) == find_link_from(s@, 0),
        decreases s.len() - i,
    {
        if char_is_ws(s[i]) {
            i += 1;
            continue;
        }
        let mut e = i;
        while e < s.len() && !char_is_ws(s[e])
            invariant
                i <= e <= s@.len(),
                word_stop(s@, e as int) == word_stop(s@, i as int),
            decreases s.len() - e,
        {
            e += 1;
        }
        proof { lemma_word_stop(s@, i as int); }
        let word = sub_chars(s.as_slice(), i, e);
        let cleaned = clean_word_exec(word.as_slice());
        if let Some(id) = video_id_chars(cleaned.as_slice()) {
            let ids = string_of(id.as_slice());
            let mut url = String::new();
            push_str(&mut url, "https://www.youtube.com/watch?v=");
            push_str(&mut url, ids.as_str());
            return Some((ids, url));
        }
        i = e;
    }
    None
}

// ───────────────────────── percent encoding ─────────────────────────

pub open spec fn url_safe_byte(b: u8) -> bool {
    b == 58 || b == 47 || b == 46 || b == 45 || b == 95 || b == 126
}

pub open spec fn hex_upper_digit(d: nat) -> char {
    if d < 10 { ((d + 48) as u32) as char } else { ((d + 55) as u32) as char }
}

/// Percent-encoding of every byte except `: / . - _ ~`.
pub open spec fn url_encode_spec(bytes: Seq<u8>) -> Seq<char>
    decreases bytes.len(),
{
    if bytes.len() == 0 {
        seq![]
    } else {
        let b = bytes.last();
        url_encode_spec(bytes.drop_last()) + (if url_safe_byte(b) {
            seq![(b as u32) as char]
        } else {
            seq!['%', hex_upper_digit((b / 16) as nat), hex_upper_digit((b % 16) as nat)]
        })
    }
}

fn hex_upper(d: u8) -> (c: char)
    requires
        d < 16,
    ensures
        c == hex_upper_digit(d as nat),
{
    let cs: [char; 16] = ['0', '1', '2', '3', '4', '5', '6', '7', '8', '9', 'A', 'B', 'C', 'D', 'E', 'F'];
    let c = cs[d as usize];
    assert(c == hex_upper_digit(d as nat)) by {
        assert(cs@ == seq!['0', '1', '2', '3', '4', '5', '6', '7', '8', '9', 'A', 'B', 'C', 'D', 'E', 'F']);
    }
    c
}

/// Percent-encode the bytes of `s` except `: / . - _ ~`.
pub fn simple_url_encode(s: &str) -> (r: String)
    ensures
        r@ == url_encode_spec(s.spec_bytes()),
{
    let bytes = s.as_bytes();
    let mut out = String::new();
    let mut i: usize = 0;
    while i < bytes.len()
        invariant
            bytes@ == s.spec_bytes(),
            i <= bytes@.len(),
            out@ == url_encode_spec(bytes@.take(i as int)),
        decreases bytes.len() - i,
    {
        let b = bytes[i];
        assert(bytes@.take(i + 1).drop_last() =~= bytes@.take(i as int));
        if b == 58 || b == 47 || b == 46 || b == 45 || b == 95 || b == 126 {
            let c: char = if b == 58 { ':' } else if b == 47 { '/' } else if b == 46 { '.' } else if b == 45 { '-' } else if b == 95 { '_' } else { '~' };
            push_char(&mut out, c);
        } else {
            push_char(&mut out, '%');
            push_char(&mut out, hex_upper(b / 16));
            push_char(&mut out, hex_upper(b % 16));
        }
        i += 1;
    }
    assert(bytes@.take(bytes@.len() as int) =~= bytes@);
    out
}

} // verus!
