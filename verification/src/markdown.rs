//! Discord message markdown tokenizer.
//!
//! Syntax: `**bold**`, `*italic*`, `***bold italic***`, `~~strike~~`,
//! `__underline__`, `||spoiler||`, `> quote`, `` `code` ``,
//! ```` ```code blocks``` ````, `<@user>`, `<@!user>`, `<@&role>`,
//! `<#channel>`, `<:name:id>` / `<a:name:id>` custom emoji and bare
//! `http(s)://` URLs. Lines split at '\n'; code blocks and quotes are
//! block tokens, everything else is tokenized inline.
use vstd::prelude::*;
use crate::model::{cdn, Rgb};
use crate::snowflake::Snowflake;
use crate::text::{chars_match_at, chars_of, dec, find_from, find_spec, is_ws, char_is_ws, lemma_find_spec,
    matches_at, parse_u64_chars, parse_u64_spec, push_dec, push_str, push_char, string_of, trim, trim_chars,
    trim_end, trim_end_chars, trim_start, trim_start_chars, unicode_alnum, char_is_alphanumeric, has_prefix};
use crate::emoji::slice_range;

verus! {

#[derive(Debug, Clone, PartialEq, Eq)]
pub enum Token {
    Text(String),
    Bold(String),
    Italic(String),
    BoldItalic(String),
    Strike(String),
    Underline(String),
    /// Inline code span.
    Code(String),
    /// Fenced code block with an optional language tag.
    CodeBlock { lang: Option<String>, code: String },
    Spoiler(String),
    /// A `> ` quoted line.
    Quote(String),
    /// Bare URL.
    Url { url: String, label: Option<String> },
    UserMention { id: Snowflake, label: String },
    RoleMention { id: Snowflake, label: String, color: Rgb },
    ChannelMention { id: Snowflake, label: String },
    /// `<:name:id>` (static) or `<a:name:id>` (animated).
    CustomEmoji { animated: bool, name: String, id: Snowflake, url: String },
    /// `:name:` unicode emoji.
    UnicodeEmoji { unicode: String, name: String },
    LineBreak,
    ParagraphBreak,
}

/// A token with its texts as character sequences.
pub enum TokenV {
    Text(Seq<char>),
    Bold(Seq<char>),
    Italic(Seq<char>),
    BoldItalic(Seq<char>),
    Strike(Seq<char>),
    Underline(Seq<char>),
    Code(Seq<char>),
    CodeBlock { lang: Option<Seq<char>>, code: Seq<char> },
    Spoiler(Seq<char>),
    Quote(Seq<char>),
    Url { url: Seq<char>, label: Option<Seq<char>> },
    UserMention { id: u64, label: Seq<char> },
    RoleMention { id: u64, label: Seq<char>, color: Rgb },
    ChannelMention { id: u64, label: Seq<char> },
    CustomEmoji { animated: bool, name: Seq<char>, id: u64, url: Seq<char> },
    UnicodeEmoji { unicode: Seq<char>, name: Seq<char> },
    LineBreak,
    ParagraphBreak,
}

pub open spec fn opt_seq(o: Option<String>) -> Option<Seq<char>> {
    match o {
        Some(s) => Some(s@),
        None => None,
    }
}

impl Token {
    pub open spec fn view(&self) -> TokenV {
        match self {
            Token::Text(s) => TokenV::Text(s@),
            Token::Bold(s) => TokenV::Bold(s@),
            Token::Italic(s) => TokenV::Italic(s@),
            Token::BoldItalic(s) => TokenV::BoldItalic(s@),
            Token::Strike(s) => TokenV::Strike(s@),
            Token::Underline(s) => TokenV::Underline(s@),
            Token::Code(s) => TokenV::Code(s@),
            Token::CodeBlock { lang, code } => TokenV::CodeBlock { lang: opt_seq(*lang), code: code@ },
            Token::Spoiler(s) => TokenV::Spoiler(s@),
            Token::Quote(s) => TokenV::Quote(s@),
            Token::Url { url, label } => TokenV::Url { url: url@, label: opt_seq(*label) },
            Token::UserMention { id, label } => TokenV::UserMention { id: id.0, label: label@ },
            Token::RoleMention { id, label, color } => TokenV::RoleMention { id: id.0, label: label@, color: *color },
            Token::ChannelMention { id, label } => TokenV::ChannelMention { id: id.0, label: label@ },
            Token::CustomEmoji { animated, name, id, url } =>
                TokenV::CustomEmoji { animated: *animated, name: name@, id: id.0, url: url@ },
            Token::UnicodeEmoji { unicode, name } => TokenV::UnicodeEmoji { unicode: unicode@, name: name@ },
            Token::LineBreak => TokenV::LineBreak,
            Token::ParagraphBreak => TokenV::ParagraphBreak,
        }
    }
}

pub open spec fn tokens_view(v: Seq<Token>) -> Seq<TokenV> {
    v.map_values(|t: Token| t.view())
}

/// Resolves the display labels of mentions. Implementations state what
/// each label is through the matching spec function.
pub trait MentionLookup {
    spec fn user_label_spec(&self, id: u64) -> Seq<char>;

    spec fn role_label_spec(&self, id: u64) -> Seq<char>;

    spec fn role_color_spec(&self, id: u64) -> Rgb;

    spec fn channel_label_spec(&self, id: u64) -> Seq<char>;

    fn user_label(&self, id: Snowflake) -> (r: String)
        ensures
            r@ == self.user_label_spec(id.0);

    fn role_label(&self, id: Snowflake) -> (r: (String, Rgb))
        ensures
            r.0@ == self.role_label_spec(id.0),
            r.1 == self.role_color_spec(id.0);

    fn channel_label(&self, id: Snowflake) -> (r: String)
        ensures
            r@ == self.channel_label_spec(id.0);
}

/// Without a lookup, a channel mention reads `#` and its id, and a user
/// mention `@` and its id: the label starts with the kind's sign and the
/// rest reads back as the mentioned id.
pub proof fn law_no_lookup_labels(id: u64)
    ensures
        NoLookup.channel_label_spec(id).len() > 1 && NoLookup.channel_label_spec(id)[0] == '#',
        parse_u64_spec(NoLookup.channel_label_spec(id).drop_first()) == Some(id),
        NoLookup.user_label_spec(id).len() > 1 && NoLookup.user_label_spec(id)[0] == '@',
        parse_u64_spec(NoLookup.user_label_spec(id).drop_first()) == Some(id),
{
    reveal_strlit("#");
    reveal_strlit("@");
    crate::snowflake::law_decimal_round_trip(Snowflake(id));
    crate::snowflake::lemma_dec_digits(id as nat);
    assert(NoLookup.channel_label_spec(id).drop_first() =~= dec(id as nat));
    assert(NoLookup.user_label_spec(id).drop_first() =~= dec(id as nat));
}

/// Labels from the raw ids: `@id`, `@role-id` (grey) and `#id`.
pub struct NoLookup;

impl MentionLookup for NoLookup {
    open spec fn user_label_spec(&self, id: u64) -> Seq<char> {
        "@"@ + dec(id as nat)
    }

    open spec fn role_label_spec(&self, id: u64) -> Seq<char> {
        "@role-"@ + dec(id as nat)
    }

    open spec fn role_color_spec(&self, id: u64) -> Rgb {
        Rgb { r: 0xB5, g: 0xBA, b: 0xC1 }
    }

    open spec fn channel_label_spec(&self, id: u64) -> Seq<char> {
        "#"@ + dec(id as nat)
    }

    fn user_label(&self, id: Snowflake) -> (r: String) {
        let mut s = String::new();
        push_str(&mut s, "@");
        push_dec(&mut s, id.0);
        s
    }

    fn role_label(&self, id: Snowflake) -> (r: (String, Rgb)) {
        let mut s = String::new();
        push_str(&mut s, "@role-");
        push_dec(&mut s, id.0);
        (s, Rgb { r: 0xB5, g: 0xBA, b: 0xC1 })
    }

    fn channel_label(&self, id: Snowflake) -> (r: String) {
        let mut s = String::new();
        push_str(&mut s, "#");
        push_dec(&mut s, id.0);
        s
    }
}

/// Whether `url::Url::parse` accepts the text with a host part.
pub uninterp spec fn url_parses_with_host(url: Seq<char>) -> bool;

/// `url::Url::parse(url)` succeeded and the URL has a host
/// (`host_str().is_some()`). The outcome is a function of the text.
#[verifier::external_body]
fn url_has_host(url: &str) -> (r: bool)
    ensures
        r == url_parses_with_host(url@),
{
    match url::Url::parse(url) {
        Ok(parsed) => parsed.host_str().is_some(),
        Err(_) => false,
    }
}

// ───────────────────────── inline recognizers ─────────────────────────

pub open spec fn emoji_cdn_url(id: u64, animated: bool) -> Seq<char> {
    cdn() + "emojis/"@ + dec(id as nat) + "."@ + (if animated { "gif"@ } else { "webp"@ })
        + "?size=48&quality=lossless"@
}

/// Index of the last `c` in `s`.
pub open spec fn last_index_of(s: Seq<char>, c: char) -> Option<int>
    decreases s.len(),
{
    if s.len() == 0 {
        None
    } else if s.last() == c {
        Some(s.len() - 1)
    } else {
        last_index_of(s.drop_last(), c)
    }
}

/// Offset of the name after `<` in a custom emoji (`<:` = 2, `<a:` = 3),
/// 0 when there is none.
pub open spec fn emoji_name_start(s: Seq<char>, i: int) -> int {
    if s.len() - i > 1 && s[i + 1] == ':' {
        2
    } else if s.len() - i > 2 && s[i + 1] == 'a' && s[i + 2] == ':' {
        3
    } else {
        0
    }
}

pub open spec fn try_custom_emoji(s: Seq<char>, i: int) -> Option<(TokenV, int)> {
    let st = emoji_name_start(s, i);
    if s[i] != '<' || st == 0 || !(s.len() - i > st) {
        None
    } else {
        match find_spec(s, seq!['>'], i + st) {
            None => None,
            Some(close) => {
                let inner = s.subrange(i + st, close);
                match last_index_of(inner, ':') {
                    None => None,
                    Some(k) => match parse_u64_spec(inner.skip(k + 1)) {
                        None => None,
                        Some(id) => Some((
                            TokenV::CustomEmoji {
                                animated: st == 3,
                                name: inner.take(k),
                                id,
                                url: emoji_cdn_url(id, st == 3),
                            },
                            close + 1,
                        )),
                    },
                }
            },
        }
    }
}

/// Mention kind (0 user, 1 role, 2 channel) and the id text after the
/// prefix (`@&`, `@!`, `@`, `#`, `&`, `!`, or none).
pub open spec fn mention_parts(inner: Seq<char>) -> (int, Seq<char>) {
    if inner.len() >= 2 && inner[0] == '@' && inner[1] == '&' {
        (1, inner.skip(2))
    } else if inner.len() >= 2 && inner[0] == '@' && inner[1] == '!' {
        (0, inner.skip(2))
    } else if inner.len() >= 1 && inner[0] == '@' {
        (0, inner.skip(1))
    } else if inner.len() >= 1 && inner[0] == '#' {
        (2, inner.skip(1))
    } else if inner.len() >= 1 && inner[0] == '&' {
        (1, inner.skip(1))
    } else if inner.len() >= 1 && inner[0] == '!' {
        (0, inner.skip(1))
    } else {
        (0, inner)
    }
}

pub open spec fn mention_token<L: MentionLookup>(kind: int, id: u64, l: L) -> TokenV {
    if kind == 1 {
        TokenV::RoleMention { id, label: l.role_label_spec(id), color: l.role_color_spec(id) }
    } else if kind == 2 {
        TokenV::ChannelMention { id, label: l.channel_label_spec(id) }
    } else {
        TokenV::UserMention { id, label: l.user_label_spec(id) }
    }
}

pub open spec fn try_mention<L: MentionLookup>(s: Seq<char>, i: int, l: L) -> Option<(TokenV, int)> {
    if s[i] != '<' || !(i + 1 < s.len()) {
        None
    } else {
        match find_spec(s, seq!['>'], i + 1) {
            None => None,
            Some(close) => {
                let (kind, id_str) = mention_parts(s.subrange(i + 1, close));
                match parse_u64_spec(id_str) {
                    None => None,
                    Some(id) => Some((mention_token(kind, id, l), close + 1)),
                }
            },
        }
    }
}

pub open spec fn url_terminator(c: char) -> bool {
    is_ws(c) || c == '<' || c == '>' || c == '|'
}

/// First index at or after `j` holding a URL terminator, else `s.len()`.
pub open spec fn url_end(s: Seq<char>, j: int) -> int
    decreases s.len() - j,
{
    if j < 0 || j >= s.len() {
        s.len() as int
    } else if url_terminator(s[j]) {
        j
    } else {
        url_end(s, j + 1)
    }
}

pub proof fn lemma_url_end(s: Seq<char>, j: int)
    requires
        0 <= j <= s.len(),
    ensures
        j <= url_end(s, j) <= s.len(),
    decreases s.len() - j,
{
    if j < s.len() && !url_terminator(s[j]) {
        lemma_url_end(s, j + 1);
    }
}

pub open spec fn http_pat() -> Seq<char> {
    seq!['h', 't', 't', 'p', ':', '/', '/']
}

pub open spec fn https_pat() -> Seq<char> {
    seq!['h', 't', 't', 'p', 's', ':', '/', '/']
}

pub open spec fn try_url(s: Seq<char>, i: int) -> Option<(TokenV, int)> {
    if s[i] == 'h' && i + 7 <= s.len() && (matches_at(s, i, http_pat()) || matches_at(s, i, https_pat())) {
        let e = url_end(s, i);
        let url = s.subrange(i, e);
        if url_parses_with_host(url) {
            Some((TokenV::Url { url, label: None }, e))
        } else {
            None
        }
    } else {
        None
    }
}

/// A span between `open` at `i` and the first later `close` delimiter.
pub open spec fn delimited(s: Seq<char>, i: int, d: Seq<char>) -> Option<(Seq<char>, int)> {
    if matches_at(s, i, d) {
        match find_spec(s, d, i + d.len()) {
            Some(close) => Some((s.subrange(i + d.len(), close), close + d.len())),
            None => None,
        }
    } else {
        None
    }
}

pub open spec fn try_code(s: Seq<char>, i: int) -> Option<(TokenV, int)> {
    match delimited(s, i, seq!['`']) {
        Some((t, n)) => Some((TokenV::Code(t), n)),
        None => None,
    }
}

pub open spec fn try_spoiler(s: Seq<char>, i: int) -> Option<(TokenV, int)> {
    match delimited(s, i, seq!['|', '|']) {
        Some((t, n)) => Some((TokenV::Spoiler(t), n)),
        None => None,
    }
}

pub open spec fn try_bold_italic(s: Seq<char>, i: int) -> Option<(TokenV, int)> {
    match delimited(s, i, seq!['*', '*', '*']) {
        Some((t, n)) => Some((TokenV::BoldItalic(t), n)),
        None => None,
    }
}

pub open spec fn try_bold(s: Seq<char>, i: int) -> Option<(TokenV, int)> {
    match delimited(s, i, seq!['*', '*']) {
        Some((t, n)) => Some((TokenV::Bold(t), n)),
        None => None,
    }
}

/// `*text*` where the opening star starts the line or follows whitespace
/// and the text is not empty.
pub open spec fn try_italic(s: Seq<char>, i: int) -> Option<(TokenV, int)> {
    if i == 0 || is_ws(s[i - 1]) {
        match delimited(s, i, seq!['*']) {
            Some((t, n)) => if t.len() > 0 { Some((TokenV::Italic(t), n)) } else { None },
            None => None,
        }
    } else {
        None
    }
}

pub open spec fn try_strike(s: Seq<char>, i: int) -> Option<(TokenV, int)> {
    match delimited(s, i, seq!['~', '~']) {
        Some((t, n)) => Some((TokenV::Strike(t), n)),
        None => None,
    }
}

pub open spec fn try_underline(s: Seq<char>, i: int) -> Option<(TokenV, int)> {
    match delimited(s, i, seq!['_', '_']) {
        Some((t, n)) => Some((TokenV::Underline(t), n)),
        None => None,
    }
}

/// The token starting at `i`, trying each construct in priority order;
/// `None` when `s[i]` is plain text.
pub open spec fn inline_token_at<L: MentionLookup>(s: Seq<char>, i: int, l: L) -> Option<(TokenV, int)> {
    if try_custom_emoji(s, i) is Some {
        try_custom_emoji(s, i)
    } else if try_mention(s, i, l) is Some {
        try_mention(s, i, l)
    } else if try_url(s, i) is Some {
        try_url(s, i)
    } else if try_code(s, i) is Some {
        try_code(s, i)
    } else if try_spoiler(s, i) is Some {
        try_spoiler(s, i)
    } else if try_bold_italic(s, i) is Some {
        try_bold_italic(s, i)
    } else if try_bold(s, i) is Some {
        try_bold(s, i)
    } else if try_italic(s, i) is Some {
        try_italic(s, i)
    } else if try_strike(s, i) is Some {
        try_strike(s, i)
    } else {
        try_underline(s, i)
    }
}

pub open spec fn flush_text(out: Seq<TokenV>, text: Seq<char>) -> Seq<TokenV> {
    if text.len() == 0 { out } else { out.push(TokenV::Text(text)) }
}

/// Tokens of `s[i..]` folded onto the tokens already emitted and the
/// pending plain-text run.
pub open spec fn inline_fold<L: MentionLookup>(s: Seq<char>, i: int, out: Seq<TokenV>, text: Seq<char>, l: L) -> Seq<TokenV>
    decreases s.len() - i,
{
    if i < 0 || i >= s.len() {
        flush_text(out, text)
    } else {
        match inline_token_at(s, i, l) {
            Some((t, next)) => if i < next && next <= s.len() {
                inline_fold(s, next, flush_text(out, text).push(t), seq![], l)
            } else {
                inline_fold(s, i + 1, out, text.push(s[i]), l)
            },
            None => inline_fold(s, i + 1, out, text.push(s[i]), l),
        }
    }
}



fn last_index_exec(s: &[char], c: char) -> (r: Option<usize>)
    ensures
        r matches Some(k) ==> last_index_of(s@, c) == Some(k as int),
        r is None ==> last_index_of(s@, c) is None,
{
    let mut n = s.len();
    assert(s@.take(n as int) =~= s@);
    while n > 0
        invariant
            n <= s@.len(),
            last_index_of(s@, c) == last_index_of(s@.take(n as int), c),
        decreases n,
    {
        assert(s@.take(n as int).drop_last() =~= s@.take(n - 1));
        if s[n - 1] == c {
            return Some(n - 1);
        }
        n -= 1;
    }
    None
}

fn sub_string(s: &[char], from: usize, to: usize) -> (r: String)
    requires
        from <= to <= s@.len(),
    ensures
        r@ == s@.subrange(from as int, to as int),
{
    let v = slice_range(s, from, to);
    string_of(v.as_slice())
}

fn emoji_cdn_url_exec(id: u64, animated: bool) -> (r: String)
    ensures
        r@ == emoji_cdn_url(id, animated),
{
    let mut u = String::new();
    push_str(&mut u, "https://cdn.discordapp.com/");
    push_str(&mut u, "emojis/");
    push_dec(&mut u, id);
    push_str(&mut u, ".");
    if animated {
        push_str(&mut u, "gif");
    } else {
        push_str(&mut u, "webp");
    }
    push_str(&mut u, "?size=48&quality=lossless");
    u
}

pub open spec fn step_ok(r: Option<(Token, usize)>, spec: Option<(TokenV, int)>) -> bool {
    &&& r matches Some((t, n)) ==> spec == Some((t.view(), n as int))
    &&& r is None ==> spec is None
}

fn exec_custom_emoji(s: &[char], i: usize) -> (r: Option<(Token, usize)>)
    requires
        i < s@.len(),
    ensures
        step_ok(r, try_custom_emoji(s@, i as int)),
{
    if s[i] != '<' {
        return None;
    }
    let rem = s.len() - i;
    let st: usize = if rem > 1 && s[i + 1] == ':' { 2 } else if rem > 2 && s[i + 1] == 'a' && s[i + 2] == ':' { 3 } else { 0 };
    if st == 0 || !(rem > st) {
        return None;
    }
    let gt = ['>'];
    assert(gt@ =~= seq!['>']);
    proof { lemma_find_spec(s@, seq!['>'], i + st); }
    match find_from(s, gt.as_slice(), i + st) {
        None => None,
        Some(close) => {
            let inner = slice_range(s, i + st, close);
            match last_index_exec(inner.as_slice(), ':') {
                None => None,
                Some(k) => {
                    proof {
                        assert(last_index_of(inner@, ':') == Some(k as int));
                        lemma_last_index(inner@, ':');
                    }
                    let id_chars = slice_range(inner.as_slice(), k + 1, inner.len());
                    assert(id_chars@ =~= inner@.skip(k + 1));
                    match parse_u64_chars(id_chars.as_slice()) {
                        None => None,
                        Some(id) => {
                            let name = sub_string(inner.as_slice(), 0, k);
                            assert(name@ =~= inner@.take(k as int));
                            let url = emoji_cdn_url_exec(id, st == 3);
                            Some((Token::CustomEmoji { animated: st == 3, name, id: Snowflake(id), url }, close + 1))
                        }
                    }
                }
            }
        }
    }
}

proof fn lemma_last_index(s: Seq<char>, c: char)
    ensures
        last_index_of(s, c) matches Some(k) ==> 0 <= k < s.len(),
    decreases s.len(),
{
    if s.len() > 0 && s.last() != c {
        lemma_last_index(s.drop_last(), c);
    }
}

fn exec_mention<L: MentionLookup>(s: &[char], i: usize, l: &L) -> (r: Option<(Token, usize)>)
    requires
        i < s@.len(),
    ensures
        step_ok(r, try_mention(s@, i as int, *l)),
{
    if s[i] != '<' || !(s.len() - i > 1) {
        return None;
    }
    let gt = ['>'];
    assert(gt@ =~= seq!['>']);
    proof { lemma_find_spec(s@, seq!['>'], i + 1); }
    match find_from(s, gt.as_slice(), i + 1) {
        None => None,
        Some(close) => {
            let inner = slice_range(s, i + 1, close);
            let n = inner.len();
            let (kind, skip): (u8, usize) = if n >= 2 && inner[0] == '@' && inner[1] == '&' {
                (1, 2)
            } else if n >= 2 && inner[0] == '@' && inner[1] == '!' {
                (0, 2)
            } else if n >= 1 && inner[0] == '@' {
                (0, 1)
            } else if n >= 1 && inner[0] == '#' {
                (2, 1)
            } else if n >= 1 && inner[0] == '&' {
                (1, 1)
            } else if n >= 1 && inner[0] == '!' {
                (0, 1)
            } else {
                (0, 0)
            };
            let id_chars = slice_range(inner.as_slice(), skip, n);
            assert(mention_parts(inner@) == (kind as int, id_chars@)) by {
                assert(inner@.skip(skip as int) =~= id_chars@);
                assert(inner@.skip(0) =~= inner@);
            }
            match parse_u64_chars(id_chars.as_slice()) {
                None => None,
                Some(id) => {
                    let sid = Snowflake(id);
                    let t = if kind == 1 {
                        let (label, color) = l.role_label(sid);
                        Token::RoleMention { id: sid, label, color }
                    } else if kind == 2 {
                        Token::ChannelMention { id: sid, label: l.channel_label(sid) }
                    } else {
                        Token::UserMention { id: sid, label: l.user_label(sid) }
                    };
                    Some((t, close + 1))
                }
            }
        }
    }
}

fn url_end_exec(s: &[char], j: usize) -> (r: usize)
    requires
        j <= s@.len(),
    ensures
        r == url_end(s@, j as int),
{
    let mut k = j;
    while k < s.len()
        invariant
            j <= k <= s@.len(),
            url_end(s@, k as int) == url_end(s@, j as int),
        decreases s.len() - k,
    {
        let c = s[k];
        if char_is_ws(c) || c == '<' || c == '>' || c == '|' {
            return k;
        }
        k += 1;
    }
    k
}

fn exec_url(s: &[char], i: usize) -> (r: Option<(Token, usize)>)
    requires
        i < s@.len(),
    ensures
        step_ok(r, try_url(s@, i as int)),
{
    let http = ['h', 't', 't', 'p', ':', '/', '/'];
    let https = ['h', 't', 't', 'p', 's', ':', '/', '/'];
    assert(http@ =~= http_pat());
    assert(https@ =~= https_pat());
    if s[i] == 'h' && s.len() - i >= 7
        && (chars_match_at(s, i, http.as_slice()) || chars_match_at(s, i, https.as_slice()))
    {
        let e = url_end_exec(s, i);
        proof { lemma_url_end(s@, i as int); }
        let url = sub_string(s, i, e);
        if url_has_host(url.as_str()) {
            Some((Token::Url { url, label: None }, e))
        } else {
            None
        }
    } else {
        None
    }
}

/// The span between delimiter `d` at `i` and its next occurrence.
fn exec_delimited(s: &[char], i: usize, d: &[char]) -> (r: Option<(String, usize)>)
    requires
        i < s@.len(),
        d@.len() > 0,
    ensures
        r matches Some((t, n)) ==> delimited(s@, i as int, d@) == Some((t@, n as int)) && i < n <= s@.len(),
        r is None ==> delimited(s@, i as int, d@) is None,
{
    if !chars_match_at(s, i, d) {
        return None;
    }
    let sl = s.len();
    let dl = d.len();
    assert(i + dl <= sl);
    let from = i + dl;
    proof { lemma_find_spec(s@, d@, from as int); }
    match find_from(s, d, from) {
        Some(close) => {
            assert(close + dl <= sl);
            let t = sub_string(s, from, close);
            Some((t, close + dl))
        }
        None => None,
    }
}

fn exec_spans(s: &[char], i: usize) -> (r: Option<(Token, usize)>)
    requires
        i < s@.len(),
    ensures
        step_ok(r, if try_code(s@, i as int) is Some {
            try_code(s@, i as int)
        } else if try_spoiler(s@, i as int) is Some {
            try_spoiler(s@, i as int)
        } else if try_bold_italic(s@, i as int) is Some {
            try_bold_italic(s@, i as int)
        } else if try_bold(s@, i as int) is Some {
            try_bold(s@, i as int)
        } else if try_italic(s@, i as int) is Some {
            try_italic(s@, i as int)
        } else if try_strike(s@, i as int) is Some {
            try_strike(s@, i as int)
        } else {
            try_underline(s@, i as int)
        }),
        r matches Some((t, n)) ==> i < n <= s@.len(),
{
    let tick = ['`'];
    let bars = ['|', '|'];
    let stars3 = ['*', '*', '*'];
    let stars2 = ['*', '*'];
    let star = ['*'];
    let tildes = ['~', '~'];
    let unders = ['_', '_'];
    assert(tick@ =~= seq!['`']);
    assert(bars@ =~= seq!['|', '|']);
    assert(stars3@ =~= seq!['*', '*', '*']);
    assert(stars2@ =~= seq!['*', '*']);
    assert(star@ =~= seq!['*']);
    assert(tildes@ =~= seq!['~', '~']);
    assert(unders@ =~= seq!['_', '_']);
    if let Some((t, n)) = exec_delimited(s, i, tick.as_slice()) {
        return Some((Token::Code(t), n));
    }
    if let Some((t, n)) = exec_delimited(s, i, bars.as_slice()) {
        return Some((Token::Spoiler(t), n));
    }
    if let Some((t, n)) = exec_delimited(s, i, stars3.as_slice()) {
        return Some((Token::BoldItalic(t), n));
    }
    if let Some((t, n)) = exec_delimited(s, i, stars2.as_slice()) {
        return Some((Token::Bold(t), n));
    }
    if i == 0 || char_is_ws(s[i - 1]) {
        if let Some((t, n)) = exec_delimited(s, i, star.as_slice()) {
            if !t.as_str().is_empty() {
                return Some((Token::Italic(t), n));
            }
        }
    }
    if let Some((t, n)) = exec_delimited(s, i, tildes.as_slice()) {
        return Some((Token::Strike(t), n));
    }
    if let Some((t, n)) = exec_delimited(s, i, unders.as_slice()) {
        return Some((Token::Underline(t), n));
    }
    None
}

fn flush_text_exec(out: &mut Vec<Token>, text: &mut String)
    ensures
        tokens_view(final(out)@) == flush_text(tokens_view(old(out)@), old(text)@),
        final(text)@ == Seq::<char>::empty(),
{
    if !text.as_str().is_empty() {
        let mut t = String::new();
        std::mem::swap(&mut t, text);
        out.push(Token::Text(t));
        assert(tokens_view(out@) =~= tokens_view(old(out)@).push(TokenV::Text(old(text)@)));
    }
}

fn inline_token_exec<L: MentionLookup>(s: &[char], i: usize, l: &L) -> (r: Option<(Token, usize)>)
    requires
        i < s@.len(),
    ensures
        step_ok(r, inline_token_at(s@, i as int, *l)),
{
    if let Some(r) = exec_custom_emoji(s, i) {
        return Some(r);
    }
    if let Some(r) = exec_mention(s, i, l) {
        return Some(r);
    }
    if let Some(r) = exec_url(s, i) {
        return Some(r);
    }
    exec_spans(s, i)
}

/// Tokenize one line of inline markdown, appending to `out`.
pub fn parse_inline<L: MentionLookup>(line: &[char], out: &mut Vec<Token>, l: &L)
    ensures
        tokens_view(final(out)@) == inline_fold(line@, 0, tokens_view(old(out)@), seq![], *l),
{
    let mut text = String::new();
    let mut i: usize = 0;
    let ghost start = tokens_view(out@);
    while i < line.len()
        invariant
            i <= line@.len(),
            inline_fold(line@, i as int, tokens_view(out@), text@, *l)
                == inline_fold(line@, 0, start, seq![], *l),
        decreases line.len() - i,
    {
        match inline_token_exec(line, i, l) {
            Some((t, next)) => {
                if i < next && next <= line.len() {
                    flush_text_exec(out, &mut text);
                    let ghost before = tokens_view(out@);
                    out.push(t);
                    assert(tokens_view(out@) =~= before.push(t.view()));
                    i = next;
                } else {
                    push_char(&mut text, line[i]);
                    i += 1;
                }
            }
            None => {
                push_char(&mut text, line[i]);
                i += 1;
            }
        }
    }
    flush_text_exec(out, &mut text);
}


// ───────────────────────────── lines ─────────────────────────────

pub open spec fn newline() -> Seq<char> {
    seq!['\n']
}

pub open spec fn fence() -> Seq<char> {
    seq!['`', '`', '`']
}

/// The pieces of `s[pos..]` between '\n' separators (`str::split('\n')`).
pub open spec fn split_from(s: Seq<char>, pos: int) -> Seq<Seq<char>>
    decreases s.len() + 1 - pos,
{
    if pos < 0 || pos > s.len() {
        seq![]
    } else {
        match find_spec(s, newline(), pos) {
            None => seq![s.subrange(pos, s.len() as int)],
            Some(k) => {
                proof { lemma_find_spec(s, newline(), pos); }
                seq![s.subrange(pos, k)] + split_from(s, k + 1)
            },
        }
    }
}

pub open spec fn split_lines(s: Seq<char>) -> Seq<Seq<char>> {
    split_from(s, 0)
}

/// Drops leading '>' characters (`trim_start_matches('>')`).
pub open spec fn strip_gt(s: Seq<char>) -> Seq<char>
    decreases s.len(),
{
    if s.len() > 0 && s[0] == '>' { strip_gt(s.drop_first()) } else { s }
}

pub open spec fn is_quote_line(line: Seq<char>) -> bool {
    has_prefix(trim_start(line), seq!['>', ' ']) || trim_start(line) =~= seq!['>']
}

pub open spec fn quote_text(line: Seq<char>) -> Seq<char> {
    trim_start(strip_gt(trim_start(line)))
}

pub open spec fn lang_char(c: char) -> bool {
    unicode_alnum(c) || c == '+' || c == ' '
}

/// First index in `s` holding a character outside a language tag.
pub open spec fn first_non_lang(s: Seq<char>, j: int) -> Option<int>
    decreases s.len() - j,
{
    if j < 0 || j >= s.len() {
        None
    } else if !lang_char(s[j]) {
        Some(j)
    } else {
        first_non_lang(s, j + 1)
    }
}

pub open spec fn non_empty_seq(s: Seq<char>) -> Option<Seq<char>> {
    if s.len() == 0 { None } else { Some(s) }
}

/// Language tag and code of a one-line block ```` ```lang code``` ````,
/// given the text between the fences.
pub open spec fn one_line_block(body: Seq<char>) -> (Option<Seq<char>>, Seq<char>) {
    match first_non_lang(body, 0) {
        Some(k) => (non_empty_seq(trim_end(body.take(k))), trim_start(body.skip(k))),
        None => (non_empty_seq(trim(body)), seq![]),
    }
}

/// Tokens of `lines[li..]`, folded onto the tokens already emitted and
/// the open code block state (`in_block`, its text and language).
pub open spec fn lines_fold<L: MentionLookup>(
    lines: Seq<Seq<char>>,
    li: int,
    out: Seq<TokenV>,
    in_block: bool,
    buf: Seq<char>,
    lang: Option<Seq<char>>,
    l: L,
) -> Seq<TokenV>
    decreases lines.len() - li,
{
    if li < 0 || li >= lines.len() {
        if in_block { out.push(TokenV::CodeBlock { lang, code: buf }) } else { out }
    } else {
        let line = lines[li];
        let last = li + 1 >= lines.len();
        if in_block {
            if trim_end(line) =~= fence() {
                lines_fold(lines, li + 1, out.push(TokenV::CodeBlock { lang, code: buf }), false, seq![], None, l)
            } else {
                let buf2 = (if buf.len() > 0 { buf.push('\n') } else { buf }) + line;
                lines_fold(lines, li + 1, out, true, buf2, lang, l)
            }
        } else if has_prefix(trim_start(line), fence()) {
            let stripped = trim_start(line).skip(3);
            match find_spec(stripped, fence(), 0) {
                Some(e) => {
                    let (blang, code) = one_line_block(stripped.take(e));
                    lines_fold(lines, li + 1, out.push(TokenV::CodeBlock { lang: blang, code }), false, buf, lang, l)
                },
                None => lines_fold(lines, li + 1, out, true, buf, non_empty_seq(trim(stripped)), l),
            }
        } else if is_quote_line(line) {
            let out2 = out.push(TokenV::Quote(quote_text(line)));
            lines_fold(lines, li + 1, if last { out2 } else { out2.push(TokenV::ParagraphBreak) }, false, buf, lang, l)
        } else {
            let out2 = inline_fold(line, 0, out, seq![], l);
            lines_fold(lines, li + 1, if last { out2 } else { out2.push(TokenV::LineBreak) }, false, buf, lang, l)
        }
    }
}

/// The tokens of a whole message.
pub open spec fn parse_spec<L: MentionLookup>(content: Seq<char>, l: L) -> Seq<TokenV> {
    lines_fold(split_lines(content), 0, seq![], false, seq![], None, l)
}

pub open spec fn lines_view(v: Seq<Vec<char>>) -> Seq<Seq<char>> {
    v.map_values(|x: Vec<char>| x@)
}

fn split_lines_exec(s: &[char]) -> (r: Vec<Vec<char>>)
    ensures
        lines_view(r@) == split_lines(s@),
{
    let nl = ['\n'];
    assert(nl@ =~= newline());
    let mut r: Vec<Vec<char>> = Vec::new();
    let mut pos: usize = 0;
    loop
        invariant
            pos <= s@.len(),
            nl@ == newline(),
            lines_view(r@) + split_from(s@, pos as int) == split_lines(s@),
        decreases s.len() - pos,
    {
        proof { lemma_find_spec(s@, newline(), pos as int); }
        match find_from(s, nl.as_slice(), pos) {
            None => {
                let last = slice_range(s, pos, s.len());
                let ghost before = lines_view(r@);
                r.push(last);
                assert(lines_view(r@) =~= before.push(last@));
                assert(lines_view(r@) =~= before + split_from(s@, pos as int));
                return r;
            }
            Some(k) => {
                let piece = slice_range(s, pos, k);
                let ghost before = lines_view(r@);
                r.push(piece);
                assert(lines_view(r@) =~= before.push(piece@));
                assert(split_from(s@, pos as int) =~= seq![piece@] + split_from(s@, k + 1));
                assert(lines_view(r@) + split_from(s@, k + 1) =~= before + split_from(s@, pos as int));
                pos = k + 1;
            }
        }
    }
}

fn strip_gt_exec(s: &[char]) -> (r: Vec<char>)
    ensures
        r@ == strip_gt(s@),
{
    let mut i: usize = 0;
    assert(s@.skip(0) =~= s@);
    while i < s.len() && s[i] == '>'
        invariant
            i <= s@.len(),
            strip_gt(s@.skip(i as int)) == strip_gt(s@),
        decreases s.len() - i,
    {
        assert(s@.skip(i as int).drop_first() =~= s@.skip(i + 1));
        i += 1;
    }
    let r = slice_range(s, i, s.len());
    assert(r@ =~= s@.skip(i as int));
    r
}

fn first_non_lang_exec(s: &[char]) -> (r: Option<usize>)
    ensures
        r matches Some(k) ==> first_non_lang(s@, 0) == Some(k as int) && k < s@.len(),
        r is None ==> first_non_lang(s@, 0) is None,
{
    let mut j: usize = 0;
    while j < s.len()
        invariant
            j <= s@.len(),
            first_non_lang(s@, j as int) == first_non_lang(s@, 0),
        decreases s.len() - j,
    {
        let c = s[j];
        if !(char_is_alphanumeric(c) || c == '+' || c == ' ') {
            return Some(j);
        }
        j += 1;
    }
    None
}

fn opt_string(v: &[char]) -> (r: Option<String>)
    ensures
        opt_seq(r) == non_empty_seq(v@),
{
    if v.len() == 0 { None } else { Some(string_of(v)) }
}

fn one_line_block_exec(body: &[char]) -> (r: (Option<String>, String))
    ensures
        (opt_seq(r.0), r.1@) == one_line_block(body@),
{
    match first_non_lang_exec(body) {
        Some(k) => {
            let head = slice_range(body, 0, k);
            let tail = slice_range(body, k, body.len());
            assert(head@ =~= body@.take(k as int));
            assert(tail@ =~= body@.skip(k as int));
            let lang = trim_end_chars(head.as_slice());
            let code = trim_start_chars(tail.as_slice());
            (opt_string(lang.as_slice()), string_of(code.as_slice()))
        }
        None => {
            let lang = trim_chars(body);
            (opt_string(lang.as_slice()), String::new())
        }
    }
}

/// Parse Discord markdown into tokens.
pub fn parse<L: MentionLookup>(content: &str, lookups: &L) -> (r: Vec<Token>)
    ensures
        tokens_view(r@) == parse_spec(content@, *lookups),
{
    let cs = chars_of(content);
    let lines = split_lines_exec(cs.as_slice());
    let fence_arr = ['`', '`', '`'];
    assert(fence_arr@ =~= fence());
    let gt_sp = ['>', ' '];
    let gt = ['>'];
    let mut out: Vec<Token> = Vec::new();
    let mut in_block = false;
    let mut block_buf = String::new();
    let mut block_lang: Option<String> = None;
    let n = lines.len();
    let mut li: usize = 0;
    assert(tokens_view(out@) =~= Seq::<TokenV>::empty());
    while li < n
        invariant
            n == lines@.len(),
            li <= n,
            fence_arr@ == fence(),
            gt_sp@ =~= seq!['>', ' '],
            gt@ =~= seq!['>'],
            lines_view(lines@) == split_lines(content@),
            lines_fold(lines_view(lines@), li as int, tokens_view(out@), in_block, block_buf@,
                opt_seq(block_lang), *lookups) == parse_spec(content@, *lookups),
        decreases n - li,
    {
        let line = lines[li].as_slice();
        assert(line@ == lines_view(lines@)[li as int]);
        let last = li + 1 >= n;
        if in_block {
            let te = trim_end_chars(line);
            if te.len() == 3 && chars_match_at(te.as_slice(), 0, fence_arr.as_slice()) {
                assert(te@ =~= fence());
                let mut lang: Option<String> = None;
                std::mem::swap(&mut lang, &mut block_lang);
                let mut code = String::new();
                std::mem::swap(&mut code, &mut block_buf);
                let ghost before = tokens_view(out@);
                let t = Token::CodeBlock { lang, code };
                out.push(t);
                assert(tokens_view(out@) =~= before.push(t.view()));
                in_block = false;
            } else {
                proof {
                    if te@ =~= fence() {
                        assert(te@.subrange(0, 3) =~= fence());
                    }
                }
                if !block_buf.as_str().is_empty() {
                    push_char(&mut block_buf, '\n');
                }
                let line_s = string_of(line);
                push_str(&mut block_buf, line_s.as_str());
            }
            li += 1;
            continue;
        }
        let ts = trim_start_chars(line);
        if chars_match_at(ts.as_slice(), 0, fence_arr.as_slice()) {
            assert(has_prefix(ts@, fence()) <==> matches_at(ts@, 0, fence()));
            let stripped = slice_range(ts.as_slice(), 3, ts.len());
            assert(stripped@ =~= ts@.skip(3));
            proof { lemma_find_spec(stripped@, fence(), 0); }
            match find_from(stripped.as_slice(), fence_arr.as_slice(), 0) {
                Some(e) => {
                    let body = slice_range(stripped.as_slice(), 0, e);
                    assert(body@ =~= stripped@.take(e as int));
                    let (lang, code) = one_line_block_exec(body.as_slice());
                    let ghost before = tokens_view(out@);
                    let t = Token::CodeBlock { lang, code };
                    out.push(t);
                    assert(tokens_view(out@) =~= before.push(t.view()));
                    in_block = false;
                }
                None => {
                    let lang_v = trim_chars(stripped.as_slice());
                    block_lang = opt_string(lang_v.as_slice());
                    in_block = true;
                }
            }
            li += 1;
            continue;
        }
        proof {
            assert(has_prefix(ts@, fence()) <==> matches_at(ts@, 0, fence()));
        }
        let quote = chars_match_at(ts.as_slice(), 0, gt_sp.as_slice())
            || (ts.len() == 1 && ts[0] == '>');
        proof {
            assert(has_prefix(ts@, seq!['>', ' ']) <==> matches_at(ts@, 0, seq!['>', ' ']));
            if ts@.len() == 1 && ts@[0] == '>' {
                assert(ts@ =~= seq!['>']);
            }
        }
        if quote {
            let g = strip_gt_exec(ts.as_slice());
            let text = trim_start_chars(g.as_slice());
            let ghost before = tokens_view(out@);
            let t = Token::Quote(string_of(text.as_slice()));
            out.push(t);
            assert(tokens_view(out@) =~= before.push(t.view()));
            if !last {
                let ghost before2 = tokens_view(out@);
                out.push(Token::ParagraphBreak);
                assert(tokens_view(out@) =~= before2.push(TokenV::ParagraphBreak));
            }
        } else {
            parse_inline(line, &mut out, lookups);
            if !last {
                let ghost before2 = tokens_view(out@);
                out.push(Token::LineBreak);
                assert(tokens_view(out@) =~= before2.push(TokenV::LineBreak));
            }
        }
        li += 1;
    }
    if in_block {
        let ghost before = tokens_view(out@);
        let t = Token::CodeBlock { lang: block_lang, code: block_buf };
        out.push(t);
        assert(tokens_view(out@) =~= before.push(t.view()));
    }
    out
}


// ───────────────────────── plain text ─────────────────────────

/// A character that starts no markup: no line break, angle bracket,
/// backtick, pipe, star, tilde or underscore.
pub open spec fn plain_char(c: char) -> bool {
    c != '\n' && c != '<' && c != '>' && c != '`' && c != '|' && c != '*' && c != '~' && c != '_'
}

/// A non-empty line of plain characters holding no `http://` or
/// `https://`.
pub open spec fn plain_line(l: Seq<char>) -> bool {
    &&& l.len() > 0
    &&& forall|i: int| 0 <= i < l.len() ==> plain_char(#[trigger] l[i])
    &&& forall|i: int| !(#[trigger] matches_at(l, i, http_pat())) && !matches_at(l, i, https_pat())
}

/// `Text` for each of `ls[li..]`, with a `LineBreak` between two lines.
pub open spec fn plain_line_tokens(ls: Seq<Seq<char>>, li: int) -> Seq<TokenV>
    decreases ls.len() - li,
{
    if li < 0 || li >= ls.len() {
        seq![]
    } else if li + 1 == ls.len() {
        seq![TokenV::Text(ls[li])]
    } else {
        seq![TokenV::Text(ls[li]), TokenV::LineBreak] + plain_line_tokens(ls, li + 1)
    }
}

proof fn lemma_match_head(s: Seq<char>, i: int, d: Seq<char>)
    requires
        matches_at(s, i, d),
        d.len() > 0,
    ensures
        s[i] == d[0],
{
    assert(s.subrange(i, i + d.len())[0] == s[i]);
}

proof fn lemma_plain_no_token<L: MentionLookup>(s: Seq<char>, i: int, l: L)
    requires
        plain_line(s),
        0 <= i < s.len(),
    ensures
        inline_token_at(s, i, l) is None,
{
    assert(plain_char(s[i]));
    assert(!matches_at(s, i, http_pat()) && !matches_at(s, i, https_pat()));
    let ds: Seq<Seq<char>> = seq![seq!['`'], seq!['|', '|'], seq!['*', '*', '*'], seq!['*', '*'], seq!['*'], seq!['~', '~'],
        seq!['_', '_']];
    assert forall|k: int| 0 <= k < ds.len() implies !matches_at(s, i, #[trigger] ds[k]) by {
        if matches_at(s, i, ds[k]) {
            lemma_match_head(s, i, ds[k]);
        }
    }
    assert(!matches_at(s, i, ds[0]) && !matches_at(s, i, ds[1]) && !matches_at(s, i, ds[2]) && !matches_at(s, i, ds[3])
        && !matches_at(s, i, ds[4]) && !matches_at(s, i, ds[5]) && !matches_at(s, i, ds[6]));
}

proof fn lemma_plain_inline<L: MentionLookup>(s: Seq<char>, i: int, out: Seq<TokenV>, text: Seq<char>, l: L)
    requires
        plain_line(s),
        0 <= i <= s.len(),
    ensures
        inline_fold(s, i, out, text, l) == flush_text(out, text + s.subrange(i, s.len() as int)),
    decreases s.len() - i,
{
    if i < s.len() {
        lemma_plain_no_token(s, i, l);
        lemma_plain_inline(s, i + 1, out, text.push(s[i]), l);
        assert(text.push(s[i]) + s.subrange(i + 1, s.len() as int) =~= text + s.subrange(i, s.len() as int));
    } else {
        assert(text + s.subrange(i, s.len() as int) =~= text);
    }
}

proof fn lemma_trim_start_suffix(s: Seq<char>)
    ensures
        exists|j: int| 0 <= j <= s.len() && trim_start(s) == #[trigger] s.skip(j),
    decreases s.len(),
{
    if s.len() > 0 && is_ws(s[0]) {
        lemma_trim_start_suffix(s.drop_first());
        let j = choose|j: int| 0 <= j <= s.drop_first().len() && trim_start(s.drop_first()) == #[trigger] s.drop_first().skip(j);
        assert(s.drop_first().skip(j) =~= s.skip(j + 1));
    } else {
        assert(s.skip(0) =~= s);
    }
}

proof fn lemma_plain_not_special(line: Seq<char>)
    requires
        plain_line(line),
    ensures
        !has_prefix(trim_start(line), fence()),
        !is_quote_line(line),
{
    lemma_trim_start_suffix(line);
    let j = choose|j: int| 0 <= j <= line.len() && trim_start(line) == #[trigger] line.skip(j);
    let t = trim_start(line);
    if t.len() > 0 {
        assert(t[0] == line[j]);
        assert(plain_char(line[j]));
    }
    if has_prefix(t, fence()) {
        assert(t.subrange(0, 3)[0] == t[0]);
    }
    if has_prefix(t, seq!['>', ' ']) {
        assert(t.subrange(0, 2)[0] == t[0]);
    }
    if t =~= seq!['>'] {
        assert(t[0] == '>');
    }
}

proof fn lemma_plain_lines<L: MentionLookup>(ls: Seq<Seq<char>>, li: int, out: Seq<TokenV>, l: L)
    requires
        0 <= li <= ls.len(),
        forall|k: int| 0 <= k < ls.len() ==> plain_line(#[trigger] ls[k]),
    ensures
        lines_fold(ls, li, out, false, seq![], None, l) == out + plain_line_tokens(ls, li),
    decreases ls.len() - li,
{
    if li < ls.len() {
        let line = ls[li];
        assert(plain_line(line));
        lemma_plain_not_special(line);
        lemma_plain_inline(line, 0, out, seq![], l);
        assert(seq![] + line.subrange(0, line.len() as int) =~= line);
        let out2 = out.push(TokenV::Text(line));
        if li + 1 >= ls.len() {
            lemma_plain_lines(ls, li + 1, out2, l);
            assert(out2 + plain_line_tokens(ls, li + 1) =~= out + plain_line_tokens(ls, li));
        } else {
            lemma_plain_lines(ls, li + 1, out2.push(TokenV::LineBreak), l);
            assert(out2.push(TokenV::LineBreak) + plain_line_tokens(ls, li + 1) =~= out + plain_line_tokens(ls, li));
        }
    } else {
        assert(out + plain_line_tokens(ls, li) =~= out);
    }
}

/// Plain multi-line text: when every line of the content (the pieces
/// between its `\n`s) is non-empty plain text, the tokens are the lines
/// as `Text`, with a `LineBreak` between two lines and nothing else.
/// Empty content gives no token.
pub proof fn law_plain_lines_parse<L: MentionLookup>(content: Seq<char>, l: L)
    ensures
        (forall|k: int| 0 <= k < split_lines(content).len() ==> plain_line(#[trigger] split_lines(content)[k]))
            ==> parse_spec(content, l) == plain_line_tokens(split_lines(content), 0),
        parse_spec(Seq::<char>::empty(), l) == Seq::<TokenV>::empty(),
{
    if forall|k: int| 0 <= k < split_lines(content).len() ==> plain_line(#[trigger] split_lines(content)[k]) {
        lemma_plain_lines(split_lines(content), 0, seq![], l);
        assert(seq![] + plain_line_tokens(split_lines(content), 0) =~= plain_line_tokens(split_lines(content), 0));
    }
    let e = Seq::<char>::empty();
    assert(find_spec(e, newline(), 1) is None);
    assert(find_spec(e, newline(), 0) is None);
    assert(e.subrange(0, 0) =~= e);
    assert(split_lines(e) =~= seq![e]);
    assert(trim_start(e) =~= e);
    assert(!is_quote_line(e));
    assert(inline_fold(e, 0, seq![], seq![], l) == Seq::<TokenV>::empty());
    assert(lines_fold(seq![e], 1, seq![], false, seq![], None, l) == Seq::<TokenV>::empty());
}

} // verus!
