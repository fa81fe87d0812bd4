//! Splitting text into plain runs and emoji clusters, and the Twemoji
//! CDN file name of a cluster.
//!
//! Clusters cover single emoji, variation-selector and skin-tone
//! modifiers, ZWJ sequences, keycaps (digit, `#` or `*` + optional FE0F +
//! 20E3) and regional-indicator flag pairs.
use vstd::prelude::*;
use crate::text::{chars_of, hex, hex_digit, is_ascii_digit, push_char, push_hex, push_str, string_of};

verus! {

/// CDN root of the Twemoji 72x72 PNG files.
pub const TWEMOJI_CDN: &'static str = "https://cdn.jsdelivr.net/gh/jdecked/twemoji@15.1.0/assets/72x72";

/// A segment of a string.
#[derive(Debug, Clone, PartialEq, Eq)]
pub enum Seg {
    Text(String),
    Emoji(String),
}

/// A segment as character sequences.
pub enum SegV {
    Text(Seq<char>),
    Emoji(Seq<char>),
}

impl Seg {
    pub open spec fn view(&self) -> SegV {
        match self {
            Seg::Text(s) => SegV::Text(s@),
            Seg::Emoji(s) => SegV::Emoji(s@),
        }
    }
}

pub open spec fn segs_view(v: Seq<Seg>) -> Seq<SegV> {
    v.map_values(|s: Seg| s.view())
}

pub open spec fn emoji_base(c: char) -> bool {
    let u = c as u32;
    (0x1F000 <= u <= 0x1FAFF) || (0x2600 <= u <= 0x27BF) || (0x2B00 <= u <= 0x2BFF)
        || (0x2300 <= u <= 0x23FF) || (0x25A0 <= u <= 0x25FF) || (0x2190 <= u <= 0x21FF)
        || (0x2934 <= u <= 0x2935)
}

pub open spec fn regional_indicator(c: char) -> bool {
    0x1F1E6 <= (c as u32) <= 0x1F1FF
}

pub open spec fn emoji_modifier(c: char) -> bool {
    let u = c as u32;
    u == 0xFE0F || u == 0x20E3 || (0x1F3FB <= u <= 0x1F3FF)
}

pub open spec fn zwj(c: char) -> bool {
    c as u32 == 0x200D
}

pub open spec fn keycap_base(c: char) -> bool {
    is_ascii_digit(c) || c == '#' || c == '*'
}

pub fn is_emoji_base(c: char) -> (r: bool)
    ensures
        r == emoji_base(c),
{
    let u = c as u32;
    (0x1F000 <= u && u <= 0x1FAFF) || (0x2600 <= u && u <= 0x27BF) || (0x2B00 <= u && u <= 0x2BFF)
        || (0x2300 <= u && u <= 0x23FF) || (0x25A0 <= u && u <= 0x25FF) || (0x2190 <= u && u <= 0x21FF)
        || (0x2934 <= u && u <= 0x2935)
}

pub fn is_regional_indicator(c: char) -> (r: bool)
    ensures
        r == regional_indicator(c),
{
    let u = c as u32;
    0x1F1E6 <= u && u <= 0x1F1FF
}

pub fn is_modifier(c: char) -> (r: bool)
    ensures
        r == emoji_modifier(c),
{
    let u = c as u32;
    u == 0xFE0F || u == 0x20E3 || (0x1F3FB <= u && u <= 0x1F3FF)
}

pub fn is_zwj(c: char) -> (r: bool)
    ensures
        r == zwj(c),
{
    c as u32 == 0x200D
}

pub fn is_keycap_base(c: char) -> (r: bool)
    ensures
        r == keycap_base(c),
{
    ('0' <= c && c <= '9') || c == '#' || c == '*'
}

/// First index at or after `j` that is not a modifier.
pub open spec fn skip_mods(s: Seq<char>, j: int) -> int
    decreases s.len() - j,
{
    if 0 <= j < s.len() && emoji_modifier(s[j]) {
        skip_mods(s, j + 1)
    } else {
        j
    }
}

pub proof fn lemma_skip_mods(s: Seq<char>, j: int)
    requires
        0 <= j <= s.len(),
    ensures
        j <= skip_mods(s, j) <= s.len(),
    decreases s.len() - j,
{
    if 0 <= j < s.len() && emoji_modifier(s[j]) {
        lemma_skip_mods(s, j + 1);
    }
}

/// A ZWJ at `j` followed by another emoji base or regional indicator.
pub open spec fn zwj_join_at(s: Seq<char>, j: int) -> bool {
    0 <= j && j + 1 < s.len() && zwj(s[j]) && (emoji_base(s[j + 1]) || regional_indicator(s[j + 1]))
}

/// End of the emoji cluster whose base ends just before `j`: modifiers,
/// then any number of ZWJ-joined further bases with their modifiers.
pub open spec fn cluster_end(s: Seq<char>, j: int) -> int
    decreases s.len() - j,
{
    if 0 <= j <= s.len() {
        let j1 = skip_mods(s, j);
        proof { lemma_skip_mods(s, j); }
        if zwj_join_at(s, j1) {
            cluster_end(s, j1 + 2)
        } else {
            j1
        }
    } else {
        j
    }
}

pub proof fn lemma_cluster_end(s: Seq<char>, j: int)
    requires
        0 <= j <= s.len(),
    ensures
        j <= cluster_end(s, j) <= s.len(),
    decreases s.len() - j,
{
    lemma_skip_mods(s, j);
    let j1 = skip_mods(s, j);
    if zwj_join_at(s, j1) {
        lemma_cluster_end(s, j1 + 2);
    }
}

/// How many characters the cluster starting at `i` spans, or 0 when
/// `s[i]` is plain text.
pub open spec fn cluster_len_at(s: Seq<char>, i: int) -> int {
    let c = s[i];
    if keycap_base(c) && i + 2 < s.len() && s[i + 1] as u32 == 0xFE0F && s[i + 2] as u32 == 0x20E3 {
        3
    } else if keycap_base(c) && i + 1 < s.len() && s[i + 1] as u32 == 0x20E3 {
        2
    } else if regional_indicator(c) && i + 1 < s.len() && regional_indicator(s[i + 1]) {
        2
    } else if emoji_base(c) {
        cluster_end(s, i + 1) - i
    } else {
        0
    }
}

pub proof fn lemma_cluster_len(s: Seq<char>, i: int)
    requires
        0 <= i < s.len(),
    ensures
        0 <= cluster_len_at(s, i) <= s.len() - i,
        emoji_base(s[i]) ==> cluster_len_at(s, i) >= 1,
{
    lemma_cluster_end(s, i + 1);
}

/// Segments of `s[i..]`, folded onto the segments `out` already emitted
/// and the pending text run `text`.
pub open spec fn seg_fold(s: Seq<char>, i: int, out: Seq<SegV>, text: Seq<char>) -> Seq<SegV>
    decreases s.len() - i,
{
    if i < 0 || i >= s.len() {
        flush(out, text)
    } else {
        let k = cluster_len_at(s, i);
        proof { lemma_cluster_len(s, i); }
        if k > 0 {
            seg_fold(s, i + k, flush(out, text).push(SegV::Emoji(s.subrange(i, i + k))), seq![])
        } else {
            seg_fold(s, i + 1, out, text.push(s[i]))
        }
    }
}

pub open spec fn flush(out: Seq<SegV>, text: Seq<char>) -> Seq<SegV> {
    if text.len() == 0 { out } else { out.push(SegV::Text(text)) }
}

/// The segmentation of `s`.
pub open spec fn segment_spec(s: Seq<char>) -> Seq<SegV> {
    seg_fold(s, 0, seq![], seq![])
}

/// The characters a segment stands for.
pub open spec fn seg_chars(g: SegV) -> Seq<char> {
    match g {
        SegV::Text(t) => t,
        SegV::Emoji(e) => e,
    }
}

/// The segments' characters, in order.
pub open spec fn join_segs(gs: Seq<SegV>) -> Seq<char>
    decreases gs.len(),
{
    if gs.len() == 0 { seq![] } else { join_segs(gs.drop_last()) + seg_chars(gs.last()) }
}

proof fn lemma_join_push(gs: Seq<SegV>, g: SegV)
    ensures
        join_segs(gs.push(g)) =~= join_segs(gs) + seg_chars(g),
{
    assert(gs.push(g).drop_last() =~= gs);
}

proof fn lemma_join_flush(out: Seq<SegV>, text: Seq<char>)
    ensures
        join_segs(flush(out, text)) =~= join_segs(out) + text,
{
    if text.len() > 0 {
        lemma_join_push(out, SegV::Text(text));
    }
}

proof fn lemma_seg_fold_join(s: Seq<char>, i: int, out: Seq<SegV>, text: Seq<char>)
    requires
        0 <= i <= s.len(),
    ensures
        join_segs(seg_fold(s, i, out, text)) =~= join_segs(out) + text + s.subrange(i, s.len() as int),
    decreases s.len() - i,
{
    if i >= s.len() {
        lemma_join_flush(out, text);
    } else {
        let k = cluster_len_at(s, i);
        lemma_cluster_len(s, i);
        if k > 0 {
            let out2 = flush(out, text).push(SegV::Emoji(s.subrange(i, i + k)));
            lemma_seg_fold_join(s, i + k, out2, seq![]);
            lemma_join_push(flush(out, text), SegV::Emoji(s.subrange(i, i + k)));
            lemma_join_flush(out, text);
            assert(s.subrange(i, i + k) + s.subrange(i + k, s.len() as int) =~= s.subrange(i, s.len() as int));
        } else {
            lemma_seg_fold_join(s, i + 1, out, text.push(s[i]));
            assert(text.push(s[i]) + s.subrange(i + 1, s.len() as int) =~= text + s.subrange(i, s.len() as int));
        }
    }
}

/// Segmenting loses and adds nothing: the segments, joined in order, give
/// the string back.
pub proof fn law_segments_join_back(s: Seq<char>)
    ensures
        join_segs(segment_spec(s)) == s,
{
    lemma_seg_fold_join(s, 0, seq![], seq![]);
    assert(s.subrange(0, s.len() as int) =~= s);
}

/// No segment is empty, and no two text runs stand side by side.
pub open spec fn segs_tidy(gs: Seq<SegV>) -> bool {
    &&& forall|i: int| 0 <= i < gs.len() ==> #[trigger] seg_chars(gs[i]).len() > 0
    &&& forall|i: int| 0 <= i < gs.len() - 1 ==> !(#[trigger] gs[i] is Text && gs[i + 1] is Text)
}

proof fn lemma_seg_fold_tidy(s: Seq<char>, i: int, out: Seq<SegV>, text: Seq<char>)
    requires
        0 <= i <= s.len(),
        segs_tidy(out),
        out.len() == 0 || out.last() is Emoji,
    ensures
        segs_tidy(seg_fold(s, i, out, text)),
    decreases s.len() - i,
{
    if i < s.len() {
        let k = cluster_len_at(s, i);
        lemma_cluster_len(s, i);
        if k > 0 {
            let f = flush(out, text);
            let out2 = f.push(SegV::Emoji(s.subrange(i, i + k)));
            assert(segs_tidy(f));
            assert(segs_tidy(out2)) by {
                assert forall|j: int| 0 <= j < out2.len() implies #[trigger] seg_chars(out2[j]).len() > 0 by {
                    if j < f.len() {
                        assert(out2[j] == f[j]);
                    }
                }
                assert forall|j: int| 0 <= j < out2.len() - 1 implies !(#[trigger] out2[j] is Text && out2[j + 1] is Text) by {
                    if j + 1 < f.len() {
                        assert(out2[j] == f[j] && out2[j + 1] == f[j + 1]);
                    }
                }
            }
            lemma_seg_fold_tidy(s, i + k, out2, seq![]);
        } else {
            lemma_seg_fold_tidy(s, i + 1, out, text.push(s[i]));
        }
    } else {
        let f = flush(out, text);
        assert(segs_tidy(f)) by {
            if text.len() > 0 {
                assert forall|j: int| 0 <= j < f.len() - 1 implies !(#[trigger] f[j] is Text && f[j + 1] is Text) by {
                    if j + 1 < out.len() {
                        assert(f[j] == out[j] && f[j + 1] == out[j + 1]);
                    } else {
                        assert(f[j] == out.last());
                    }
                }
                assert forall|j: int| 0 <= j < f.len() implies #[trigger] seg_chars(f[j]).len() > 0 by {
                    if j < out.len() {
                        assert(f[j] == out[j]);
                    }
                }
            }
        }
    }
}

/// Segments are never empty, and text never comes as two runs in a row.
pub proof fn law_segments_tidy(s: Seq<char>)
    ensures
        segs_tidy(segment_spec(s)),
{
    lemma_seg_fold_tidy(s, 0, seq![], seq![]);
}

proof fn lemma_ascii_fold(s: Seq<char>, i: int, text: Seq<char>)
    requires
        0 <= i <= s.len(),
        forall|k: int| 0 <= k < s.len() ==> (#[trigger] s[k] as u32) < 128,
    ensures
        seg_fold(s, i, seq![], text) == flush(seq![], text + s.subrange(i, s.len() as int)),
    decreases s.len() - i,
{
    if i < s.len() {
        assert((s[i] as u32) < 128);
        if i + 1 < s.len() {
            assert((s[i + 1] as u32) < 128);
        }
        assert(cluster_len_at(s, i) == 0);
        lemma_ascii_fold(s, i + 1, text.push(s[i]));
        assert(text.push(s[i]) + s.subrange(i + 1, s.len() as int) =~= text + s.subrange(i, s.len() as int));
    } else {
        assert(text + s.subrange(i, s.len() as int) =~= text);
    }
}

/// Plain ASCII text is one text segment, and empty text has no segment.
pub proof fn law_ascii_is_one_text(s: Seq<char>)
    ensures
        segment_spec(Seq::<char>::empty()) == Seq::<SegV>::empty(),
        s.len() > 0 && (forall|k: int| 0 <= k < s.len() ==> (#[trigger] s[k] as u32) < 128)
            ==> segment_spec(s) == seq![SegV::Text(s)],
{
    if s.len() > 0 && (forall|k: int| 0 <= k < s.len() ==> (#[trigger] s[k] as u32) < 128) {
        lemma_ascii_fold(s, 0, seq![]);
        assert(Seq::<char>::empty() + s.subrange(0, s.len() as int) =~= s);
        assert(seq![].push(SegV::Text(s)) =~= seq![SegV::Text(s)]);
    }
}

/// Every code point of the emoji blocks (U+1F000..=U+1FAFF,
/// U+2600..=U+27BF, U+2B00..=U+2BFF, U+2300..=U+23FF, U+25A0..=U+25FF,
/// U+2190..=U+21FF, U+2934..=U+2935) starts an emoji cluster: alone, it
/// is one emoji segment.
pub proof fn law_block_char_is_emoji(c: char)
    requires
        ({
            let u = c as u32;
            (0x1F000 <= u <= 0x1FAFF) || (0x2600 <= u <= 0x27BF) || (0x2B00 <= u <= 0x2BFF)
                || (0x2300 <= u <= 0x23FF) || (0x25A0 <= u <= 0x25FF) || (0x2190 <= u <= 0x21FF)
                || (0x2934 <= u <= 0x2935)
        }),
    ensures
        segment_spec(seq![c]) == seq![SegV::Emoji(seq![c])],
{
    let s = seq![c];
    assert(!keycap_base(c));
    assert(cluster_end(s, 1) == 1);
    assert(cluster_len_at(s, 0) == 1);
    assert(s.subrange(0, 1) =~= s);
    let out = flush(seq![], seq![]).push(SegV::Emoji(s.subrange(0, 1)));
    assert(seg_fold(s, 1, out, seq![]) == out);
    assert(out =~= seq![SegV::Emoji(seq![c])]);
}

fn skip_mods_exec(s: &[char], j: usize) -> (r: usize)
    requires
        j <= s@.len(),
    ensures
        r == skip_mods(s@, j as int),
{
    let mut k = j;
    while k < s.len() && is_modifier(s[k])
        invariant
            j <= k <= s@.len(),
            skip_mods(s@, k as int) == skip_mods(s@, j as int),
        decreases s.len() - k,
    {
        k += 1;
    }
    k
}

fn cluster_end_exec(s: &[char], j: usize) -> (r: usize)
    requires
        j <= s@.len(),
    ensures
        r == cluster_end(s@, j as int),
{
    let mut k = j;
    loop
        invariant
            j <= k <= s@.len(),
            cluster_end(s@, k as int) == cluster_end(s@, j as int),
        decreases s.len() - k,
    {
        let k1 = skip_mods_exec(s, k);
        proof { lemma_skip_mods(s@, k as int); }
        if k1 < s.len() && s.len() - k1 > 1 && is_zwj(s[k1]) && (is_emoji_base(s[k1 + 1]) || is_regional_indicator(s[k1 + 1])) {
            k = k1 + 2;
        } else {
            return k1;
        }
    }
}

fn cluster_len_exec(s: &[char], i: usize) -> (k: usize)
    requires
        i < s@.len(),
    ensures
        k == cluster_len_at(s@, i as int),
{
    let c = s[i];
    let rem = s.len() - i;
    if is_keycap_base(c) && rem > 2 && s[i + 1] as u32 == 0xFE0F && s[i + 2] as u32 == 0x20E3 {
        3
    } else if is_keycap_base(c) && rem > 1 && s[i + 1] as u32 == 0x20E3 {
        2
    } else if is_regional_indicator(c) && rem > 1 && is_regional_indicator(s[i + 1]) {
        2
    } else if is_emoji_base(c) {
        proof { lemma_cluster_end(s@, i + 1); }
        cluster_end_exec(s, i + 1) - i
    } else {
        0
    }
}

fn push_text(out: &mut Vec<Seg>, text: &mut String)
    ensures
        segs_view(final(out)@) == flush(segs_view(old(out)@), old(text)@),
        final(text)@ == Seq::<char>::empty(),
{
    if !text.as_str().is_empty() {
        let mut t = String::new();
        std::mem::swap(&mut t, text);
        out.push(Seg::Text(t));
        assert(segs_view(out@) =~= segs_view(old(out)@).push(SegV::Text(old(text)@)));
    }
}

/// Segment a string into text runs and emoji clusters.
pub fn segment(s: &str) -> (r: Vec<Seg>)
    ensures
        segs_view(r@) == segment_spec(s@),
{
    let chars = chars_of(s);
    let cs = chars.as_slice();
    let mut out: Vec<Seg> = Vec::new();
    let mut text = String::new();
    let mut i: usize = 0;
    assert(segs_view(out@) =~= Seq::<SegV>::empty());
    assert(text@ =~= Seq::<char>::empty());
    while i < cs.len()
        invariant
            cs@ == s@,
            i <= cs@.len(),
            seg_fold(cs@, i as int, segs_view(out@), text@) == segment_spec(s@),
        decreases cs.len() - i,
    {
        let k = cluster_len_exec(cs, i);
        proof { lemma_cluster_len(cs@, i as int); }
        if k > 0 {
            let seq = string_of(slice_range(cs, i, i + k).as_slice());
            push_text(&mut out, &mut text);
            let ghost before = segs_view(out@);
            out.push(Seg::Emoji(seq));
            assert(segs_view(out@) =~= before.push(SegV::Emoji(cs@.subrange(i as int, (i + k) as int))));
            i = i + k;
        } else {
            push_char(&mut text, cs[i]);
            i += 1;
        }
    }
    push_text(&mut out, &mut text);
    out
}

/// `s[from..to]` as a new vector.
pub fn slice_range(s: &[char], from: usize, to: usize) -> (r: Vec<char>)
    requires
        from <= to <= s@.len(),
    ensures
        r@ == s@.subrange(from as int, to as int),
{
    let mut r: Vec<char> = Vec::new();
    let mut k = from;
    while k < to
        invariant
            from <= k <= to,
            to <= s@.len(),
            r@ =~= s@.subrange(from as int, k as int),
        decreases to - k,
    {
        r.push(s[k]);
        k += 1;
    }
    r
}


/// Code points joined with '-' in lowercase hex.
pub open spec fn hex_join(cs: Seq<char>) -> Seq<char>
    decreases cs.len(),
{
    if cs.len() == 0 {
        seq![]
    } else if cs.len() == 1 {
        hex(cs[0] as u32 as nat)
    } else {
        hex_join(cs.drop_last()) + "-"@ + hex(cs.last() as u32 as nat)
    }
}

/// `s` without its U+FE0F variation selectors.
pub open spec fn drop_vs16(s: Seq<char>) -> Seq<char>
    decreases s.len(),
{
    if s.len() == 0 {
        seq![]
    } else if s.last() as u32 == 0xFE0F {
        drop_vs16(s.drop_last())
    } else {
        drop_vs16(s.drop_last()).push(s.last())
    }
}

pub open spec fn twemoji_file_url(codes: Seq<char>) -> Seq<char> {
    TWEMOJI_CDN@ + "/"@ + hex_join(codes) + ".png"@
}

/// The number of `-` in `s`.
pub open spec fn dashes(s: Seq<char>) -> nat
    decreases s.len(),
{
    if s.len() == 0 { 0 } else { dashes(s.drop_last()) + (if s.last() == '-' { 1nat } else { 0nat }) }
}

proof fn lemma_dashes_add(a: Seq<char>, b: Seq<char>)
    ensures
        dashes(a + b) == dashes(a) + dashes(b),
    decreases b.len(),
{
    if b.len() > 0 {
        lemma_dashes_add(a, b.drop_last());
        assert((a + b).drop_last() =~= a + b.drop_last());
    } else {
        assert(a + b =~= a);
    }
}

proof fn lemma_hex_plain(n: nat)
    ensures
        dashes(hex(n)) == 0,
        hex(n).len() > 0,
    decreases n,
{
    if n >= 16 {
        lemma_hex_plain(n / 16);
        assert(hex(n).drop_last() =~= hex(n / 16));
        assert(hex(n).last() == hex_digit(n % 16));
        assert(hex_digit(n % 16) != '-');
    } else {
        assert(hex(n).drop_last() =~= Seq::<char>::empty());
        assert(dashes(hex(n).drop_last()) == 0);
        assert(hex(n).last() == hex_digit(n));
        assert(hex_digit(n) != '-');
    }
}

proof fn lemma_hex_join_shape(cs: Seq<char>)
    ensures
        cs.len() > 0 ==> dashes(hex_join(cs)) + 1 == cs.len() && hex_join(cs).len() > 0,
        cs.len() == 0 ==> hex_join(cs).len() == 0,
    decreases cs.len(),
{
    if cs.len() == 1 {
        lemma_hex_plain(cs[0] as u32 as nat);
    } else if cs.len() > 1 {
        lemma_hex_join_shape(cs.drop_last());
        lemma_hex_plain(cs.last() as u32 as nat);
        let a = hex_join(cs.drop_last());
        let h = hex(cs.last() as u32 as nat);
        lemma_dashes_add(a, "-"@);
        lemma_dashes_add(a + "-"@, h);
        assert(dashes("-"@) == 1) by {
            reveal_strlit("-");
            assert("-"@.drop_last() =~= Seq::<char>::empty());
            assert(dashes("-"@.drop_last()) == 0);
            assert("-"@.last() == '-');
        }
    }
}

proof fn lemma_drop_vs16_shape(s: Seq<char>)
    ensures
        drop_vs16(s).len() <= s.len(),
        (forall|i: int| 0 <= i < s.len() ==> #[trigger] s[i] as u32 != 0xFE0F) ==> drop_vs16(s) == s,
        (exists|i: int| 0 <= i < s.len() && #[trigger] s[i] as u32 == 0xFE0F) ==> drop_vs16(s).len() < s.len(),
    decreases s.len(),
{
    if s.len() > 0 {
        lemma_drop_vs16_shape(s.drop_last());
        if forall|i: int| 0 <= i < s.len() ==> #[trigger] s[i] as u32 != 0xFE0F {
            assert(forall|i: int| 0 <= i < s.drop_last().len() ==> #[trigger] s.drop_last()[i] as u32 != 0xFE0F) by {
                assert forall|i: int| 0 <= i < s.drop_last().len() implies #[trigger] s.drop_last()[i] as u32 != 0xFE0F by {
                    assert(s.drop_last()[i] == s[i]);
                }
            }
            assert(s.drop_last().push(s.last()) =~= s);
        }
        if exists|i: int| 0 <= i < s.len() && #[trigger] s[i] as u32 == 0xFE0F {
            let i = choose|i: int| 0 <= i < s.len() && #[trigger] s[i] as u32 == 0xFE0F;
            if i < s.len() - 1 {
                assert(s.drop_last()[i] == s[i]);
            }
        }
    }
}

/// The file name keeps U+FE0F exactly when it changes anything: the two
/// URLs of an emoji agree if and only if it holds no U+FE0F.
pub proof fn law_vs16_url_differs_only_with_fe0f(e: Seq<char>)
    ensures
        twemoji_file_url(e) == twemoji_file_url(drop_vs16(e))
            <==> forall|i: int| 0 <= i < e.len() ==> #[trigger] e[i] as u32 != 0xFE0F,
{
    lemma_drop_vs16_shape(e);
    let d = drop_vs16(e);
    if exists|i: int| 0 <= i < e.len() && #[trigger] e[i] as u32 == 0xFE0F {
        lemma_hex_join_shape(e);
        lemma_hex_join_shape(d);
        let pre = TWEMOJI_CDN@ + "/"@;
        let post = ".png"@;
        if twemoji_file_url(e) == twemoji_file_url(d) {
            let x = hex_join(e);
            let y = hex_join(d);
            assert(twemoji_file_url(e) == pre + x + post);
            assert(twemoji_file_url(d) == pre + y + post);
            assert(x.len() == y.len());
            assert(x =~= (pre + x + post).subrange(pre.len() as int, (pre.len() + x.len()) as int));
            assert(y =~= (pre + y + post).subrange(pre.len() as int, (pre.len() + y.len()) as int));
            assert(x == y);
            // One more dash, or, with nothing left after dropping, a
            // non-empty name against an empty one.
            assert(false);
        }
    }
}

fn hex_join_string(cs: &[char]) -> (r: String)
    ensures
        r@ == hex_join(cs@),
{
    let mut s = String::new();
    let mut i: usize = 0;
    while i < cs.len()
        invariant
            i <= cs@.len(),
            s@ == hex_join(cs@.take(i as int)),
        decreases cs.len() - i,
    {
        if i > 0 {
            push_str(&mut s, "-");
        }
        push_hex(&mut s, cs[i] as u32);
        i += 1;
        proof {
            let t = cs@.take(i as int);
            assert(t.drop_last() =~= cs@.take(i - 1));
            if i == 1 {
                assert(cs@.take(0) =~= Seq::<char>::empty());
            }
        }
    }
    assert(cs@.take(cs@.len() as int) =~= cs@);
    s
}

/// Twemoji CDN URL of an emoji cluster: its code points in lowercase
/// hex, joined by '-', with U+FE0F left out (Twemoji's file naming).
pub fn twemoji_url(emoji: &str) -> (r: String)
    ensures
        r@ == twemoji_file_url(drop_vs16(emoji@)),
{
    let cs = chars_of(emoji);
    let mut kept: Vec<char> = Vec::new();
    let mut i: usize = 0;
    while i < cs.len()
        invariant
            cs@ == emoji@,
            i <= cs@.len(),
            kept@ == drop_vs16(cs@.take(i as int)),
        decreases cs.len() - i,
    {
        let c = cs[i];
        if c as u32 != 0xFE0F {
            kept.push(c);
        }
        i += 1;
        assert(cs@.take(i as int).drop_last() =~= cs@.take(i - 1));
    }
    assert(cs@.take(cs@.len() as int) =~= cs@);
    let mut s = String::new();
    push_str(&mut s, TWEMOJI_CDN);
    push_str(&mut s, "/");
    let codes = hex_join_string(kept.as_slice());
    push_str(&mut s, codes.as_str());
    push_str(&mut s, ".png");
    s
}

/// Fallback URL that keeps U+FE0F (a few Twemoji files use it).
pub fn twemoji_url_vs16(emoji: &str) -> (r: String)
    ensures
        r@ == twemoji_file_url(emoji@),
{
    let cs = chars_of(emoji);
    let mut s = String::new();
    push_str(&mut s, TWEMOJI_CDN);
    push_str(&mut s, "/");
    let codes = hex_join_string(cs.as_slice());
    push_str(&mut s, codes.as_str());
    push_str(&mut s, ".png");
    s
}

} // verus!
