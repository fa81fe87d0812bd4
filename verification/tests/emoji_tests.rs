use basalt::emoji::{segment, twemoji_url, twemoji_url_vs16, Seg, TWEMOJI_CDN};

#[test]
fn plain_text_is_single_segment() {
    let segs = segment("general");
    assert_eq!(segs, vec![Seg::Text("general".into())]);
}

#[test]
fn single_emoji_detected() {
    let segs = segment("general💬");
    assert_eq!(segs, vec![Seg::Text("general".into()), Seg::Emoji("💬".into())]);
}

#[test]
fn emoji_with_vs16() {
    let segs = segment("dev-log🛠️");
    assert_eq!(segs, vec![Seg::Text("dev-log".into()), Seg::Emoji("🛠️".into())]);
}

#[test]
fn multiple_emoji() {
    let segs = segment("🔥 🚀 🧊");
    assert_eq!(
        segs,
        vec![
            Seg::Emoji("🔥".into()),
            Seg::Text(" ".into()),
            Seg::Emoji("🚀".into()),
            Seg::Text(" ".into()),
            Seg::Emoji("🧊".into()),
        ]
    );
}

#[test]
fn keycap_sequence() {
    let segs = segment("rank 1️⃣ up");
    assert_eq!(
        segs,
        vec![Seg::Text("rank ".into()), Seg::Emoji("1️⃣".into()), Seg::Text(" up".into())]
    );
}

#[test]
fn flag_sequence() {
    let segs = segment("flag 🇨🇴 here");
    assert_eq!(
        segs,
        vec![Seg::Text("flag ".into()), Seg::Emoji("🇨🇴".into()), Seg::Text(" here".into())]
    );
}

#[test]
fn zwj_sequence_stays_one_emoji() {
    let s = "🔥\u{200d}🔥";
    let segs = segment(s);
    assert_eq!(segs, vec![Seg::Emoji(s.into())]);
}

#[test]
fn twemoji_url_strips_vs16() {
    assert_eq!(twemoji_url("🛠️"), format!("{TWEMOJI_CDN}/1f6e0.png"));
    assert_eq!(twemoji_url("🔥"), format!("{TWEMOJI_CDN}/1f525.png"));
    assert_eq!(twemoji_url("🇨🇴"), format!("{TWEMOJI_CDN}/1f1e8-1f1f4.png"));
}

#[test]
fn ascii_stays_text() {
    let segs = segment("hello #world 123 *star");
    assert_eq!(segs, vec![Seg::Text("hello #world 123 *star".into())]);
}

#[test]
fn mixed_channel_names() {
    assert_eq!(segment("memes😂"), vec![Seg::Text("memes".into()), Seg::Emoji("😂".into())]);
    assert_eq!(segment("🎧"), vec![Seg::Emoji("🎧".into())]);
    assert_eq!(segment("showcase✨"), vec![Seg::Text("showcase".into()), Seg::Emoji("✨".into())]);
}

// ── Further cases ──

#[test]
fn empty_input_has_no_segments() {
    assert!(segment("").is_empty());
}

#[test]
fn keycap_without_vs16_and_skin_tone() {
    assert_eq!(segment("#\u{20e3}"), vec![Seg::Emoji("#\u{20e3}".into())]);
    let thumbs = "👍\u{1f3fd}";
    assert_eq!(segment(thumbs), vec![Seg::Emoji(thumbs.into())]);
}

#[test]
fn vs16_url_keeps_selector() {
    assert_eq!(twemoji_url_vs16("🛠️"), format!("{TWEMOJI_CDN}/1f6e0-fe0f.png"));
    assert_eq!(twemoji_url("1️⃣"), format!("{TWEMOJI_CDN}/31-20e3.png"));
}

#[test]
fn segments_join_back_to_the_input() {
    for s in ["plain", "hi 🔥 there", "1️⃣🇺🇸👨‍👩‍👧 x", "", "🔥🔥"] {
        let joined: String = segment(s)
            .into_iter()
            .map(|g| match g {
                Seg::Text(t) => t,
                Seg::Emoji(e) => e,
            })
            .collect();
        assert_eq!(joined, s);
    }
}

#[test]
fn segments_are_never_empty_nor_split_text() {
    for s in ["a😀😀b", "hi 👍🏽 there ❤️", "🇫🇷🇩🇪", "plain"] {
        let v = segment(s);
        let mut joined = String::new();
        for (i, g) in v.iter().enumerate() {
            let t = match g {
                Seg::Text(t) => t,
                Seg::Emoji(e) => e,
            };
            assert!(!t.is_empty());
            joined.push_str(t);
            if i + 1 < v.len() {
                assert!(!(matches!(g, Seg::Text(_)) && matches!(v[i + 1], Seg::Text(_))));
            }
        }
        assert_eq!(joined, s);
    }
}

#[test]
fn vs16_url_differs_exactly_when_fe0f_present() {
    assert_eq!(twemoji_url("😀"), twemoji_url_vs16("😀"));
    assert_ne!(twemoji_url("❤\u{fe0f}"), twemoji_url_vs16("❤\u{fe0f}"));
    assert_eq!(twemoji_url_vs16("❤\u{fe0f}"), format!("{}/2764-fe0f.png", TWEMOJI_CDN));
    assert_eq!(twemoji_url("❤\u{fe0f}"), format!("{}/2764.png", TWEMOJI_CDN));
}

#[test]
fn ascii_line_is_one_text_segment() {
    for s in ["a", "plain ascii 123 #*", "~!@$%^&()"] {
        assert_eq!(segment(s), vec![Seg::Text(s.into())]);
    }
    assert!(segment("").is_empty());
}
