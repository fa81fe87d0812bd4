use basalt::youtube::{extract_video_id, find_link, is_video_id_str, simple_url_encode};

#[test]
fn watch_url_id() {
    let (id, url) = find_link("check this https://www.youtube.com/watch?v=dQw4w9WgXcQ now").unwrap();
    assert_eq!(id, "dQw4w9WgXcQ");
    assert_eq!(url, "https://www.youtube.com/watch?v=dQw4w9WgXcQ");
}

#[test]
fn short_url_id() {
    let (id, _) = find_link("https://youtu.be/abcdefghijk?si=xyz").unwrap();
    assert_eq!(id, "abcdefghijk");
}

#[test]
fn shorts_and_embed() {
    assert_eq!(
        extract_video_id("https://www.youtube.com/shorts/1234567890_"),
        Some("1234567890_".to_string())
    );
    assert_eq!(
        extract_video_id("https://www.youtube.com/embed/dQw4w9WgXcQ"),
        Some("dQw4w9WgXcQ".to_string())
    );
}

#[test]
fn non_youtube_ignored() {
    assert_eq!(find_link("see https://vimeo.com/12345"), None);
    assert_eq!(find_link("plain text"), None);
}

// ── Further cases ──

#[test]
fn punctuation_around_links_is_trimmed() {
    let (id, _) = find_link("(https://www.youtube.com/watch?feature=x&v=dQw4w9WgXcQ)!").unwrap();
    assert_eq!(id, "dQw4w9WgXcQ");
    assert_eq!(extract_video_id("https://YOUTUBE.com/live/abcdefghijk"), Some("abcdefghijk".into()));
    assert_eq!(extract_video_id("https://www.youtube.com/watch?v=short"), None);
}

#[test]
fn video_id_shape() {
    assert!(is_video_id_str("abc-DEF_123"));
    assert!(!is_video_id_str("abc-DEF_12"));
    assert!(!is_video_id_str("abc DEF_123"));
}

#[test]
fn url_encoding_keeps_only_path_punctuation() {
    assert_eq!(simple_url_encode("a:/b"), "%61:/%62");
    assert_eq!(simple_url_encode("é"), "%C3%A9");
}

#[test]
fn found_links_carry_eleven_char_ids() {
    let (id, url) = find_link("look https://youtu.be/dQw4w9WgXcQ?t=3 now").expect("link");
    assert_eq!(id.len(), 11);
    assert!(id.chars().all(|c| c.is_ascii_alphanumeric() || c == '-' || c == '_'));
    assert_eq!(url, format!("https://www.youtube.com/watch?v={id}"));
    assert_eq!(find_link("no video at https://example.com/watch?v=dQw4w9WgXcQ"), None);
}
