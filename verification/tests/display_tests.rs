use basalt::display::{
    connection_label, default_role_color_hex, status_color, mention, month_year, month_year_or_default, set_prefs, shorten, user_flags, Kind, Toasts,
};
use basalt::identity::{
    bot_user_agent, browser_version, identify_os, identify_os_version, launch_id_from, web_user_agent, CHROME_MAJOR,
};
use basalt::media::{cache_key, frame_at, Shape, FALLBACK_NS};
use basalt::model::Rgb;
use basalt::state::ConnectionStatus;

#[test]
fn connection_labels() {
    assert_eq!(connection_label(ConnectionStatus::Connected), "Connected");
    assert_eq!(connection_label(ConnectionStatus::Disconnected), "Connection lost - reconnecting");
    assert_eq!(connection_label(ConnectionStatus::AuthFailed), "Login failed - check your token");
}

#[test]
fn toasts_live_and_expire() {
    let mut t = Toasts::new();
    t.info("copied".to_string(), 1_000);
    t.error("failed".to_string(), 1_000);
    t.success("done".to_string(), 2_000);
    assert_eq!(t.live(1_500).len(), 3);
    let at_4500: Vec<&str> = t.live(4_500).iter().map(|x| x.text.as_str()).collect();
    assert_eq!(at_4500, vec!["failed", "done"]);
    t.prune(5_500);
    let left: Vec<Kind> = t.live(5_500).iter().map(|x| x.kind).collect();
    assert_eq!(left, vec![Kind::Error]);
    t.prune(6_000);
    assert!(t.live(6_000).is_empty());
}

#[test]
fn mention_notifications_follow_prefs() {
    let p = mention(set_prefs(true, true), "ana", "general", "hi @you");
    assert_eq!(p.toast.as_deref(), Some("ana mentioned you in #general: hi @you"));
    assert_eq!(p.desktop_title.as_deref(), Some("ana mentioned you in #general"));
    let q = mention(set_prefs(false, false), "ana", "general", "hi");
    assert!(q.toast.is_none() && q.desktop_title.is_none());
}

#[test]
fn text_helpers() {
    assert_eq!(shorten("hello world", 5), "hello...");
    assert_eq!(shorten("héllo", 5), "héllo");
    assert_eq!(user_flags(0), Vec::<&str>::new());
    assert_eq!(user_flags((1 << 0) | (1 << 17) | (1 << 22)), vec!["STAFF", "VERIFIED BOT", "ACTIVE DEV"]);
    assert_eq!(month_year("2024-08-13T10:00:00Z").as_deref(), Some("August 2024"));
    assert_eq!(month_year("2024-13-01"), None);
    assert_eq!(month_year("20"), None);
    assert_eq!(month_year_or_default("2026-09-01T00:00:00Z"), "September 2026");
    assert_eq!(month_year_or_default("garbage"), "January 0");
    assert_eq!(month_year_or_default("2026-99"), "? 2026");
}

#[test]
fn shape_cache_keys_differ() {
    assert_eq!(cache_key("http://x/a.png", Shape::Square), "http://x/a.png");
    assert_eq!(cache_key("http://x/a.png", Shape::Rounded(22)), "http://x/a.png#r22");
    assert_eq!(cache_key("http://x/a.png", Shape::Circle), "http://x/a.png#c");
    assert_ne!(cache_key("http://x/a.png", Shape::Square), cache_key("http://x/a.png", Shape::Rounded(22)));
}

#[test]
fn animation_frame_timing() {
    let ms = 1_000_000u64;
    let delays = [100 * ms, 50 * ms, 5 * ms];
    let total = 155 * ms;
    assert_eq!(frame_at(&[], 0, 0), (0, FALLBACK_NS));
    assert_eq!(frame_at(&delays, total, 0), (0, 100 * ms));
    assert_eq!(frame_at(&delays, total, 40), (0, 60 * ms));
    assert_eq!(frame_at(&delays, total, 120), (1, 30 * ms));
    assert_eq!(frame_at(&delays, total, 165), (2, 5 * ms));
}

#[test]
fn identity_strings_agree() {
    assert_eq!(bot_user_agent(), "Basalt (https://github.com/sandinok/basalt, 0.1.1)");
    let ua = web_user_agent("linux");
    assert!(ua.contains("X11; Linux"));
    assert!(ua.contains(&format!("Chrome/{}.", CHROME_MAJOR)));
    assert!(web_user_agent("windows").contains("Windows NT"));
    assert!(web_user_agent("macos").contains("Macintosh"));
    assert_eq!(identify_os("macos"), "Mac OS X");
    assert_eq!(identify_os("linux"), "Linux");
    assert_eq!(identify_os_version("windows"), "10");
    assert_eq!(browser_version(), "152.0.0.0");
    let id = launch_id_from([0xff; 16]);
    assert_eq!(id, "ffffffff-ffff-4fff-bfff-ffffffffffff");
    assert_eq!(launch_id_from([0; 16]), "00000000-0000-4000-8000-000000000000");
}

#[test]
fn status_color_maps_known_statuses() {
    let online = Rgb { r: 0x3D, g: 0x9E, b: 0x60 };
    let offline = Rgb { r: 0x9D, g: 0x9E, b: 0xA5 };
    assert_eq!(status_color("online"), online);
    assert_eq!(status_color("idle"), Rgb { r: 0xFF, g: 0xCB, b: 0x6E });
    assert_eq!(status_color("dnd"), Rgb { r: 0xDC, g: 0x42, b: 0x47 });
    assert_eq!(status_color("offline"), offline);
    assert_eq!(status_color("unknown"), offline);
}

#[test]
fn default_role_color_hex_wraps_around() {
    let c0 = default_role_color_hex(0);
    let c18 = default_role_color_hex(18);
    assert_eq!(c0, c18, "palette should wrap modulo 18");
    assert_eq!(default_role_color_hex(1).b, 0xD9);
}

#[test]
fn month_year_reads_bytes_not_characters() {
    // Byte 5 falls inside the two-byte 'é', so there is no month slice.
    assert_eq!(month_year("2024é05"), None);
    // A multi-byte character inside the year leaves no four-byte year.
    assert_eq!(month_year("2é24-05-01"), None);
    assert_eq!(month_year("2024-05"), Some("May 2024".to_string()));
}
