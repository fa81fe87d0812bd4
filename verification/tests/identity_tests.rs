use basalt::identity::{
    bot_identify_properties, launch_id_from, web_identify_properties, web_user_agent, CHROME_MAJOR, CLIENT_BUILD_NUMBER,
};

#[test]
fn web_ua_matches_os() {
    for os in ["windows", "macos", "linux"] {
        let ua = web_user_agent(os);
        match os {
            "windows" => assert!(ua.contains("Windows NT")),
            "macos" => assert!(ua.contains("Macintosh")),
            _ => assert!(ua.contains("X11; Linux")),
        }
        assert!(ua.contains(&format!("Chrome/{CHROME_MAJOR}.")));
    }
}

#[test]
fn identify_properties_are_consistent() {
    for os in ["windows", "macos", "linux"] {
        let props = web_identify_properties(os, launch_id_from([7; 16]));
        assert_eq!(props.browser_user_agent, web_user_agent(os));
        assert_eq!(props.client_build_number as u64, CLIENT_BUILD_NUMBER as u64);
        let ua_os = if web_user_agent(os).contains("Windows NT") {
            "Windows"
        } else if web_user_agent(os).contains("Macintosh") {
            "Mac OS X"
        } else {
            "Linux"
        };
        assert_eq!(props.os, ua_os);
        assert!(props.client_launch_id.len() == 36);
    }
}

#[test]
fn web_identify_fields() {
    let p = web_identify_properties("macos", "id".to_string());
    assert_eq!(p.browser, "Chrome");
    assert_eq!(p.device, "");
    assert_eq!(p.system_locale, "en-US");
    assert_eq!(p.browser_version, "152.0.0.0");
    assert_eq!(p.os_version, "10.15.7");
    assert_eq!(p.release_channel, "stable");
    assert!(p.is_fast_connect);
    assert!(!p.has_client_mods);
    assert_eq!(web_identify_properties("windows", String::new()).os_version, "10");
    assert_eq!(web_identify_properties("linux", String::new()).os_version, "");
}

#[test]
fn bot_identify_fields() {
    let p = bot_identify_properties("windows");
    assert_eq!(p.os, "Windows");
    assert_eq!(p.browser, "Basalt");
    assert_eq!(p.device, "Basalt");
    assert_eq!(bot_identify_properties("freebsd").os, "Linux");
}
