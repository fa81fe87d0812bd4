//! Client identity shared by the REST and gateway layers.
//!
//! What the client claims must agree everywhere: the HTTP User-Agent, the
//! gateway IDENTIFY properties and the websocket handshake describe the
//! same client, on the OS it really runs on (the app passes
//! `std::env::consts::OS`).
use vstd::prelude::*;
use crate::text::{dec, push_char, push_dec, push_str, str_eq};

verus! {

/// Chromium major version presented.
pub const CHROME_MAJOR: u32 = 152;
/// Discord web client build number presented.
pub const CLIENT_BUILD_NUMBER: u32 = 606747;
/// Default header User-Agent; real requests override it per call.
pub const PLACEHOLDER_UA: &'static str = "Basalt (https://github.com/sandinok/basalt, 0.1.1)";

/// User-Agent for bot sessions (Discord's documented API client form).
pub fn bot_user_agent() -> (r: String)
    ensures
        r@ == "Basalt (https://github.com/sandinok/basalt, 0.1.1)"@,
{
    "Basalt (https://github.com/sandinok/basalt, 0.1.1)".to_string()
}

pub open spec fn ua_os_spec(os: Seq<char>) -> Seq<char> {
    if os == "windows"@ {
        "Windows NT 10.0; Win64; x64"@
    } else if os == "macos"@ {
        "Macintosh; Intel Mac OS X 10_15_7"@
    } else {
        "X11; Linux x86_64"@
    }
}

pub open spec fn web_ua_spec(os: Seq<char>) -> Seq<char> {
    "Mozilla/5.0 ("@ + ua_os_spec(os) + ") AppleWebKit/537.36 (KHTML, like Gecko) Chrome/"@
        + dec(CHROME_MAJOR as nat) + ".0.0.0 Safari/537.36"@
}

/// User-Agent of the web-client identity, for the OS named `os`.
pub fn web_user_agent(os: &str) -> (r: String)
    ensures
        r@ == web_ua_spec(os@),
{
    let sys = if str_eq(os, "windows") {
        "Windows NT 10.0; Win64; x64"
    } else if str_eq(os, "macos") {
        "Macintosh; Intel Mac OS X 10_15_7"
    } else {
        "X11; Linux x86_64"
    };
    let mut s = String::new();
    push_str(&mut s, "Mozilla/5.0 (");
    push_str(&mut s, sys);
    push_str(&mut s, ") AppleWebKit/537.36 (KHTML, like Gecko) Chrome/");
    push_dec(&mut s, CHROME_MAJOR as u64);
    push_str(&mut s, ".0.0.0 Safari/537.36");
    s
}

pub open spec fn identify_os_spec(os: Seq<char>) -> Seq<char> {
    if os == "windows"@ { "Windows"@ } else if os == "macos"@ { "Mac OS X"@ } else { "Linux"@ }
}

/// The `os` property of IDENTIFY (agrees with the User-Agent's OS).
pub fn identify_os(os: &str) -> (r: &'static str)
    ensures
        r@ == identify_os_spec(os@),
{
    if str_eq(os, "windows") { "Windows" } else if str_eq(os, "macos") { "Mac OS X" } else { "Linux" }
}

/// The `os_version` property of IDENTIFY.
pub fn identify_os_version(os: &str) -> (r: &'static str)
    ensures
        r@ == (if os@ == "windows"@ { "10"@ } else if os@ == "macos"@ { "10.15.7"@ } else { ""@ }),
{
    if str_eq(os, "windows") { "10" } else if str_eq(os, "macos") { "10.15.7" } else { "" }
}

/// `browser_version` of IDENTIFY: the Chromium version of the User-Agent.
pub fn browser_version() -> (r: String)
    ensures
        r@ == dec(CHROME_MAJOR as nat) + ".0.0.0"@,
{
    let mut s = String::new();
    push_dec(&mut s, CHROME_MAJOR as u64);
    push_str(&mut s, ".0.0.0");
    s
}

/// The `properties` object of a user-session gateway IDENTIFY: the fields
/// the official web client sends (`client_event_source` is always null).
#[derive(Debug, Clone)]
pub struct IdentifyProperties {
    pub os: String,
    pub browser: String,
    pub device: String,
    pub system_locale: String,
    pub browser_user_agent: String,
    pub browser_version: String,
    pub os_version: String,
    pub referrer: String,
    pub referring_domain: String,
    pub referrer_current: String,
    pub referring_domain_current: String,
    pub release_channel: String,
    pub client_build_number: u32,
    pub client_launch_id: String,
    pub is_fast_connect: bool,
    pub has_client_mods: bool,
}

/// The `properties` object of a bot IDENTIFY: the real OS and an honest
/// client name.
#[derive(Debug, Clone)]
pub struct BotIdentifyProperties {
    pub os: String,
    pub browser: String,
    pub device: String,
}

pub open spec fn identify_os_version_spec(os: Seq<char>) -> Seq<char> {
    if os == "windows"@ { "10"@ } else if os == "macos"@ { "10.15.7"@ } else { ""@ }
}

/// Web IDENTIFY properties for the OS `os`, with this launch's id.
pub fn web_identify_properties(os: &str, launch_id: String) -> (p: IdentifyProperties)
    ensures
        p.os@ == identify_os_spec(os@),
        p.browser@ == "Chrome"@,
        p.device@.len() == 0,
        p.system_locale@ == "en-US"@,
        p.browser_user_agent@ == web_ua_spec(os@),
        p.browser_version@ == dec(CHROME_MAJOR as nat) + ".0.0.0"@,
        p.os_version@ == identify_os_version_spec(os@),
        p.referrer@.len() == 0,
        p.referring_domain@.len() == 0,
        p.referrer_current@.len() == 0,
        p.referring_domain_current@.len() == 0,
        p.release_channel@ == "stable"@,
        p.client_build_number == CLIENT_BUILD_NUMBER,
        p.client_launch_id@ == launch_id@,
        p.is_fast_connect,
        !p.has_client_mods,
{
    IdentifyProperties {
        os: identify_os(os).to_string(),
        browser: "Chrome".to_string(),
        device: String::new(),
        system_locale: "en-US".to_string(),
        browser_user_agent: web_user_agent(os),
        browser_version: browser_version(),
        os_version: identify_os_version(os).to_string(),
        referrer: String::new(),
        referring_domain: String::new(),
        referrer_current: String::new(),
        referring_domain_current: String::new(),
        release_channel: "stable".to_string(),
        client_build_number: CLIENT_BUILD_NUMBER,
        client_launch_id: launch_id,
        is_fast_connect: true,
        has_client_mods: false,
    }
}

/// Bot IDENTIFY properties for the OS `os`.
pub fn bot_identify_properties(os: &str) -> (p: BotIdentifyProperties)
    ensures
        p.os@ == identify_os_spec(os@),
        p.browser@ == "Basalt"@,
        p.device@ == "Basalt"@,
{
    BotIdentifyProperties {
        os: identify_os(os).to_string(),
        browser: "Basalt".to_string(),
        device: "Basalt".to_string(),
    }
}

/// What the client claims agrees everywhere: on every OS, the IDENTIFY
/// `os` property names the same system as the User-Agent, and the
/// User-Agent's Chrome version is the IDENTIFY `browser_version`.
pub proof fn law_identity_consistent(os: Seq<char>)
    ensures
        identify_os_spec(os) == "Windows"@ <==> ua_os_spec(os) == "Windows NT 10.0; Win64; x64"@,
        identify_os_spec(os) == "Mac OS X"@ <==> ua_os_spec(os) == "Macintosh; Intel Mac OS X 10_15_7"@,
        identify_os_spec(os) == "Linux"@ <==> ua_os_spec(os) == "X11; Linux x86_64"@,
        web_ua_spec(os) == "Mozilla/5.0 ("@ + ua_os_spec(os) + ") AppleWebKit/537.36 (KHTML, like Gecko) Chrome/"@
            + (dec(CHROME_MAJOR as nat) + ".0.0.0"@) + " Safari/537.36"@,
{
    reveal_strlit("Windows");
    reveal_strlit("Mac OS X");
    reveal_strlit("Linux");
    reveal_strlit("Windows NT 10.0; Win64; x64");
    reveal_strlit("Macintosh; Intel Mac OS X 10_15_7");
    reveal_strlit("X11; Linux x86_64");
    reveal_strlit(".0.0.0 Safari/537.36");
    reveal_strlit(".0.0.0");
    reveal_strlit(" Safari/537.36");
    assert("Windows"@[0] == 'W' && "Mac OS X"@[0] == 'M' && "Linux"@[0] == 'L');
    assert("Windows NT 10.0; Win64; x64"@[0] == 'W' && "Macintosh; Intel Mac OS X 10_15_7"@[0] == 'M'
        && "X11; Linux x86_64"@[0] == 'X');
    assert(".0.0.0 Safari/537.36"@ =~= ".0.0.0"@ + " Safari/537.36"@);
    let a = "Mozilla/5.0 ("@ + ua_os_spec(os) + ") AppleWebKit/537.36 (KHTML, like Gecko) Chrome/"@;
    assert(a + dec(CHROME_MAJOR as nat) + ".0.0.0 Safari/537.36"@ =~= a + (dec(CHROME_MAJOR as nat) + ".0.0.0"@) + " Safari/537.36"@);
}

pub open spec fn hex_digit_lower(d: u8) -> char {
    if d < 10 { ((d as u32) + 48) as char } else { ((d as u32) + 87) as char }
}

pub open spec fn hex2(b: u8) -> Seq<char> {
    seq![hex_digit_lower(b / 16), hex_digit_lower(b % 16)]
}

fn hex_char(d: u8) -> (c: char)
    requires
        d < 16,
    ensures
        c == hex_digit_lower(d),
{
    if d == 0 { '0' } else if d == 1 { '1' } else if d == 2 { '2' } else if d == 3 { '3' }
    else if d == 4 { '4' } else if d == 5 { '5' } else if d == 6 { '6' } else if d == 7 { '7' }
    else if d == 8 { '8' } else if d == 9 { '9' } else if d == 10 { 'a' } else if d == 11 { 'b' }
    else if d == 12 { 'c' } else if d == 13 { 'd' } else if d == 14 { 'e' } else { 'f' }
}

fn push_hex2(s: &mut String, b: u8)
    ensures
        final(s)@ == old(s)@ + hex2(b),
{
    push_char(s, hex_char(b / 16));
    push_char(s, hex_char(b % 16));
    assert(final(s)@ =~= old(s)@ + hex2(b));
}

/// The bytes after forcing the RFC 4122 version-4 and variant bits.
pub open spec fn v4_bytes(b: Seq<u8>) -> Seq<u8> {
    b.update(6, (b[6] & 0x0F) | 0x40).update(8, (b[8] & 0x3F) | 0x80)
}

/// `xxxxxxxx-xxxx-xxxx-xxxx-xxxxxxxxxxxx` over 16 bytes.
pub open spec fn uuid_text(b: Seq<u8>) -> Seq<char> {
    hex2(b[0]) + hex2(b[1]) + hex2(b[2]) + hex2(b[3]) + "-"@ + hex2(b[4]) + hex2(b[5]) + "-"@
        + hex2(b[6]) + hex2(b[7]) + "-"@ + hex2(b[8]) + hex2(b[9]) + "-"@
        + hex2(b[10]) + hex2(b[11]) + hex2(b[12]) + hex2(b[13]) + hex2(b[14]) + hex2(b[15])
}

/// A v4-shaped `client_launch_id` from 16 random bytes.
pub fn launch_id_from(bytes: [u8; 16]) -> (r: String)
    ensures
        r@ == uuid_text(v4_bytes(bytes@)),
        r@.len() == 36,
{
    let mut b = bytes;
    b[6] = (b[6] & 0x0F) | 0x40;
    b[8] = (b[8] & 0x3F) | 0x80;
    assert(b@ =~= v4_bytes(bytes@));
    let mut s = String::new();
    let mut i: usize = 0;
    while i < 16
        invariant
            i <= 16,
            b@ == v4_bytes(bytes@),
            s@ == uuid_prefix(b@, i as int),
        decreases 16 - i,
    {
        if i == 4 || i == 6 || i == 8 || i == 10 {
            push_str(&mut s, "-");
        }
        push_hex2(&mut s, b[i]);
        i += 1;
    }
    proof { reveal_uuid(b@); }
    s
}

/// The text of the first `n` bytes of a UUID, dashes included.
pub open spec fn uuid_prefix(b: Seq<u8>, n: int) -> Seq<char>
    decreases n,
{
    if n <= 0 {
        seq![]
    } else {
        uuid_prefix(b, n - 1) + (if n - 1 == 4 || n - 1 == 6 || n - 1 == 8 || n - 1 == 10 { "-"@ } else { seq![] }) + hex2(b[n - 1])
    }
}

proof fn reveal_uuid(b: Seq<u8>)
    requires
        b.len() == 16,
    ensures
        uuid_prefix(b, 16) == uuid_text(b),
        uuid_text(b).len() == 36,
{
    reveal_with_fuel(uuid_prefix, 17);
    reveal_strlit("-");
    assert(uuid_prefix(b, 16) =~= uuid_text(b));
}

} // verus!
