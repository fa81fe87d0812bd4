use basalt::display::{banner_color_for, connection_color, default_role_color_hex, member_name_color, role_color};
use basalt::events::Event;
use basalt::model::{Guild, Member, Rgb, Role, User};
use basalt::snowflake::Snowflake;
use basalt::state::{AppState, ConnectionStatus};

fn role(id: u64, color: u32, position: i32) -> Role {
    let mut r = Role::default();
    r.id = Snowflake::from_u64(id);
    r.color = color;
    r.position = position;
    r
}

fn member(uid: u64, roles: &[u64]) -> Member {
    let mut u = User::default();
    u.id = Snowflake::from_u64(uid);
    let mut m = Member::default();
    m.user = Some(u);
    m.roles = roles.iter().map(|r| Snowflake::from_u64(*r)).collect();
    m
}

#[test]
fn connection_colors() {
    assert_eq!(connection_color(ConnectionStatus::Connected), Rgb { r: 0x3D, g: 0x9E, b: 0x60 });
    assert_eq!(connection_color(ConnectionStatus::Connecting), Rgb { r: 0xFF, g: 0xCB, b: 0x6E });
    assert_eq!(connection_color(ConnectionStatus::Reconnecting), Rgb { r: 0xFF, g: 0xCB, b: 0x6E });
    assert_eq!(connection_color(ConnectionStatus::AuthFailed), Rgb { r: 0xDC, g: 0x42, b: 0x47 });
    assert_eq!(connection_color(ConnectionStatus::DisallowedIntent), Rgb { r: 0xDC, g: 0x42, b: 0x47 });
    assert_eq!(connection_color(ConnectionStatus::Disconnected), Rgb { r: 0x9D, g: 0x9E, b: 0xA5 });
}

#[test]
fn role_color_splits_channels() {
    assert_eq!(role_color(0x123456), Rgb { r: 0x12, g: 0x34, b: 0x56 });
    assert_eq!(role_color(0xFF00FF00), Rgb { r: 0x00, g: 0xFF, b: 0x00 });
}

#[test]
fn banner_color_prefers_accent() {
    assert_eq!(banner_color_for(Some(0xABCDEF), "seed"), Rgb { r: 0xAB, g: 0xCD, b: 0xEF });
    // "a" hashes to 97; 97 % 18 == 7.
    assert_eq!(banner_color_for(None, "a"), default_role_color_hex(7));
    assert_eq!(banner_color_for(Some(0), "a"), default_role_color_hex(7));
    // "ab": 97 * 31 + 98 = 3105; 3105 % 18 == 9.
    assert_eq!(banner_color_for(None, "ab"), default_role_color_hex(9));
    assert_eq!(banner_color_for(None, ""), default_role_color_hex(0));
}

#[test]
fn member_color_from_highest_colored_role() {
    let mut g = Guild::default();
    g.id = Snowflake::from_u64(1);
    g.roles = vec![role(10, 0x111111, 1), role(11, 0, 9), role(12, 0x222222, 5), role(13, 0x333333, 5)];
    g.members = vec![member(100, &[10, 11, 12, 13]), member(101, &[11]), member(102, &[99])];
    let mut s = AppState::new();
    s.dispatch_event(Event::GuildCreate { d: g }, 0);
    let secondary = Rgb { r: 0xDB, g: 0xDE, b: 0xE1 };
    // Role 11 has no color; 12 beats 10; 13 ties 12 and does not replace it.
    assert_eq!(member_name_color(&s, Snowflake::from_u64(1), Snowflake::from_u64(100)), Rgb { r: 0x22, g: 0x22, b: 0x22 });
    assert_eq!(member_name_color(&s, Snowflake::from_u64(1), Snowflake::from_u64(101)), secondary);
    assert_eq!(member_name_color(&s, Snowflake::from_u64(1), Snowflake::from_u64(102)), secondary);
    assert_eq!(member_name_color(&s, Snowflake::from_u64(1), Snowflake::from_u64(103)), secondary);
    assert_eq!(member_name_color(&s, Snowflake::from_u64(2), Snowflake::from_u64(100)), secondary);
}
