use session_server::config::{Config, Permission};
use session_server::state::{formatDateTime, State};
use session_server::text::{parse_u16, split_char, str_eq, u64_to_dec};

#[test]
fn split_on_spaces() {
    let parts = split_char("a b", ' ');
    assert_eq!(parts, vec!["a".to_string(), "b".to_string()]);
}

#[test]
fn split_keeps_empty_pieces() {
    let parts = split_char("a  b", ' ');
    assert_eq!(parts, vec!["a".to_string(), "".to_string(), "b".to_string()]);
    assert_eq!(split_char("", ' '), vec!["".to_string()]);
}

#[test]
fn parse_u16_accepts_digits_and_plus() {
    assert_eq!(parse_u16("0"), Some(0));
    assert_eq!(parse_u16("65535"), Some(65535));
    assert_eq!(parse_u16("+12"), Some(12));
}

#[test]
fn parse_u16_rejects_junk_and_overflow() {
    assert_eq!(parse_u16(""), None);
    assert_eq!(parse_u16("+"), None);
    assert_eq!(parse_u16("65536"), None);
    assert_eq!(parse_u16("1a"), None);
    assert_eq!(parse_u16("-1"), None);
    assert_eq!(parse_u16("1 2"), None);
}

#[test]
fn decimal_rendering() {
    assert_eq!(u64_to_dec(0), "0");
    assert_eq!(u64_to_dec(10), "10");
    assert_eq!(u64_to_dec(65535), "65535");
}

#[test]
fn string_helpers() {
    assert!(str_eq("abc", "abc"));
    assert!(!str_eq("abc", "abd"));
}

#[test]
fn permission_spelling_round_trip() {
    assert!(matches!(Permission::fromString("dev"), Permission::Developer));
    assert!(matches!(Permission::fromString("admin"), Permission::Admin));
    assert!(matches!(Permission::fromString("guest"), Permission::Player));
    assert_eq!(Permission::Developer.toString(), "dev");
    assert_eq!(Permission::Admin.toString(), "admin");
    assert_eq!(Permission::Player.toString(), "player");
}

#[test]
fn permission_check_is_rank_order() {
    assert!(Permission::Player.check(Permission::Player));
    assert!(!Permission::Player.check(Permission::Admin));
    assert!(!Permission::Player.check(Permission::Developer));
    assert!(Permission::Admin.check(Permission::Player));
    assert!(Permission::Admin.check(Permission::Admin));
    assert!(!Permission::Admin.check(Permission::Developer));
    assert!(Permission::Developer.check(Permission::Player));
    assert!(Permission::Developer.check(Permission::Admin));
    assert!(Permission::Developer.check(Permission::Developer));
}

#[test]
fn permission_table_lookup() {
    let mut cfg = Config::default();
    assert!(matches!(cfg.getPermission("stranger"), Permission::Player));
    assert!(matches!(cfg.getPermission("WebClient"), Permission::Developer));
    cfg.setPermission("Ari".to_string(), Permission::Admin);
    assert!(matches!(cfg.getPermission("Ari"), Permission::Admin));
    cfg.setPermission("Ari".to_string(), Permission::Player);
    assert!(matches!(cfg.getPermission("Ari"), Permission::Player));
    assert!(matches!(cfg.getPermission("ari"), Permission::Player));
}

#[test]
fn config_defaults() {
    let cfg = Config::default();
    assert_eq!(cfg.maxPlayersCount, 5);
    assert_eq!(cfg.port, 0);
    assert_eq!(cfg.tickRate, 1);
    assert_eq!(cfg.sendTime, 1000);
    assert_eq!(cfg.recvTime, 500);
}

#[test]
fn player_directory_defaults_and_updates() {
    let mut st = State::new();
    let (n, c) = st.getPlayerInfo(7);
    assert_eq!(n, "noname");
    assert_eq!(c, "unknown");
    st.setPlayerInfo(7, "Ari".to_string(), "Mage".to_string());
    let (n, c) = st.getPlayerInfo(7);
    assert_eq!(n, "Ari");
    assert_eq!(c, "Mage");
    st.setPlayerInfo(7, "Bo".to_string(), "Bard".to_string());
    let (n, _) = st.getPlayerInfo(7);
    assert_eq!(n, "Bo");
    let (n, _) = st.getPlayerInfo(8);
    assert_eq!(n, "noname");
}

#[test]
fn date_time_at_epoch() {
    assert_eq!(formatDateTime(0), "0 January 1970 - 0:0:0");
}

#[test]
fn date_time_walks_months() {
    // forty days in: the first month grants 28 days, twelve days remain
    let t = 86400 * 40 + 3 * 3600 + 4 * 60 + 5;
    assert_eq!(formatDateTime(t), "12 February 1970 - 3:4:5");
}

#[test]
fn date_time_honors_leap_years() {
    // two plain years and forty days in: 1972 grants its first month 29 days
    let t = 86400 * (365 * 2 + 40);
    assert_eq!(formatDateTime(t), "11 February 1972 - 0:0:0");
}

#[test]
fn date_time_reaches_december() {
    // the eleven earlier months grant 334 days in a plain year
    let t = 86400 * 340;
    assert_eq!(formatDateTime(t), "6 December 1970 - 0:0:0");
}
