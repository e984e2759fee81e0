use shardnet::login::{login, login_with_id, player_id_to_u32, GatekeeperInfo, LoginError};
use shardnet::numbers::{parse_u16, parse_u32, parse_u64, parse_u8, parse_unsigned};
use shardnet::orchestrator::{shard_environment, shard_record, Fleet};
use shardnet::server_info::{push_decimal, Heartbeat, LoginRequest, ServerInfo};
use shardnet::text::{is_join_request, is_reject, is_welcome, same_text, starts_with};

fn server(ip: &str, port: u16) -> ServerInfo {
    ServerInfo { ip: ip.to_string(), port, zone: "N/A".to_string() }
}

fn pairs(v: &[(String, String)]) -> Vec<(&str, &str)> {
    v.iter().map(|(a, b)| (a.as_str(), b.as_str())).collect()
}

#[test]
fn server_addresses() {
    let s = server("127.0.0.1", 5115);
    assert_eq!(s.base(), "127.0.0.1:5115");
    assert_eq!(s.base_url(), "http://127.0.0.1:5115");
    assert_eq!(s.http_url("/login"), "http://127.0.0.1:5115/login");
    assert_eq!(server("0.0.0.0", 0).base(), "0.0.0.0:0");
    let g = GatekeeperInfo(server("10.0.0.2", 3000));
    assert_eq!(g.login_url(), "http://10.0.0.2:3000/login");
    assert_eq!(g.health_url(), "http://10.0.0.2:3000/health");
}

#[test]
fn decimal_digits() {
    let mut s = String::from("n=");
    push_decimal(&mut s, 0);
    push_decimal(&mut s, 1907);
    push_decimal(&mut s, u64::MAX);
    assert_eq!(s, "n=0190718446744073709551615");
}

#[test]
fn unsigned_numbers_parse_like_std() {
    for text in ["0", "42", "+7", "007", "4294967295", "4294967296", "", "+", "-1", "1 ", " 1", "1a", "++1", "٣"] {
        assert_eq!(parse_u32(text), text.parse::<u32>().ok(), "{:?}", text);
        assert_eq!(parse_u16(text), text.parse::<u16>().ok(), "{:?}", text);
        assert_eq!(parse_u8(text), text.parse::<u8>().ok(), "{:?}", text);
        assert_eq!(parse_u64(text), text.parse::<u64>().ok(), "{:?}", text);
    }
    assert_eq!(parse_u16("65535"), Some(65535));
    assert_eq!(parse_u16("65536"), None);
    assert_eq!(parse_u64("18446744073709551615"), Some(u64::MAX));
    assert_eq!(parse_u64("18446744073709551616"), None);
    assert_eq!(parse_unsigned("100", 99), None);
    assert_eq!(parse_unsigned("99", 99), Some(99));
}

#[test]
fn text_words() {
    assert!(starts_with("JOIN shard 1", "JOIN "));
    assert!(!starts_with("JOI", "JOIN "));
    assert!(same_text("1234", "1234"));
    assert!(!same_text("12345", "1234"));
    assert!(!same_text("1235", "1234"));
    assert!(is_join_request(b"  JOIN 5\n"));
    assert!(!is_join_request(b"JOIN"));
    assert!(is_welcome(b"\tWELCOME t"));
    assert!(!is_welcome(b"welcome"));
    assert!(is_reject(b"REJECT"));
    assert!(is_welcome("\u{3000}\u{a0}WELCOME".as_bytes()));
    assert!(is_join_request("\u{2028}JOIN 3\u{85}".as_bytes()));
    assert!(!is_welcome("\u{200b}WELCOME".as_bytes()));
    assert!(!is_reject(&[0xFF, b'R']));
}

#[test]
fn login_checks_credentials() {
    let ok = LoginRequest { username: "Caillou".to_string(), password: "1234".to_string() };
    let resp = login_with_id(&ok, "abc".to_string()).unwrap();
    assert_eq!(resp.player_id, "abc");
    assert_eq!(resp.server.ip, "127.0.0.1");
    assert_eq!(resp.server.port, 5115);
    assert_eq!(resp.server.zone, "N/A");

    let empty = LoginRequest { username: String::new(), password: "1234".to_string() };
    assert_eq!(login_with_id(&empty, "x".to_string()).err(), Some(LoginError::Unauthorized));
    let wrong = LoginRequest { username: "a".to_string(), password: "12345".to_string() };
    assert_eq!(login(&wrong).err(), Some(LoginError::Unauthorized));
}

#[test]
fn login_hands_out_a_fresh_uuid() {
    let ok = LoginRequest { username: "Caillou".to_string(), password: "1234".to_string() };
    let a = login(&ok).unwrap();
    let b = login(&ok).unwrap();
    assert_eq!(a.player_id.len(), 36);
    assert_ne!(a.player_id, b.player_id);
    let chars: Vec<char> = a.player_id.chars().collect();
    for (i, c) in chars.iter().enumerate() {
        if i == 8 || i == 13 || i == 18 || i == 23 {
            assert_eq!(*c, '-');
        } else {
            assert!(c.is_ascii_hexdigit() && !c.is_ascii_uppercase());
        }
    }
    assert_eq!(chars[14], '4');
    assert!(matches!(chars[19], '8' | '9' | 'a' | 'b'));
    assert_eq!(a.server.port, 5115);
}

#[test]
fn player_ids_hash_with_fnv1a() {
    assert_eq!(player_id_to_u32(""), 0x811c_9dc5);
    assert_eq!(player_id_to_u32("a"), 0xe40c_292c);
    assert_eq!(player_id_to_u32("foobar"), 0xbf9c_f968);
}

#[test]
fn fleet_supervision() {
    let mut f = Fleet::new();
    // nothing heard yet: every shard is started and stamped
    assert_eq!(f.supervise(1000, 500, 3), vec![0, 1, 2]);
    assert_eq!(f.supervise(1200, 500, 3), Vec::<u32>::new());
    f.record_heartbeat(1, 1600);
    // 0 and 2 were last stamped at 1000: 1600 is more than 500 later
    assert_eq!(f.supervise(1600, 500, 3), vec![0, 2]);
    assert!(f.is_alive(1, 2100, 500));
    assert!(!f.is_alive(1, 2101, 500));
    // a stamp from the future counts as fresh
    f.record_heartbeat(4, 5000);
    assert!(f.is_alive(4, 10, 0));
    assert!(!f.is_alive(7, 10, 100));
}

#[test]
fn heartbeats_name_shards_by_zone() {
    let mut f = Fleet::new();
    assert_eq!(f.accept_heartbeat("3", 10), Some(3));
    assert!(f.is_alive(3, 10, 0));
    assert_eq!(f.accept_heartbeat("east", 10), None);
    assert!(f.last_seen.len() == 1);
}

#[test]
fn shard_records_from_heartbeats() {
    let hb = Heartbeat {
        id: "abc".to_string(),
        ip: "127.0.0.1".to_string(),
        port: 5000,
        zone: "2".to_string(),
        player_count: 12,
        max_players: 64,
    };
    let r = shard_record(&hb, 2);
    assert_eq!(r.key, "shard:2");
    assert_eq!(
        pairs(&r.fields),
        vec![("id", "abc"), ("zone", "2"), ("player_count", "12"), ("max_players", "64"), ("status", "alive")]
    );
}

#[test]
fn environment_of_a_started_shard() {
    let env = shard_environment(1, 4, "127.0.0.1:5000", 6000, Some(1));
    assert_eq!(
        pairs(&env),
        vec![
            ("SHARD_ID", "1"),
            ("SHARD_COUNT", "4"),
            ("BROKER_ADDR", "127.0.0.1:5000"),
            ("ORCH_ADDR", "127.0.0.1:6000"),
            ("SPAWN_DUMMY", "1"),
        ]
    );
    let env = shard_environment(0, 4, "b", 6000, Some(1));
    assert_eq!(env.len(), 4);
    let env = shard_environment(0, 4, "b", 6000, None);
    assert_eq!(env.len(), 4);
}

#[test]
fn decimal_text_reads_back() {
    for n in [0u64, 7, 10, 4294967295, 4294967296, u64::MAX] {
        let mut s = String::new();
        push_decimal(&mut s, n);
        assert_eq!(parse_u64(&s), Some(n));
        assert_eq!(parse_unsigned(&s, n), Some(n));
    }
}

#[test]
fn supervision_leaves_every_shard_alive() {
    let mut f = Fleet::new();
    f.record_heartbeat(1, 100);
    f.supervise(5000, 1000, 3);
    for shard in 0..3 {
        assert!(f.is_alive(shard, 5000, 1000));
    }
}
