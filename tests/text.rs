use mini_redis::aof::{
    tokens_of, aof_del_line, aof_set_line, parse_aof_line, split_at_char, AofBuffer, AofLineError, AofRecord,
};
use mini_redis::cmdargs::{split_host_port, ClientConfig, ProxyConfig, ServerConfig};
use mini_redis::codec::{decimal, hex_decode, hex_encode, parse_unsigned_max, printable_ascii};
use mini_redis::command::{join_args, ping_text, set_ttl_ms};
use mini_redis::protocol::CmdError;
use mini_redis::redis::Redis;
use mini_redis::router::{key_hash, slot_of, Router, Target, SLOTS};
use mini_redis::protocol::RedisCommand;

fn strs(v: &[&str]) -> Vec<String> {
    v.iter().map(|s| s.to_string()).collect()
}

#[test]
fn decimal_rendering() {
    assert_eq!(decimal(0), "0");
    assert_eq!(decimal(7), "7");
    assert_eq!(decimal(1234567890), "1234567890");
    assert_eq!(decimal(u128::MAX), u128::MAX.to_string());
}

#[test]
fn unsigned_parsing() {
    assert_eq!(parse_unsigned_max("42", 100), Some(42));
    assert_eq!(parse_unsigned_max("+42", 100), Some(42));
    assert_eq!(parse_unsigned_max("101", 100), None);
    assert_eq!(parse_unsigned_max("", 100), None);
    assert_eq!(parse_unsigned_max("+", 100), None);
    assert_eq!(parse_unsigned_max("4x", 100), None);
    assert_eq!(parse_unsigned_max("-1", 100), None);
    assert_eq!(parse_unsigned_max("340282366920938463463374607431768211455", u128::MAX), Some(u128::MAX));
    assert_eq!(parse_unsigned_max("340282366920938463463374607431768211456", u128::MAX), None);
}

#[test]
fn hex_round_trip() {
    let b = vec![0u8, 1, 0xab, 0xff];
    let t = hex_encode(&b);
    assert_eq!(t, "0001abff");
    assert_eq!(hex_decode(&t), Some(b));
    assert_eq!(hex_decode("abc"), None);
    assert_eq!(hex_decode("zz"), None);
    assert_eq!(hex_decode("AB"), None);
    assert_eq!(hex_decode(""), Some(vec![]));
}

#[test]
fn printable_ascii_filter() {
    assert!(printable_ascii("hello world ~"));
    assert!(printable_ascii(""));
    assert!(!printable_ascii("tab\there"));
    assert!(!printable_ascii("caf\u{e9}"));
    assert!(printable_ascii("\u{7f}"));
}

#[test]
fn set_ttl_options() {
    assert_eq!(set_ttl_ms(&strs(&["k", "v"])), Ok(0));
    assert_eq!(set_ttl_ms(&strs(&["k", "v", "EX", "2"])), Ok(2000));
    assert_eq!(set_ttl_ms(&strs(&["k", "v", "ex", "2"])), Ok(2000));
    assert_eq!(set_ttl_ms(&strs(&["k", "v", "Px", "250"])), Ok(250));
    assert_eq!(set_ttl_ms(&strs(&["k", "v", "XX", "2"])), Err(CmdError::BadExpiry));
    assert_eq!(set_ttl_ms(&strs(&["k", "v", "EX", "two"])), Err(CmdError::BadExpiry));
    assert_eq!(
        set_ttl_ms(&strs(&["k", "v", "EX", "340282366920938463463374607431768211455"])),
        Err(CmdError::BadExpiry)
    );
    assert_eq!(set_ttl_ms(&strs(&["k", "v", "EX"])), Err(CmdError::ArgCount));
    assert_eq!(set_ttl_ms(&strs(&["k"])), Err(CmdError::ArgCount));
    assert_eq!(set_ttl_ms(&strs(&["k", "v", "EX", "1", "x"])), Err(CmdError::ArgCount));
}

#[test]
fn ping_echo() {
    assert_eq!(ping_text(&None), "pong");
    assert_eq!(ping_text(&Some(vec![])), "pong");
    assert_eq!(ping_text(&Some(strs(&["a", "b c"]))), "a b c");
    assert_eq!(join_args(&strs(&["x"])), "x");
}

#[test]
fn aof_line_text() {
    assert_eq!(aof_set_line("k", "v", 0), "SET k v 0\n");
    assert_eq!(aof_set_line("k", "v", 1700000000000), "SET k v 1700000000000\n");
    assert_eq!(aof_del_line("k"), "DEL k 0 0\n");
}

#[test]
fn aof_line_parsing() {
    match parse_aof_line("SET k v 12") {
        Ok(AofRecord::Store { key, value, expires_at }) => {
            assert_eq!((key.as_str(), value.as_str(), expires_at), ("k", "v", 12));
        }
        _ => panic!("not a store"),
    }
    match parse_aof_line("DEL k 0 0") {
        Ok(AofRecord::Remove { key }) => assert_eq!(key, "k"),
        _ => panic!("not a removal"),
    }
    assert!(matches!(parse_aof_line("SET k v"), Err(AofLineError::FieldCount)));
    assert!(matches!(parse_aof_line("SET k v 1 2"), Err(AofLineError::FieldCount)));
    assert!(matches!(parse_aof_line(""), Err(AofLineError::FieldCount)));
    assert!(matches!(parse_aof_line("SET k v x"), Err(AofLineError::BadNumber)));
    match parse_aof_line("  SET\tk  v 7 \r") {
        Ok(AofRecord::Store { key, value, expires_at }) => {
            assert_eq!((key.as_str(), value.as_str(), expires_at), ("k", "v", 7));
        }
        _ => panic!("whitespace-separated tokens"),
    }
    assert!(matches!(parse_aof_line("PUT k v 0"), Err(AofLineError::UnknownVerb)));
    assert_eq!(split_at_char("a  b", ' '), strs(&["a", "", "b"]));
    assert_eq!(tokens_of(" a \t b  "), strs(&["a", "b"]));
    assert!(tokens_of("   ").is_empty());
}

#[test]
fn aof_replay_rebuilds_keyspace() {
    let text = format!(
        "{}{}{}{}SET gone x 5\nbogus line\nDEL never 0 0\n",
        aof_set_line("a", "1", 0),
        aof_set_line("b", "2", 0),
        aof_del_line("b"),
        aof_set_line("c", "3", 9000),
    );
    let mut r = Redis::new();
    r.set_at("gone", "old", 0);
    let skipped = r.replay_aof(&text, 1000);
    assert_eq!(skipped, 1);
    assert_eq!(r.get_at("a", 1000), Some("1".to_string()));
    assert_eq!(r.get_at("b", 1000), None);
    assert_eq!(r.get_at("c", 8000), Some("3".to_string()));
    assert_eq!(r.get_at("c", 9001), None);
    assert_eq!(r.get_at("gone", 1000), None);
}

#[test]
fn aof_buffer_batches_by_interval_and_sentinel() {
    let mut b = AofBuffer::new(0);
    assert!(b.on_message("SET a 1 0\n".to_string(), 10).is_empty());
    assert!(b.on_message("SET b 2 0\n".to_string(), 1000).is_empty());
    let out = b.on_message("SET c 3 0\n".to_string(), 1001);
    assert_eq!(out, strs(&["SET a 1 0\n", "SET b 2 0\n", "SET c 3 0\n"]));
    assert!(b.on_message("DEL a 0 0\n".to_string(), 1500).is_empty());
    assert_eq!(b.on_message("SHUTDOWN".to_string(), 1600), strs(&["DEL a 0 0\n"]));
    assert!(b.on_idle(1700).is_empty());
    assert!(b.on_message("SET d 4 0\n".to_string(), 1800).is_empty());
    assert!(b.on_tick(2700).is_empty());
    assert_eq!(b.on_tick(2701), strs(&["SET d 4 0\n"]));
    assert!(b.on_tick(9000).is_empty());
    // the interval since the last flush has long passed: the line goes out at once
    assert_eq!(b.on_message("SET e 5 0\n".to_string(), 9100), strs(&["SET e 5 0\n"]));
    assert!(b.on_message("SET f 6 0\n".to_string(), 9200).is_empty());
    assert_eq!(b.on_idle(9300), strs(&["SET f 6 0\n"]));
}

#[test]
fn router_covers_every_slot() {
    assert!(Router::new(vec![]).is_none());
    let r = Router::new(strs(&["a:1", "b:2", "c:3"])).unwrap();
    assert_eq!(r.owner(0), 0);
    assert_eq!(r.owner(5461), 0);
    assert_eq!(r.owner(5462), 1);
    assert_eq!(r.owner(SLOTS - 1), 2);
    assert_eq!(r.primary(1), "b:2");
    assert_eq!(r.route(RedisCommand::Publish, Some("k")), Target::ProxySelf);
    assert_eq!(r.route(RedisCommand::Get, None), Target::ProxySelf);
    let t = r.route(RedisCommand::SetKey, Some("k"));
    assert_eq!(t, Target::Primary(slot_of("k") / 5462));
    assert_eq!(r.route(RedisCommand::Get, Some("k")), t);
}

#[test]
fn fnv_hash_values() {
    assert_eq!(key_hash(""), 0xcbf29ce484222325);
    assert_eq!(key_hash("a"), 0xaf63dc4c8601ec8c);
    assert_eq!(slot_of("a"), (0xaf63dc4c8601ec8cu64 % 16384) as usize);
}

#[test]
fn config_derived_values() {
    let mut c = ServerConfig {
        name: None,
        aof: None,
        slaveof: None,
        ip: "10.0.0.1".to_string(),
        port: 6379,
        cluster: 0,
        pre_run: None,
    };
    assert_eq!(c.aof_file_name(), "server.aof");
    c.name = Some("n1".to_string());
    assert_eq!(c.aof_file_name(), "n1.aof");
    assert_eq!(c.public_address(), "10.0.0.1:6379");
    let cl = ClientConfig { slaveof: None, pre_run: None };
    assert_eq!(cl.server_address(), "127.0.0.1:8080");
    let p = ProxyConfig { attach_to: Some("1.2.3.4:5".to_string()), cfg: None };
    assert_eq!(p.self_address(), "1.2.3.4:5");
    assert_eq!(split_host_port("127.0.0.1:8080"), Some(("127.0.0.1".to_string(), 8080)));
    assert_eq!(split_host_port("::1:9"), Some(("::1".to_string(), 9)));
    assert_eq!(split_host_port("nohost"), None);
    assert_eq!(split_host_port("h:70000"), None);
}
