use distributed_api_layer::config::{is_flag_enabled, parse_u64, Config, EnvVars};
use distributed_api_layer::text::{is_white_space_char, split_csv, split_trimmed};

fn strings(items: &[&str]) -> Vec<String> {
    items.iter().map(|s| s.to_string()).collect()
}

fn no_vars() -> EnvVars {
    EnvVars {
        bind_addr: None,
        grpc_addr: None,
        redis_url: None,
        redis_cluster: None,
        kafka_bootstrap: None,
        kafka_topic: None,
        dedupe_ttl_secs: None,
    }
}

#[test]
fn split_csv_trims_and_drops_empty_entries() {
    assert_eq!(split_csv(" a, b ,,c "), strings(&["a", "b", "c"]));
    assert_eq!(split_csv("broker-1:9092,broker-2:9092"), strings(&["broker-1:9092", "broker-2:9092"]));
    assert_eq!(split_csv(""), Vec::<String>::new());
    assert_eq!(split_csv(" , ,"), Vec::<String>::new());
    assert_eq!(split_csv("\u{3000}x\u{a0}, y\t"), strings(&["x", "y"]));
}

#[test]
fn split_csv_agrees_with_std() {
    let inputs = ["a,b", " x ", ",,", "one,\ttwo ,three\n", "\u{2003}k\u{2028},v", "solo"];
    for input in inputs {
        let expected: Vec<String> = input
            .split(',')
            .map(|s| s.trim().to_string())
            .filter(|s| !s.is_empty())
            .collect();
        assert_eq!(split_csv(input), expected, "input {input:?}");
    }
}

#[test]
fn split_trimmed_keeps_empty_pieces() {
    assert_eq!(split_trimmed(" a, ,b"), strings(&["a", "", "b"]));
    assert_eq!(split_trimmed(""), strings(&[""]));
    assert_eq!(split_trimmed("redis://n1:7000, redis://n2:7001"), strings(&["redis://n1:7000", "redis://n2:7001"]));
}

#[test]
fn white_space_matches_std() {
    for u in 0u32..0x3100 {
        if let Some(c) = char::from_u32(u) {
            assert_eq!(is_white_space_char(c), c.is_whitespace(), "char {u:#x}");
        }
    }
}

#[test]
fn parse_u64_cases() {
    assert_eq!(parse_u64("300"), Some(300));
    assert_eq!(parse_u64("+7"), Some(7));
    assert_eq!(parse_u64("007"), Some(7));
    assert_eq!(parse_u64("0"), Some(0));
    assert_eq!(parse_u64("18446744073709551615"), Some(u64::MAX));
    assert_eq!(parse_u64("18446744073709551616"), None);
    assert_eq!(parse_u64("99999999999999999999"), None);
    assert_eq!(parse_u64(""), None);
    assert_eq!(parse_u64("+"), None);
    assert_eq!(parse_u64("-"), None);
    assert_eq!(parse_u64("-1"), None);
    assert_eq!(parse_u64(" 5"), None);
    assert_eq!(parse_u64("5 "), None);
    assert_eq!(parse_u64("1a"), None);
    assert_eq!(parse_u64("++1"), None);
    assert_eq!(parse_u64("\u{0661}"), None);
}

#[test]
fn parse_u64_agrees_with_std() {
    let inputs = ["1", "42", "+0", "", "+", "-0", "12x", "184467440737095516150", "18446744073709551614", " ", "0x10"];
    for input in inputs {
        assert_eq!(parse_u64(input), input.parse::<u64>().ok(), "input {input:?}");
    }
}

#[test]
fn flags() {
    for on in ["1", "true", "TRUE"] {
        assert!(is_flag_enabled(&on.to_string()));
    }
    for off in ["0", "True", "yes", "", " 1"] {
        assert!(!is_flag_enabled(&off.to_string()));
    }
}

#[test]
fn config_defaults_when_nothing_is_set() {
    let cfg = Config::from_env(no_vars());
    assert_eq!(cfg.bind_addr, "0.0.0.0:8080");
    assert_eq!(cfg.grpc_addr, "0.0.0.0:50051");
    assert_eq!(cfg.redis_url, None);
    assert!(!cfg.redis_cluster);
    assert!(cfg.kafka_bootstrap.is_empty());
    assert_eq!(cfg.kafka_topic, "telemetry.frames");
    assert_eq!(cfg.dedupe_ttl_secs, 300);
}

#[test]
fn config_takes_the_given_values() {
    let vars = EnvVars {
        bind_addr: Some("127.0.0.1:8080".to_string()),
        grpc_addr: Some("127.0.0.1:6000".to_string()),
        redis_url: Some("redis://cache:6379".to_string()),
        redis_cluster: Some("true".to_string()),
        kafka_bootstrap: Some(" k1:9092 ,, k2:9092".to_string()),
        kafka_topic: Some("frames".to_string()),
        dedupe_ttl_secs: Some("60".to_string()),
    };
    let cfg = Config::from_env(vars);
    assert_eq!(cfg.bind_addr, "127.0.0.1:8080");
    assert_eq!(cfg.grpc_addr, "127.0.0.1:6000");
    assert_eq!(cfg.redis_url.as_deref(), Some("redis://cache:6379"));
    assert!(cfg.redis_cluster);
    assert_eq!(cfg.kafka_bootstrap, strings(&["k1:9092", "k2:9092"]));
    assert_eq!(cfg.kafka_topic, "frames");
    assert_eq!(cfg.dedupe_ttl_secs, 60);
}

#[test]
fn config_empty_redis_url_and_bad_ttl_fall_back() {
    let mut vars = no_vars();
    vars.redis_url = Some(String::new());
    vars.redis_cluster = Some("yes".to_string());
    vars.dedupe_ttl_secs = Some("ten".to_string());
    let cfg = Config::from_env(vars);
    assert_eq!(cfg.redis_url, None);
    assert!(!cfg.redis_cluster);
    assert_eq!(cfg.dedupe_ttl_secs, 300);
}

#[test]
fn split_csv_is_idempotent() {
    for input in [" a, b ,,c ", "", ",x,", "\u{a0}p q\u{a0},r", "one"] {
        let items = split_csv(input);
        assert_eq!(split_csv(&items.join(",")), items, "input {input:?}");
    }
}

#[test]
fn split_csv_of_joined_lists_concatenates() {
    let cases = [("a, b", "c"), ("", "x"), ("y ,", ""), (" ", " "), ("k1:9092", "k2:9092,k3:9092")];
    for (a, b) in cases {
        let joined = split_csv(&format!("{a},{b}"));
        assert_eq!(joined, [split_csv(a), split_csv(b)].concat(), "inputs {a:?} {b:?}");
    }
}
