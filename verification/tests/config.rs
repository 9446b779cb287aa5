use redis_conn::config::{parse_interval, parse_port, Redis};
use redis_conn::decimal::parse_number;

#[test]
fn default_settings() {
    let cfg = Redis::default();
    assert_eq!(cfg.host, "127.0.0.1");
    assert_eq!(cfg.port, 6379);
    assert_eq!(cfg.password, None);
    assert_eq!(cfg.namespace, None);
    assert_eq!(cfg.user, None);
    assert_eq!(cfg.db, None);
    assert_eq!(cfg.polling_interval_millis, 100);
    assert!(!cfg.has_ignored_settings());
}

#[test]
fn address_joins_host_and_port() {
    let mut cfg = Redis::default();
    assert_eq!(cfg.address(), "127.0.0.1:6379");
    cfg.host = "redis.internal".to_string();
    cfg.port = 0;
    assert_eq!(cfg.address(), "redis.internal:0");
    cfg.port = 65535;
    assert_eq!(cfg.address(), "redis.internal:65535");
    cfg.port = 10;
    assert_eq!(cfg.address(), "redis.internal:10");
    cfg.host = String::new();
    cfg.port = 7;
    assert_eq!(cfg.address(), ":7");
}

#[test]
fn user_and_db_are_flagged_as_ignored() {
    let with_user = Redis {
        user: Some("admin".to_string()),
        ..Redis::default()
    };
    assert!(with_user.has_ignored_settings());
    let with_db = Redis {
        db: Some("3".to_string()),
        ..Redis::default()
    };
    assert!(with_db.has_ignored_settings());
}

#[test]
fn port_is_a_number_up_to_65535() {
    assert_eq!(parse_port("6379"), Some(6379));
    assert_eq!(parse_port("0"), Some(0));
    assert_eq!(parse_port("65535"), Some(65535));
    assert_eq!(parse_port("65536"), None);
    assert_eq!(parse_port("99999999999999999999999999"), None);
}

#[test]
fn port_may_have_a_plus_sign_and_leading_zeros() {
    assert_eq!(parse_port("+80"), Some(80));
    assert_eq!(parse_port("0080"), Some(80));
    assert_eq!(parse_port("+000"), Some(0));
    assert_eq!(parse_port("000000000000000000000065535"), Some(65535));
}

#[test]
fn port_is_nothing_but_digits() {
    for text in [
        "", "+", "-", "-1", "++1", "+-1", "1+", " 80", "80 ", "8 0", "80\n", "0x50", "8e1",
        "1_000", "1.0", "six", "\u{663}", "8\u{660}", "\0", "٣",
    ] {
        assert_eq!(parse_port(text), None, "{:?}", text);
    }
}

#[test]
fn port_reads_as_the_standard_library_reads_it() {
    let mut texts: Vec<String> = Vec::new();
    for n in (0..70000_u32).step_by(37) {
        texts.push(n.to_string());
        texts.push(format!("+{}", n));
        texts.push(format!("0{}", n));
        texts.push(format!("{}x", n));
        texts.push(format!("-{}", n));
    }
    for text in texts {
        assert_eq!(parse_port(&text), text.parse::<u16>().ok(), "{:?}", text);
    }
}

#[test]
fn interval_is_a_number_of_milliseconds() {
    assert_eq!(parse_interval("100"), Some(100));
    assert_eq!(parse_interval("0"), Some(0));
    assert_eq!(parse_interval("18446744073709551615"), Some(u64::MAX));
    assert_eq!(parse_interval("18446744073709551616"), None);
    assert_eq!(parse_interval("18446744073709551620"), None);
    assert_eq!(parse_interval("184467440737095516150"), None);
    assert_eq!(parse_interval("1s"), None);
    assert_eq!(parse_interval(""), None);
}

#[test]
fn interval_reads_as_the_standard_library_reads_it() {
    for text in [
        "1", "+1", "007", "18446744073709551615", "18446744073709551616", "+18446744073709551615",
        "99999999999999999999", "12a", "a12", "", "+", "1 ", "٣",
    ] {
        assert_eq!(parse_interval(text), text.parse::<u64>().ok(), "{:?}", text);
    }
}

#[test]
fn number_respects_the_bound() {
    assert_eq!(parse_number("10", 10), Some(10));
    assert_eq!(parse_number("11", 10), None);
    assert_eq!(parse_number("0", 0), Some(0));
    assert_eq!(parse_number("1", 0), None);
    assert_eq!(parse_number("+0000", 0), Some(0));
}

#[test]
fn what_address_writes_port_reads() {
    for port in [0_u16, 1, 9, 10, 99, 100, 6379, 65535] {
        let cfg = Redis {
            host: String::new(),
            port,
            ..Redis::default()
        };
        let addr = cfg.address();
        assert_eq!(parse_port(&addr[1..]), Some(port));
    }
}

#[test]
fn clone_of_the_settings_is_equal() {
    let cfg = Redis {
        host: "h".to_string(),
        port: 1,
        password: Some("p".to_string()),
        namespace: Some("n".to_string()),
        user: Some("u".to_string()),
        db: Some("d".to_string()),
        polling_interval_millis: 5,
    };
    assert_eq!(cfg.clone(), cfg);
    assert_eq!(Redis::default().clone(), Redis::default());
}
