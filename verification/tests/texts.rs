use curf::client::ClientIp;
use curf::config::{
    default_hc_path, default_index_files, Config, DomainConfig, DomainTable, ExtraHeader,
    HealthCheckConfig, LoadBalance, SecurityFlags, ServerConfig,
};
use curf::text::{
    before, chars_of, contains, decimal_text, is_blank, find_second_word, not_after, parse_u16,
    same_ignoring_case, same_text, starts_with, string_of, trim_end,
};

fn domain(backend: &str) -> DomainConfig {
    DomainConfig {
        backends: vec![backend.to_string()],
        load_balance: LoadBalance::RoundRobin,
        tls: None,
        static_files: None,
        redirect_to_https: false,
        health_check: HealthCheckConfig::default(),
        headers: vec![ExtraHeader { name: "a".to_string(), value: "b".to_string() }],
    }
}

#[test]
fn texts_are_taken_apart() {
    let v = chars_of("a\u{e4}b");
    assert_eq!(v, ['a', '\u{e4}', 'b']);
    assert_eq!(string_of(&v, 1, 3), "\u{e4}b");
    assert_eq!(before("host:80:1", ':'), "host");
    assert_eq!(before("host", ':'), "host");
    assert_eq!(trim_end("http://a//", '/'), "http://a");
    assert_eq!(trim_end("//", '/'), "");
    assert!(starts_with(&v, &chars_of("a\u{e4}")));
    assert!(!starts_with(&chars_of("a"), &v));
}

#[test]
fn patterns_are_found() {
    let t = chars_of("abcabd");
    assert!(contains(&t, "abd"));
    assert!(contains(&t, ""));
    assert!(!contains(&t, "abe"));
    assert!(!contains(&t, "abcabda"));
}

#[test]
fn second_word_is_found() {
    assert_eq!(find_second_word("HTTP/1.1 200 OK").as_deref(), Some("200"));
    assert_eq!(find_second_word("  HTTP/1.1\r\n204").as_deref(), Some("204"));
    assert_eq!(find_second_word("one"), None);
    assert_eq!(find_second_word(""), None);
}

#[test]
fn blanks_are_all_the_white_space() {
    for n in 0..0x11_0000u32 {
        if let Some(c) = char::from_u32(n) {
            assert_eq!(is_blank(&c.to_string()), c.is_whitespace());
        }
    }
    assert!(is_blank(""));
    assert!(!is_blank(" x "));
}

#[test]
fn numbers_are_read_as_std_reads_them() {
    let samples = ["0", "80", "+80", "-1", "65535", "65536", "", "+", "8 0", "00080", "1e3", "++1"];
    for s in samples {
        assert_eq!(parse_u16(s), s.parse::<u16>().ok());
    }
}

#[test]
fn numbers_are_written_in_decimal() {
    for n in [0, 7, 10, 99, 1_000_000, u64::MAX] {
        assert_eq!(decimal_text(n), n.to_string());
    }
}

#[test]
fn texts_are_compared_as_std_compares_them() {
    let samples = ["", "a", "A", "ab", "b", "\u{e4}", "\u{fffd}", "\u{10000}", "a b"];
    for a in samples {
        for b in samples {
            assert_eq!(not_after(a, b), a <= b);
            assert_eq!(same_text(a, b), a == b);
            assert_eq!(same_ignoring_case(a, b), a.eq_ignore_ascii_case(b));
        }
    }
}

#[test]
fn defaults_are_as_documented() {
    let s = ServerConfig::default();
    assert_eq!((s.http_port, s.https_port, s.timeout_secs), (80, 443, 30));
    assert_eq!((s.max_connections, s.max_connections_per_ip), (10_000, 100));
    assert_eq!((s.rate_limit_rps, s.rate_limit_burst), (100, 200));
    let f = SecurityFlags::default();
    assert!(f.waf_sqli && f.waf_xss && f.waf_path_traversal && f.block_tls_abusers);
    assert_eq!(f.max_tls_failures, 10);
    assert!(!f.block_empty_user_agent);
    let h = HealthCheckConfig::default();
    assert!(h.enabled);
    assert_eq!((h.interval_secs, h.timeout_secs), (15, 5));
    assert_eq!(h.path, "/");
    assert_eq!(default_hc_path(), "/");
    assert_eq!(default_index_files(), ["index.html"]);
}

#[test]
fn domains_are_found_by_name() {
    let mut t = DomainTable::new();
    assert_eq!(t.len(), 0);
    assert!(t.get("a").is_none());
    t.insert("a".to_string(), domain("1"));
    t.insert("b".to_string(), domain("2"));
    t.insert("a".to_string(), domain("3"));
    assert_eq!(t.len(), 2);
    assert_eq!(t.get("a").unwrap().backends, ["3"]);
    assert_eq!(t.get("b").unwrap().backends, ["2"]);
    assert_eq!(t.name(1), "b");
    assert_eq!(t.config(1).backends, ["2"]);
    assert_eq!(t.find("b"), Some(1));
    assert_eq!(t.find("c"), None);
}

#[test]
fn domains_are_found_in_any_case() {
    let mut t = DomainTable::new();
    t.insert("Example.COM".to_string(), domain("1"));
    assert_eq!(t.name(0), "example.com");
    assert_eq!(t.get("example.com").unwrap().backends, ["1"]);
    assert_eq!(t.get("EXAMPLE.com").unwrap().backends, ["1"]);
    t.insert("example.com".to_string(), domain("2"));
    assert_eq!(t.len(), 1);
    assert_eq!(t.get("Example.com").unwrap().backends, ["2"]);
}

#[test]
fn configuration_needs_a_domain() {
    let mut c = Config { server: ServerConfig::default(), domains: DomainTable::new() };
    assert!(!c.is_complete());
    c.domains.insert("a".to_string(), domain("1"));
    assert!(c.is_complete());
}

#[test]
fn ports_are_overridden() {
    let mut c = Config { server: ServerConfig::default(), domains: DomainTable::new() };
    c.override_ports(None, None);
    assert_eq!((c.server.http_port, c.server.https_port), (80, 443));
    c.override_ports(Some(8080), None);
    assert_eq!((c.server.http_port, c.server.https_port), (8080, 443));
    c.override_ports(None, Some(8443));
    assert_eq!((c.server.http_port, c.server.https_port), (8080, 8443));
}

#[test]
fn keys_tell_clients_apart() {
    assert_eq!(ClientIp::V4(1).key(), (false, 1));
    assert_eq!(ClientIp::V6(1).key(), (true, 1));
    assert_eq!(ClientIp::V4(0xff00_0001).slot_hash(), 0xff00_0001);
    assert_eq!(ClientIp::V6(0x1_0000_0002).slot_hash(), 2);
}
