use curf::client::ClientIp;
use curf::config::{
    DomainConfig, DomainTable, ExtraHeader, HealthCheckConfig, LoadBalance, SecurityFlags,
    StaticFilesConfig,
};
use curf::health_check::{
    check_backend, check_url, probe_for, record_check, record_check_at, response_status,
    start_health_checks,
};
use curf::load_balancer::LoadBalancerManager;
use curf::proxy::{
    add_forwarding_headers, address_of, origin_form, passage_failed, redirect_reply, Action,
    AfterStatic, Answer, Beginning, Ending, Passage, ProxyHandler, UriParts,
};
use curf::rate_limit::RateLimiter;
use curf::reply::Reply;
use curf::request::{is_websocket_upgrade, Method, RequestHead};
use curf::security::SecurityChecker;
use hyper::header::HeaderValue;
use hyper::HeaderMap;

fn domain(backends: &[&str]) -> DomainConfig {
    DomainConfig {
        backends: backends.iter().map(|b| b.to_string()).collect(),
        load_balance: LoadBalance::LeastConnections,
        tls: None,
        static_files: None,
        redirect_to_https: false,
        health_check: HealthCheckConfig::default(),
        headers: Vec::new(),
    }
}

fn handler_with(table: DomainTable, rps: u32, flags: SecurityFlags) -> ProxyHandler {
    ProxyHandler::new(
        LoadBalancerManager::for_domains(&table),
        RateLimiter::new(rps, 1),
        SecurityChecker::new(10, flags),
        30,
        table,
    )
}

fn handler(name: &str, cfg: DomainConfig) -> ProxyHandler {
    let mut table = DomainTable::new();
    table.insert(name.to_string(), cfg);
    handler_with(table, 0, SecurityFlags::default())
}

fn request(target: &str, fields: &[(&'static str, &str)]) -> RequestHead {
    let mut headers = HeaderMap::new();
    for (name, value) in fields {
        headers.append(*name, HeaderValue::from_str(value).unwrap());
    }
    let (path, query) = match target.split_once('?') {
        Some((p, q)) => (p.to_string(), Some(q.to_string())),
        None => (target.to_string(), None),
    };
    RequestHead {
        method: Method::Get,
        path,
        query,
        path_and_query: Some(target.to_string()),
        headers,
    }
}

fn answer(status: u16) -> Option<Answer> {
    Some(Answer { status, headers: HeaderMap::new() })
}

fn client() -> ClientIp {
    ClientIp::V4(0x7f00_0001)
}

fn status(a: &Action) -> u16 {
    match a {
        Action::Answer(r) => r.status,
        other => panic!("{:?}", other),
    }
}

#[test]
fn checks_go_to_the_configured_path() {
    assert_eq!(check_url("http://a:3000", "/health"), "http://a:3000/health");
    assert_eq!(check_url("http://a:3000//", "health"), "http://a:3000/health");
    assert_eq!(check_url("http://a", ""), "http://a/");
}

#[test]
fn tasks_are_made_for_checked_domains() {
    let mut off = domain(&["http://b"]);
    off.health_check.enabled = false;
    let mut on = domain(&["http://a/", "http://c"]);
    on.health_check.path = "up".to_string();
    on.health_check.interval_secs = 7;
    on.health_check.timeout_secs = 3;
    let mut t = DomainTable::new();
    t.insert("off".to_string(), off);
    t.insert("none".to_string(), domain(&[]));
    t.insert("on".to_string(), on);
    let tasks = start_health_checks(&t);
    assert_eq!(tasks.len(), 1);
    assert_eq!(tasks[0].domain, "on");
    assert_eq!((tasks[0].interval_secs, tasks[0].timeout_secs), (7, 3));
    assert_eq!(tasks[0].checks.len(), 2);
    assert_eq!(tasks[0].checks[0].backend, "http://a/");
    assert_eq!(tasks[0].checks[0].url, "http://a/up");
    assert_eq!(tasks[0].checks[1].url, "http://c/up");
}

#[test]
fn probes_are_exact() {
    let p = probe_for("http://a.b:3000/x/y?z").unwrap();
    assert_eq!(p.addr, "a.b:3000");
    assert_eq!(
        p.request,
        "GET /x/y?z HTTP/1.0\r\nHost: a.b\r\nUser-Agent: curf-healthcheck/0.1\r\n\
         Connection: close\r\n\r\n"
    );
    let p = probe_for("http://a").unwrap();
    assert_eq!(p.addr, "a:80");
    assert!(p.request.starts_with("GET / HTTP/1.0\r\nHost: a\r\n"));
    assert_eq!(probe_for("http://a:no/").unwrap().addr, "a:80");
    assert_eq!(probe_for("http://[::1]:99/").unwrap().addr, "[::1]:99");
    assert!(probe_for("https://a").is_none());
    assert!(probe_for("http:/a").is_none());
}

#[test]
fn statuses_are_read() {
    assert_eq!(response_status(b"HTTP/1.1 204 No Content\r\n".to_vec()), 204);
    assert_eq!(response_status(b"HTTP/1.1".to_vec()), 0);
    assert_eq!(response_status(b"HTTP/1.1 abc".to_vec()), 0);
    assert_eq!(response_status(vec![]), 0);
    assert_eq!(response_status(b"HTTP/1.1 200 \xff".to_vec()), 200);
    assert_eq!(response_status(b"HTTP/1.1 200 OK\r\nx: \xe4".to_vec()), 200);
    assert_eq!(response_status(b"HTTP/1.1 20\xff".to_vec()), 0);
    assert_eq!(response_status(b"HTTP/1.1\xc2\xa0200".to_vec()), 200);
    assert_eq!(response_status("HTTP/1.1\u{2003}204\u{3000}OK".as_bytes().to_vec()), 204);
    assert_eq!(response_status("HTTP/1.1 200\u{e4} OK".as_bytes().to_vec()), 0);
    assert_eq!(response_status(b"HTTP/1.1\xc2\xa0200 OK \xff".to_vec()), 0);
    assert!(check_backend(Some(200)) && check_backend(Some(299)));
    assert!(!check_backend(Some(199)) && !check_backend(Some(300)) && !check_backend(Some(0)));
    assert!(!check_backend(None));
}

#[test]
fn failed_checks_keep_traffic_away() {
    let mut t = DomainTable::new();
    t.insert("x".to_string(), domain(&["http://a", "http://b"]));
    let mut m = LoadBalancerManager::for_domains(&t);
    let h = m.get("x").unwrap();
    for now in 0..5 {
        record_check_at(&mut m, &h, "http://a", false, 100 + now);
    }
    assert_eq!(m.select_at(&h, 104, None).unwrap().0, "http://b");
    assert_eq!(m.select_at(&h, 133, None).unwrap().0, "http://b");
    record_check_at(&mut m, &h, "http://a", true, 105);
    assert_eq!(m.select_at(&h, 105, None).unwrap().0, "http://a");
    for _ in 0..5 {
        record_check(&mut m, &h, "http://a", false);
    }
    assert_eq!(m.select(&h, None).unwrap().0, "http://b");
    record_check(&mut m, &h, "http://a", true);
    assert_eq!(m.select(&h, None).unwrap().0, "http://a");
}

#[test]
fn too_many_requests_are_refused_first() {
    let mut t = DomainTable::new();
    t.insert("x".to_string(), domain(&["http://a"]));
    let mut p = handler_with(t, 1, SecurityFlags::default());
    let r = request("/", &[("host", "x")]);
    assert!(matches!(p.handle_at(client(), &r, false, 0), Action::Forward(h) if h == "x"));
    let bad = request("/../", &[("host", "x")]);
    assert_eq!(status(&p.handle_at(client(), &bad, false, 0)), 429);
    assert_eq!(status(&p.handle_at(client(), &bad, false, 1_000_000_000)), 403);
    assert_eq!(status(&p.handle_at(client(), &r, false, 1_000_000_000)), 429);
}

#[test]
fn blocked_clients_are_refused() {
    let mut p = handler("x", domain(&["http://a"]));
    let r = request("/", &[("host", "x")]);
    assert!(matches!(p.handle(client(), &r, true), Action::Forward(_)));
    for _ in 0..10 {
        p.security.record_tls_failure(client());
    }
    match p.handle(client(), &r, true) {
        Action::Answer(reply) => {
            assert_eq!(reply.status, 403);
            assert!(String::from_utf8(reply.body).unwrap().contains("<p>blocked</p>"));
        }
        other => panic!("{:?}", other),
    }
    assert!(matches!(p.handle(ClientIp::V4(2), &r, true), Action::Forward(_)));
    // What is wrong with the request itself comes first.
    match p.handle(client(), &request("/../", &[("host", "x")]), true) {
        Action::Answer(reply) => {
            assert_eq!(reply.status, 403);
            let page = String::from_utf8(reply.body).unwrap();
            assert!(page.contains("<p>Path traversal attempt</p>"));
        }
        other => panic!("{:?}", other),
    }
}

#[test]
fn attacks_are_refused_with_a_reason() {
    let mut p = handler("x", domain(&["http://a"]));
    match p.handle(client(), &request("/a?q=<SCRIPT>", &[]), false) {
        Action::Answer(reply) => {
            assert_eq!(reply.status, 403);
            let page = String::from_utf8(reply.body).unwrap();
            assert!(page.contains("<p>XSS pattern detected</p>"));
        }
        other => panic!("{:?}", other),
    }
}

#[test]
fn agents_are_read_from_the_request() {
    let mut flags = SecurityFlags::default();
    flags.block_empty_user_agent = true;
    let mut p = handler_with(DomainTable::new(), 0, flags);
    assert_eq!(status(&p.handle(client(), &request("/", &[]), false)), 403);
    let r = request("/", &[("user-agent", "curl")]);
    assert!(matches!(p.handle(client(), &r, false), Action::Forward(_)));
}

#[test]
fn hosts_are_read_without_port_and_case() {
    assert_eq!(request("/", &[("host", "Example.COM:8080")]).host(), "example.com");
    assert_eq!(request("/", &[]).host(), "");
    let mut r = request("/", &[]);
    r.headers.insert("host", HeaderValue::from_bytes(&[0xe4]).unwrap());
    assert_eq!(r.host(), "");
}

#[test]
fn plain_requests_are_redirected() {
    let mut cfg = domain(&["http://a"]);
    cfg.redirect_to_https = true;
    let mut p = handler("x", cfg);
    let r = request("/p?q=1", &[("host", "X:80"), ("upgrade", "websocket")]);
    match p.handle(client(), &r, false) {
        Action::Redirect(location) => {
            assert_eq!(location, "https://x/p?q=1");
            let reply = redirect_reply(&location);
            assert_eq!(reply.status, 301);
            assert_eq!(reply.headers.get("location").unwrap(), "https://x/p?q=1");
            assert_eq!(reply.headers.len(), 1);
            assert!(reply.body.is_empty());
        }
        other => panic!("{:?}", other),
    }
    assert!(matches!(p.handle(client(), &r, true), Action::WebSocket(h) if h == "x"));
    let other = request("/p", &[("host", "y")]);
    assert!(matches!(p.handle(client(), &other, false), Action::Forward(h) if h == "y"));
}

#[test]
fn origin_is_the_path_and_the_query() {
    let mut r = request("/a?b", &[]);
    assert_eq!(origin_form(&r), "/a?b");
    r.path_and_query = None;
    assert_eq!(origin_form(&r), "/");
}

#[test]
fn upgrades_are_recognised() {
    assert!(is_websocket_upgrade(&request("/", &[("upgrade", "WebSocket")]).headers));
    assert!(!is_websocket_upgrade(&request("/", &[("upgrade", "h2c")]).headers));
    assert!(!is_websocket_upgrade(&request("/", &[]).headers));
}

#[test]
fn static_files_come_before_the_backends() {
    let mut cfg = domain(&["http://a"]);
    cfg.static_files = Some(StaticFilesConfig {
        root: "/srv".to_string(),
        index: vec!["i.html".to_string()],
        autoindex: false,
    });
    let mut p = handler("x", cfg);
    let r = request("/f", &[("host", "x")]);
    assert!(matches!(p.handle(client(), &r, false), Action::Static(h) if h == "x"));
    let server = p.static_server("x").unwrap();
    assert_eq!(server.safe_path("/f").as_deref(), Some("/srv/f"));
    assert!(p.static_server("y").is_none());
}

#[test]
fn exchange_with_an_answer() {
    let mut p = handler("x", domain(&["http://a:3000", "http://b"]));
    let h = p.lb_manager.get("x").unwrap();
    for _ in 0..5 {
        p.lb_manager.failure_at(&h, "http://a:3000", 10);
    }
    p.lb_manager.failure_at(&h, "http://b", 10);
    let (x, addr) = match p.begin_at(Passage::Http, "x", client(), "/", 40) {
        Beginning::Connect(x, addr) => (x, addr),
        other => panic!("{:?}", other),
    };
    assert_eq!(addr, "a:3000");
    // The first backend is busy now.
    assert_eq!(p.lb_manager.select_at(&h, 40, None).unwrap().0, "http://b");
    match p.finish(x, answer(500)) {
        Ending::Relay(a) => assert_eq!(a.status, 500),
        other => panic!("{:?}", other),
    }
    assert_eq!(p.lb_manager.select_at(&h, 40, None).unwrap().0, "http://a:3000");
}

#[test]
fn exchange_without_an_answer() {
    let mut p = handler("x", domain(&["http://a", "http://b"]));
    let h = p.lb_manager.get("x").unwrap();
    let x = match p.begin(Passage::Http, "x", client(), "/a?b") {
        Beginning::Connect(x, addr) => {
            assert_eq!(addr, "a:80");
            x
        }
        other => panic!("{:?}", other),
    };
    match p.finish(x, None) {
        Ending::Failed(r) => {
            assert_eq!(r.status, 502);
            let page = String::from_utf8(r.body).unwrap();
            assert!(page.contains("<title>502 Bad Gateway</title>"));
            assert!(page.contains("<p>The upstream server is unreachable.</p>"));
        }
        other => panic!("{:?}", other),
    }
    assert_eq!(p.lb_manager.select_at(&h, 40, None).unwrap().0, "http://a");
}

#[test]
fn broken_backends_are_routed_around() {
    for passage in [Passage::Http, Passage::WebSocket] {
        let mut p = handler("x", domain(&["http://a", "http://b"]));
        for now in 100..105 {
            match p.begin_at(passage, "x", client(), "/", now) {
                Beginning::Connect(x, addr) => {
                    assert_eq!(addr, "a:80");
                    p.finish_at(x, None, now);
                }
                other => panic!("{:?}", other),
            }
        }
        for (now, expected) in [(104, "b:80"), (133, "b:80"), (134, "a:80")] {
            match p.begin_at(passage, "x", client(), "/", now) {
                Beginning::Connect(x, addr) => {
                    assert_eq!(addr, expected);
                    p.abandon(x);
                }
                other => panic!("{:?}", other),
            }
        }
    }
}

#[test]
fn abandoned_requests_are_given_back() {
    let mut p = handler("x", domain(&["http://a", "http://b"]));
    for _ in 0..20 {
        match p.begin_at(Passage::Http, "x", client(), "/", 0) {
            Beginning::Connect(x, addr) => {
                assert_eq!(addr, "a:80");
                p.abandon(x);
            }
            other => panic!("{:?}", other),
        }
    }
}

#[test]
fn only_switching_protocols_opens_a_tunnel() {
    for (reply, opened) in [(answer(101), true), (answer(200), false), (None, false)] {
        let mut p = handler("x", domain(&["http://a"]));
        let x = match p.begin_at(Passage::WebSocket, "x", client(), "/", 0) {
            Beginning::Connect(x, _) => x,
            other => panic!("{:?}", other),
        };
        match p.finish(x, reply) {
            Ending::Tunnel(r) => {
                assert!(opened);
                assert_eq!(r.status, 101);
                assert!(r.body.is_empty());
            }
            Ending::Failed(r) => {
                assert!(!opened);
                assert_eq!(r.body, b"502 WebSocket proxy error\n");
            }
            Ending::Relay(_) => panic!("an upgrade has no reply"),
        }
    }
}

#[test]
fn tunnels_open_with_the_fields_of_the_backend() {
    let mut headers = HeaderMap::new();
    headers.insert("upgrade", HeaderValue::from_static("websocket"));
    headers.insert("connection", HeaderValue::from_static("Upgrade"));
    headers.insert("sec-websocket-accept", HeaderValue::from_static("k"));
    let mut p = handler("x", domain(&["http://a"]));
    let x = match p.begin_at(Passage::WebSocket, "x", client(), "/", 0) {
        Beginning::Connect(x, _) => x,
        other => panic!("{:?}", other),
    };
    match p.finish(x, Some(Answer { status: 101, headers: headers.clone() })) {
        Ending::Tunnel(r) => assert_eq!(r.headers, headers),
        other => panic!("{:?}", other),
    }
}

#[test]
fn answers_change_circuits() {
    for (passage, status, forgiven) in [
        (Passage::Http, 404, true),
        (Passage::WebSocket, 101, false),
        (Passage::WebSocket, 404, false),
    ] {
        let mut p = handler("x", domain(&["http://a"]));
        let h = p.lb_manager.get("x").unwrap();
        for _ in 0..4 {
            p.lb_manager.failure_at(&h, "http://a", 5);
        }
        match p.begin_at(passage, "x", client(), "/", 5) {
            Beginning::Connect(x, _) => {
                p.finish_at(x, answer(status), 5);
            }
            other => panic!("{:?}", other),
        }
        p.lb_manager.failure_at(&h, "http://a", 5);
        assert_eq!(p.lb_manager.select_at(&h, 5, None).is_some(), forgiven);
    }
}

#[test]
fn domains_are_reached_in_any_case() {
    let mut p = handler("Example.com", domain(&["http://a"]));
    let r = request("/", &[("host", "Example.COM")]);
    let host = match p.handle(client(), &r, false) {
        Action::Forward(host) => host,
        other => panic!("{:?}", other),
    };
    assert!(matches!(
        p.begin_at(Passage::Http, &host, client(), "/", 0),
        Beginning::Connect(_, addr) if addr == "a:80"
    ));
}

#[test]
fn nothing_to_pass_a_request_on_to() {
    let mut p = handler("x", domain(&["http://a"]));
    match p.begin_at(Passage::Http, "y", client(), "/", 0) {
        Beginning::Refused(r) => assert_eq!(r.status, 502),
        other => panic!("{:?}", other),
    }
    let h = p.lb_manager.get("x").unwrap();
    for _ in 0..5 {
        p.lb_manager.failure_at(&h, "http://a", 0);
    }
    match p.begin_at(Passage::WebSocket, "x", client(), "/", 0) {
        Beginning::Refused(r) => assert_eq!(r.body, passage_failed(Passage::WebSocket).body),
        other => panic!("{:?}", other),
    }
}

#[test]
fn unreadable_url_gives_the_request_back() {
    let mut p = handler("x", domain(&["not a uri", "http://b"]));
    for _ in 0..3 {
        match p.begin_at(Passage::Http, "x", client(), "/", 0) {
            Beginning::Refused(r) => assert_eq!(r.status, 502),
            other => panic!("{:?}", other),
        }
    }
}

#[test]
fn unreadable_origin_gives_the_request_back() {
    let mut p = handler("x", domain(&["http://a", "http://b"]));
    let h = p.lb_manager.get("x").unwrap();
    match p.begin_at(Passage::Http, "x", client(), "/a b", 0) {
        Beginning::Refused(r) => assert_eq!(r.status, 502),
        other => panic!("{:?}", other),
    }
    assert_eq!(p.lb_manager.select_at(&h, 0, None).unwrap().0, "http://a");
}

#[test]
fn addresses_have_defaults() {
    let none = UriParts { host: None, port: None };
    assert_eq!(address_of(&none), "localhost:80");
    let some = UriParts { host: Some("h".to_string()), port: Some(8080) };
    assert_eq!(address_of(&some), "h:8080");
}

#[test]
fn backends_learn_the_client() {
    let mut h = HeaderMap::new();
    h.insert("accept", HeaderValue::from_static("*/*"));
    add_forwarding_headers(&mut h, "10.0.0.1", "x");
    assert_eq!(h.get("x-forwarded-for").unwrap(), "10.0.0.1");
    assert_eq!(h.get("x-real-ip").unwrap(), "10.0.0.1");
    assert_eq!(h.get("x-forwarded-host").unwrap(), "x");
    assert_eq!(h.get("accept").unwrap(), "*/*");
    add_forwarding_headers(&mut h, "10.0.0.2", "");
    assert_eq!(h.get("x-forwarded-for").unwrap(), "10.0.0.1, 10.0.0.2");
    assert_eq!(h.get("x-real-ip").unwrap(), "10.0.0.2");
    assert_eq!(h.get("x-forwarded-host").unwrap(), "x");
}

#[test]
fn unfit_values_are_left_out() {
    let mut h = HeaderMap::new();
    add_forwarding_headers(&mut h, "a\nb", "x\ny");
    assert_eq!(h.get("x-forwarded-for").unwrap(), "");
    assert_eq!(h.get("x-real-ip").unwrap(), "");
    assert!(h.get("x-forwarded-host").is_none());
}

#[test]
fn extra_headers_are_injected() {
    let mut cfg = domain(&["http://a"]);
    for (name, value) in [("X-Frame-Options", "DENY"), ("bad name", "x"), ("ok", "a\nb")] {
        cfg.headers.push(ExtraHeader { name: name.to_string(), value: value.to_string() });
    }
    cfg.headers.push(ExtraHeader { name: "etag".to_string(), value: "1".to_string() });
    cfg.headers.push(ExtraHeader { name: "ETAG".to_string(), value: "2".to_string() });
    let p = handler("x", cfg);
    let mut h = HeaderMap::new();
    h.append("etag", HeaderValue::from_static("old"));
    h.append("etag", HeaderValue::from_static("older"));
    h.append("date", HeaderValue::from_static("today"));
    assert!(p.room_for_extra_headers(&h, "x"));
    p.inject_extra_headers(&mut h, "x");
    assert_eq!(h.len(), 3);
    assert_eq!(h.get("etag").unwrap(), "2");
    assert_eq!(h.get("x-frame-options").unwrap(), "DENY");
    assert_eq!(h.get("date").unwrap(), "today");
    p.inject_extra_headers(&mut h, "unknown");
    assert_eq!(h.len(), 3);
}

fn dressed_domain() -> DomainConfig {
    let mut cfg = domain(&["http://a"]);
    for (name, value) in [("X-Frame-Options", "DENY"), ("Server", "curf")] {
        cfg.headers.push(ExtraHeader { name: name.to_string(), value: value.to_string() });
    }
    cfg
}

fn plain_fields() -> HeaderMap {
    let mut headers = HeaderMap::new();
    headers.insert("server", HeaderValue::from_static("other"));
    headers.insert("etag", HeaderValue::from_static("1"));
    headers
}

#[test]
fn found_files_are_sent_with_the_extra_headers() {
    let p = handler("x", dressed_domain());
    let found = Reply { status: 206, headers: plain_fields(), body: b"data".to_vec() };
    assert!(p.room_for_extra_headers(&found.headers, "X"));
    match p.after_static("X", Some(found)) {
        AfterStatic::Answer(r) => {
            assert_eq!(r.status, 206);
            assert_eq!(r.body, b"data");
            assert_eq!(r.headers.len(), 3);
            assert_eq!(r.headers.get("x-frame-options").unwrap(), "DENY");
            assert_eq!(r.headers.get("server").unwrap(), "curf");
            assert_eq!(r.headers.get("etag").unwrap(), "1");
        }
        other => panic!("{:?}", other),
    }
}

#[test]
fn missing_files_are_forwarded() {
    let p = handler("x", dressed_domain());
    assert!(matches!(p.after_static("x", None), AfterStatic::Forward(h) if h == "x"));
}

#[test]
fn answers_are_relayed_with_the_extra_headers() {
    let mut p = handler("x", dressed_domain());
    let x = match p.begin_at(Passage::Http, "x", client(), "/", 0) {
        Beginning::Connect(x, _) => x,
        other => panic!("{:?}", other),
    };
    match p.finish_at(x, Some(Answer { status: 404, headers: plain_fields() }), 0) {
        Ending::Relay(a) => {
            assert_eq!(a.status, 404);
            assert_eq!(a.headers.len(), 3);
            assert_eq!(a.headers.get("x-frame-options").unwrap(), "DENY");
            assert_eq!(a.headers.get("server").unwrap(), "curf");
            assert_eq!(a.headers.get("etag").unwrap(), "1");
        }
        other => panic!("{:?}", other),
    }
}
