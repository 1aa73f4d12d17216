use curf::client::ClientIp;
use curf::clock::secs_or_zero;
use curf::config::SecurityFlags;
use curf::listener::{on_abandoned, on_connection, ConnAction, ConnEvent, ConnState, Turnstile};
use curf::rate_limit::RateLimiter;
use curf::security::{screen, SecurityChecker};

const SECOND: u128 = 1_000_000_000;

fn flags() -> SecurityFlags {
    SecurityFlags::default()
}

fn ip(n: u32) -> ClientIp {
    ClientIp::V4(n)
}

#[test]
fn burst_is_allowed_at_once() {
    let mut l = RateLimiter::new(10, 3);
    for _ in 0..3 {
        assert!(l.is_allowed_at(ip(1), 5));
    }
    assert!(!l.is_allowed_at(ip(1), 5));
}

#[test]
fn burst_is_allowed_whatever_others_send() {
    let mut l = RateLimiter::new(10, 2);
    for (i, allowed) in [true, true, false].into_iter().enumerate() {
        for _ in 0..5 {
            l.is_allowed_at(ip(2), i as u128);
            l.is_allowed_at(ip(3), 7 * SECOND);
        }
        assert_eq!(l.is_allowed_at(ip(1), 5), allowed);
    }
}

#[test]
fn tokens_come_back_at_the_rate() {
    let mut l = RateLimiter::new(2, 1);
    assert!(l.is_allowed_at(ip(1), 0));
    assert!(!l.is_allowed_at(ip(1), SECOND / 2 - 1));
    // Half a second makes a token, however often one asks in between.
    assert!(l.is_allowed_at(ip(1), SECOND / 2));
    assert!(!l.is_allowed_at(ip(1), SECOND / 2));
}

#[test]
fn bucket_never_overflows() {
    let mut l = RateLimiter::new(100, 2);
    assert!(l.is_allowed_at(ip(1), 0));
    let later = 1000 * SECOND;
    assert!(l.is_allowed_at(ip(1), later));
    assert!(l.is_allowed_at(ip(1), later));
    assert!(!l.is_allowed_at(ip(1), later));
    assert!(l.is_allowed_at(ip(1), u128::MAX));
}

#[test]
fn rate_is_bounded() {
    let mut l = RateLimiter::new(5, 7);
    let mut allowed = 0;
    for step in 0..1000u128 {
        if l.is_allowed_at(ip(1), step * SECOND / 100) {
            allowed += 1;
        }
    }
    // 7 at once, and 5 in each of the 9.99 seconds.
    assert_eq!(allowed, 7 + 49);
}

#[test]
fn clock_that_goes_back_gives_nothing() {
    let mut l = RateLimiter::new(1, 1);
    assert!(l.is_allowed_at(ip(1), 10 * SECOND));
    assert!(!l.is_allowed_at(ip(1), 0));
    assert!(l.is_allowed_at(ip(1), SECOND));
}

#[test]
fn zero_rate_allows_everything() {
    let mut l = RateLimiter::new(0, 0);
    for _ in 0..1000 {
        assert!(l.is_allowed(ip(1)));
    }
}

#[test]
fn zero_burst_allows_nothing() {
    let mut l = RateLimiter::new(5, 0);
    assert!(!l.is_allowed_at(ip(1), 0));
    assert!(!l.is_allowed_at(ip(1), 1000 * SECOND));
}

#[test]
fn clients_have_buckets_of_their_own() {
    let mut l = RateLimiter::new(1, 1);
    assert!(l.is_allowed_at(ip(1), 0));
    assert!(l.is_allowed_at(ip(2), 0));
    assert!(l.is_allowed_at(ClientIp::V6(1), 0));
    assert!(!l.is_allowed_at(ip(1), 0));
}

#[test]
fn requests_are_limited_now() {
    let mut l = RateLimiter::new(1, 2);
    assert!(l.is_allowed(ip(1)));
    assert!(l.is_allowed(ip(1)));
    assert!(!l.is_allowed(ip(1)));
}

#[test]
fn clock_before_the_epoch_counts_as_zero() {
    assert_eq!(secs_or_zero(None), 0);
    assert_eq!(secs_or_zero(Some(7)), 7);
}

#[test]
fn connections_are_limited_per_client() {
    let mut s = SecurityChecker::new(2, flags());
    assert_eq!(s.check_and_acquire_connection(ip(1)), Ok(()));
    assert_eq!(s.check_and_acquire_connection(ip(1)), Ok(()));
    assert_eq!(s.check_and_acquire_connection(ip(1)), Err(()));
    assert_eq!(s.check_and_acquire_connection(ip(2)), Ok(()));
    s.release_connection(ip(1));
    assert_eq!(s.check_and_acquire_connection(ip(1)), Ok(()));
    assert_eq!(s.check_and_acquire_connection(ip(1)), Err(()));
}

#[test]
fn releases_never_underflow() {
    let mut s = SecurityChecker::new(1, flags());
    s.release_connection(ip(1));
    assert_eq!(s.check_and_acquire_connection(ip(1)), Ok(()));
    s.release_connection(ip(1));
    s.release_connection(ip(1));
    s.release_connection(ip(1));
    assert_eq!(s.check_and_acquire_connection(ip(1)), Ok(()));
    assert_eq!(s.check_and_acquire_connection(ip(1)), Err(()));
}

#[test]
fn limit_of_zero_admits_nobody() {
    let mut s = SecurityChecker::new(0, flags());
    assert_eq!(s.check_and_acquire_connection(ip(1)), Err(()));
}

#[test]
fn tls_abusers_are_blocked() {
    let mut s = SecurityChecker::new(5, flags());
    for _ in 0..9 {
        s.record_tls_failure(ip(1));
        assert!(!s.is_blocked(ip(1)));
    }
    s.record_tls_failure(ip(1));
    assert!(s.is_blocked(ip(1)));
    assert!(!s.is_blocked(ip(2)));
    assert_eq!(s.check_and_acquire_connection(ip(1)), Err(()));
    assert_eq!(s.check_and_acquire_connection(ip(2)), Ok(()));
}

#[test]
fn tls_abuse_may_be_ignored() {
    let mut f = flags();
    f.block_tls_abusers = false;
    let mut s = SecurityChecker::new(5, f);
    for _ in 0..100 {
        s.record_tls_failure(ip(1));
    }
    assert!(!s.is_blocked(ip(1)));
}

#[test]
fn path_traversal_is_refused() {
    let s = SecurityChecker::new(5, flags());
    let refused = Err("Path traversal attempt");
    assert_eq!(s.check_request("/../etc/passwd", None, None), refused);
    assert_eq!(s.check_request("/x", Some("f=..\\secret"), None), refused);
    assert_eq!(s.check_request("/a..b/c", None, None), Ok(()));
}

#[test]
fn sql_injection_is_refused() {
    let s = SecurityChecker::new(5, flags());
    let patterns = [
        " or 1=1", "' or '", "' or 1", "union select", "union all select", "select * from",
        "drop table", "insert into", "delete from", "--", "xp_cmdshell", "exec(",
    ];
    for p in patterns {
        assert_eq!(
            s.check_request("/q", Some(&format!("id=1{}x", p)), None),
            Err("SQL injection pattern detected")
        );
    }
    assert_eq!(s.check_request("/union", Some("select"), None), Ok(()));
}

#[test]
fn xss_is_refused() {
    let s = SecurityChecker::new(5, flags());
    let patterns = [
        "<script", "javascript:", "onerror=", "onload=", "onclick=", "alert(", "document.cookie",
        "eval(", "<iframe", "vbscript:",
    ];
    for p in patterns {
        assert_eq!(
            s.check_request(&format!("/a{}b", p), None, None),
            Err("XSS pattern detected")
        );
    }
}

#[test]
fn case_does_not_matter() {
    let s = SecurityChecker::new(5, flags());
    assert_eq!(
        s.check_request("/q", Some("UNION SeLeCt"), None),
        Err("SQL injection pattern detected")
    );
    assert_eq!(s.check_request("/<SCRIPT>", None, None), Err("XSS pattern detected"));
    // The Kelvin sign is a capital k.
    assert_eq!(
        s.check_request("/document.coo\u{212a}ie", None, None),
        Err("XSS pattern detected")
    );
}

#[test]
fn patterns_reach_over_the_question_mark() {
    let mut f = flags();
    f.waf_path_traversal = false;
    assert_eq!(screen(&f, "/..?/", None), Ok(()));
    assert_eq!(screen(&f, "/-?-", None), Ok(()));
    assert_eq!(screen(&f, "/a?--", None), Err("SQL injection pattern detected"));
}

#[test]
fn agents_are_asked_for_only_when_wanted() {
    let s = SecurityChecker::new(5, flags());
    assert_eq!(s.check_request("/", None, None), Ok(()));
    let mut f = flags();
    f.block_empty_user_agent = true;
    let s = SecurityChecker::new(5, f);
    assert_eq!(s.check_request("/", None, None), Err("No User-Agent"));
    assert_eq!(s.check_request("/", None, Some(" \t\u{3000}")), Err("No User-Agent"));
    assert_eq!(s.check_request("/", None, Some(" curl ")), Ok(()));
}

#[test]
fn all_off_refuses_nothing() {
    let f = SecurityFlags {
        waf_sqli: false,
        waf_xss: false,
        waf_path_traversal: false,
        block_tls_abusers: false,
        max_tls_failures: 0,
        block_empty_user_agent: false,
    };
    let s = SecurityChecker::new(5, f);
    assert_eq!(s.check_request("/../<script", Some("drop table"), None), Ok(()));
}

#[test]
fn first_refusal_wins() {
    let mut f = flags();
    f.block_empty_user_agent = true;
    assert_eq!(screen(&f, "../--<script", None), Err("No User-Agent"));
    assert_eq!(screen(&f, "../--<script", Some("x")), Err("Path traversal attempt"));
    assert_eq!(screen(&f, "--<script", Some("x")), Err("SQL injection pattern detected"));
    assert_eq!(screen(&f, "<script", Some("x")), Err("XSS pattern detected"));
}

#[test]
fn plain_connection_is_served_and_released() {
    let mut g = Turnstile::new(5);
    let mut s = SecurityChecker::new(1, flags());
    let client = ip(9);
    let accepted = ConnEvent::Accepted(client);
    let (state, action) = on_connection(&mut g, &mut s, false, ConnState::Waiting, accepted);
    assert_eq!((state, action), (ConnState::Serving(client), ConnAction::Serve(60)));
    let (_, second) = on_connection(&mut g, &mut s, false, ConnState::Waiting, accepted);
    assert_eq!(second, ConnAction::DropForClient);
    let (state, action) = on_connection(&mut g, &mut s, false, state, ConnEvent::Ended);
    assert_eq!((state, action), (ConnState::Closed, ConnAction::Close));
    assert_eq!(s.check_and_acquire_connection(client), Ok(()));
}

#[test]
fn failed_accepts_and_full_house() {
    let mut g = Turnstile::new(1);
    let mut s = SecurityChecker::new(1, flags());
    let r = on_connection(&mut g, &mut s, true, ConnState::Waiting, ConnEvent::AcceptFailed);
    assert_eq!(r, (ConnState::Closed, ConnAction::Pause(10)));
    let first = ConnEvent::Accepted(ip(1));
    let (state, _) = on_connection(&mut g, &mut s, false, ConnState::Waiting, first);
    let second = ConnEvent::Accepted(ip(2));
    let r = on_connection(&mut g, &mut s, true, ConnState::Waiting, second);
    assert_eq!(r, (ConnState::Closed, ConnAction::DropForTotal));
    assert_eq!(s.check_and_acquire_connection(ip(2)), Ok(()));
    s.release_connection(ip(2));
    on_connection(&mut g, &mut s, false, state, ConnEvent::Ended);
    let (state, _) = on_connection(&mut g, &mut s, true, ConnState::Waiting, second);
    assert_eq!(state, ConnState::Handshaking(ip(2)));
}

#[test]
fn refused_clients_take_no_permit() {
    let mut g = Turnstile::new(2);
    let mut s = SecurityChecker::new(1, flags());
    for _ in 0..5 {
        on_connection(&mut g, &mut s, false, ConnState::Waiting, ConnEvent::Accepted(ip(1)));
    }
    assert!(g.enter());
    assert!(!g.enter());
    g.leave();
    g.leave();
    g.leave();
    assert!(g.enter() && g.enter() && !g.enter());
}

#[test]
fn failed_handshakes_are_noted_and_released() {
    let mut f = flags();
    f.max_tls_failures = 2;
    let mut g = Turnstile::new(1);
    let mut s = SecurityChecker::new(1, f);
    let accepted = ConnEvent::Accepted(ip(1));
    for event in [ConnEvent::HandshakeFailed, ConnEvent::HandshakeTimedOut] {
        let (state, action) = on_connection(&mut g, &mut s, true, ConnState::Waiting, accepted);
        assert_eq!(action, ConnAction::Handshake(10));
        assert_eq!(state, ConnState::Handshaking(ip(1)));
        let r = on_connection(&mut g, &mut s, true, state, event);
        assert_eq!(r, (ConnState::Closed, ConnAction::Close));
    }
    assert!(s.is_blocked(ip(1)));
    let r = on_connection(&mut g, &mut s, true, ConnState::Waiting, accepted);
    assert_eq!(r, (ConnState::Closed, ConnAction::DropForClient));
}

#[test]
fn tls_connection_is_served_after_the_handshake() {
    let mut g = Turnstile::new(1);
    let mut s = SecurityChecker::new(1, flags());
    let accepted = ConnEvent::Accepted(ip(1));
    let (state, _) = on_connection(&mut g, &mut s, true, ConnState::Waiting, accepted);
    let r = on_connection(&mut g, &mut s, true, state, ConnEvent::HandshakeDone);
    assert_eq!(r, (ConnState::Serving(ip(1)), ConnAction::Serve(60)));
}

#[test]
fn abandoned_connections_are_released() {
    let mut g = Turnstile::new(1);
    let mut s = SecurityChecker::new(1, flags());
    for tls in [false, true] {
        let accepted = ConnEvent::Accepted(ip(1));
        let (state, _) = on_connection(&mut g, &mut s, tls, ConnState::Waiting, accepted);
        assert!(!g.enter());
        on_abandoned(&mut g, &mut s, state);
    }
    on_abandoned(&mut g, &mut s, ConnState::Waiting);
    on_abandoned(&mut g, &mut s, ConnState::Closed);
    assert!(g.enter());
    assert_eq!(s.check_and_acquire_connection(ip(1)), Ok(()));
}
