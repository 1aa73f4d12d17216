use curf::client::ClientIp;
use curf::config::{DomainConfig, DomainTable, HealthCheckConfig, LoadBalance};
use curf::load_balancer::{Backend, LoadBalancer, LoadBalancerManager};

fn domain(backends: &[&str], load_balance: LoadBalance) -> DomainConfig {
    DomainConfig {
        backends: backends.iter().map(|b| b.to_string()).collect(),
        load_balance,
        tls: None,
        static_files: None,
        redirect_to_https: false,
        health_check: HealthCheckConfig::default(),
        headers: Vec::new(),
    }
}

fn pick(lb: &mut LoadBalancer, now: u64, client: Option<ClientIp>) -> String {
    let (url, guard) = lb.select_at(now, client).unwrap();
    lb.release(guard);
    url
}

#[test]
fn circuit_opens_with_the_fifth_failure() {
    let mut b = Backend::new("http://a".to_string());
    for t in 0..4 {
        b.record_failure_at(100 + t);
        assert!(b.is_healthy_at(100 + t));
    }
    b.record_failure_at(104);
    assert!(!b.is_healthy_at(104));
    assert!(!b.is_healthy_at(133));
}

#[test]
fn circuit_resets_after_thirty_seconds() {
    let mut b = Backend::new("http://a".to_string());
    for _ in 0..5 {
        b.record_failure_at(1000);
    }
    assert!(!b.is_healthy_at(1029));
    assert!(b.is_healthy_at(1030));
    // The count has started over: four more failures do no harm.
    for _ in 0..4 {
        b.record_failure_at(1030);
    }
    assert!(b.is_healthy_at(1030));
    b.record_failure_at(1030);
    assert!(!b.is_healthy_at(1030));
}

#[test]
fn clock_that_is_set_back_keeps_the_circuit_open() {
    let mut b = Backend::new("http://a".to_string());
    for _ in 0..5 {
        b.record_failure_at(1000);
    }
    assert!(!b.is_healthy_at(999));
    assert!(!b.is_healthy_at(0));
    assert!(!b.is_healthy_at(1029));
    assert!(b.is_healthy_at(1030));
    for _ in 0..5 {
        b.record_failure_at(u64::MAX - 1);
    }
    assert!(!b.is_healthy_at(u64::MAX));
}

#[test]
fn round_robin_is_even_among_the_healthy() {
    let names = ["a", "b", "c", "d", "e"];
    let mut lb = LoadBalancer::new(&domain(&names, LoadBalance::RoundRobin));
    for _ in 0..5 {
        lb.failure_at("b", 10);
        lb.failure_at("d", 10);
    }
    for _ in 0..4 {
        pick(&mut lb, 10, None);
    }
    let urls: Vec<String> = (0..6).map(|_| pick(&mut lb, 10, None)).collect();
    assert_eq!(urls, ["c", "e", "a", "c", "e", "a"]);
}

#[test]
fn success_closes_the_circuit() {
    let mut b = Backend::new("http://a".to_string());
    for _ in 0..5 {
        b.record_failure_at(50);
    }
    assert!(!b.is_healthy_at(50));
    b.record_success();
    assert!(b.is_healthy_at(50));
}

#[test]
fn failures_now_open_the_circuit() {
    let mut b = Backend::new("http://a".to_string());
    for _ in 0..5 {
        b.record_failure();
    }
    assert!(!b.is_healthy());
}

#[test]
fn requests_are_counted() {
    let mut b = Backend::new("http://a".to_string());
    assert_eq!(b.active_count(), 0);
    b.acquire();
    b.acquire();
    assert_eq!(b.active_count(), 2);
    b.release();
    assert_eq!(b.active_count(), 1);
    assert_eq!(b.url(), "http://a");
}

#[test]
fn round_robin_goes_in_order() {
    let mut lb = LoadBalancer::new(&domain(&["a", "b", "c"], LoadBalance::RoundRobin));
    let urls: Vec<String> = (0..6).map(|_| pick(&mut lb, 0, None)).collect();
    assert_eq!(urls, ["a", "b", "c", "a", "b", "c"]);
}

#[test]
fn round_robin_skips_what_is_down() {
    let mut lb = LoadBalancer::new(&domain(&["a", "b", "c"], LoadBalance::RoundRobin));
    for _ in 0..5 {
        lb.failure_at("b", 10);
    }
    let urls: Vec<String> = (0..4).map(|_| pick(&mut lb, 10, None)).collect();
    assert_eq!(urls, ["a", "c", "a", "c"]);
}

#[test]
fn nothing_is_picked_when_all_are_down() {
    let strategies =
        [LoadBalance::RoundRobin, LoadBalance::LeastConnections, LoadBalance::IpHash];
    for s in strategies {
        let mut lb = LoadBalancer::new(&domain(&["a", "b"], s));
        for _ in 0..5 {
            lb.failure_at("a", 10);
            lb.failure_at("b", 10);
        }
        assert!(lb.select_at(39, None).is_none());
        assert!(lb.select_at(40, None).is_some());
        let mut none = LoadBalancer::new(&domain(&[], s));
        assert!(none.select(None).is_none());
    }
}

#[test]
fn least_connections_picks_the_fewest() {
    let mut lb = LoadBalancer::new(&domain(&["a", "b", "c"], LoadBalance::LeastConnections));
    let (first, ga) = lb.select_at(0, None).unwrap();
    let (second, _gb) = lb.select_at(0, None).unwrap();
    let (third, _gc) = lb.select_at(0, None).unwrap();
    assert_eq!((first.as_str(), second.as_str(), third.as_str()), ("a", "b", "c"));
    lb.release(ga);
    assert_eq!(lb.select_at(0, None).unwrap().0, "a");
    assert_eq!(lb.select_at(0, None).unwrap().0, "a");
}

#[test]
fn ip_hash_is_sticky() {
    let mut lb = LoadBalancer::new(&domain(&["a", "b", "c"], LoadBalance::IpHash));
    // 10.0.0.1 is 167772161, which leaves 2 when divided by 3.
    let ip = Some(ClientIp::V4(0x0a00_0001));
    for now in 0..5 {
        assert_eq!(pick(&mut lb, now, ip), "c");
    }
    assert_eq!(pick(&mut lb, 0, Some(ClientIp::V4(3))), "a");
    assert_eq!(pick(&mut lb, 0, None), "a");
    // Of an IPv6 address the last four octets count.
    assert_eq!(pick(&mut lb, 0, Some(ClientIp::V6((1u128 << 64) + 1))), "b");
}

#[test]
fn ip_hash_moves_on_when_a_backend_is_down() {
    let mut lb = LoadBalancer::new(&domain(&["a", "b", "c"], LoadBalance::IpHash));
    for _ in 0..5 {
        lb.failure_at("c", 7);
    }
    assert_eq!(pick(&mut lb, 7, Some(ClientIp::V4(2))), "a");
    lb.success("c");
    assert_eq!(pick(&mut lb, 7, Some(ClientIp::V4(2))), "c");
}

#[test]
fn unknown_urls_change_nothing() {
    let mut lb = LoadBalancer::new(&domain(&["a"], LoadBalance::RoundRobin));
    for _ in 0..5 {
        lb.failure("b");
        lb.success("b");
    }
    assert_eq!(pick(&mut lb, 0, None), "a");
}

#[test]
fn manager_finds_the_balancer_of_a_domain() {
    let mut m = LoadBalancerManager::new();
    assert!(m.get("x").is_none());
    m.add_domain("x".to_string(), LoadBalancer::new(&domain(&["a"], LoadBalance::RoundRobin)));
    m.add_domain("y".to_string(), LoadBalancer::new(&domain(&["b"], LoadBalance::RoundRobin)));
    let x = m.get("x").unwrap();
    let y = m.get("y").unwrap();
    assert_eq!(m.select_at(&x, 0, None).unwrap().0, "a");
    assert_eq!(m.select_at(&y, 0, None).unwrap().0, "b");
    // Names are compared without regard to case.
    let upper = m.get("X").unwrap();
    assert_eq!(m.select_at(&upper, 0, None).unwrap().0, "a");
    assert!(m.get("xx").is_none());
}

#[test]
fn replaced_balancer_stays_with_its_handle() {
    let mut m = LoadBalancerManager::new();
    m.add_domain("x".to_string(), LoadBalancer::new(&domain(&["a"], LoadBalance::RoundRobin)));
    let before = m.get("x").unwrap();
    m.add_domain("x".to_string(), LoadBalancer::new(&domain(&["b"], LoadBalance::RoundRobin)));
    let after = m.get("x").unwrap();
    assert_eq!(m.select_at(&before, 0, None).unwrap().0, "a");
    assert_eq!(m.select_at(&after, 0, None).unwrap().0, "b");
}

#[test]
fn manager_counts_and_notes() {
    let mut m = LoadBalancerManager::new();
    let cfg = domain(&["a", "b"], LoadBalance::LeastConnections);
    m.add_domain("x".to_string(), LoadBalancer::new(&cfg));
    let h = m.get("x").unwrap();
    let (url, guard) = m.select(&h, None).unwrap();
    assert_eq!(url, "a");
    assert_eq!(m.select_at(&h, 0, None).unwrap().0, "b");
    m.release(&h, guard);
    assert_eq!(m.select_at(&h, 0, None).unwrap().0, "a");
    for _ in 0..5 {
        m.failure_at(&h, "a", 100);
    }
    assert_eq!(m.select_at(&h, 100, None).unwrap().0, "b");
    assert_eq!(m.select_at(&h, 100, None).unwrap().0, "b");
    m.success(&h, "a");
    assert_eq!(m.select_at(&h, 100, None).unwrap().0, "a");
    m.failure(&h, "b");
    assert!(m.select(&h, None).is_some());
}

#[test]
fn manager_serves_all_domains() {
    let mut t = DomainTable::new();
    t.insert("x".to_string(), domain(&["a"], LoadBalance::RoundRobin));
    t.insert("y".to_string(), domain(&["b"], LoadBalance::IpHash));
    let mut m = LoadBalancerManager::for_domains(&t);
    let y = m.get("y").unwrap();
    assert_eq!(m.select_at(&y, 0, None).unwrap().0, "b");
    assert!(m.get("x").is_some());
    assert!(m.get("z").is_none());
}
