//! Background health checks.
//!
//! For each domain that has health checks switched on, an HTTP GET for the
//! configured path goes to every backend from time to time. Backends that do not
//! answer with a status of success are noted as failed, which makes the load
//! balancer skip them.
use crate::clock::told_since_epoch;
use crate::config::{DomainConfig, DomainTable};
use crate::load_balancer::{BalancerHandle, LoadBalancerManager, LoadBalancerView};
use crate::text::{
    chars_of, decimal, decimal_text, find_first, find_last, find_second_word, last_position,
    lemma_find_first, lemma_find_last, occurs_at, parse_u16, read_u16, second_word, string_of,
    trim_end, trimmed_end, utf8_text,
};
use vstd::prelude::*;
use vstd::string::*;
use vstd::utf8::*;

verus! {

/// The check of one backend.
#[derive(Debug)]
pub struct BackendCheck {
    /// The URL of the backend
    pub backend: String,
    /// The URL to get
    pub url: String,
}

/// The checks of one domain.
#[derive(Debug)]
pub struct HealthTask {
    /// The domain
    pub domain: String,
    /// Seconds between two rounds of checks
    pub interval_secs: u64,
    /// Seconds to wait for an answer
    pub timeout_secs: u64,
    /// What to check in each round
    pub checks: Vec<BackendCheck>,
}

/// The checks of one domain.
#[verifier::ext_equal]
pub struct TaskView {
    pub domain: Seq<char>,
    pub interval_secs: u64,
    pub timeout_secs: u64,
    /// The URL of each backend, and the URL to get
    pub checks: Seq<(Seq<char>, Seq<char>)>,
}

impl HealthTask {
    /// The checks of the domain.
    pub open spec fn view(&self) -> TaskView {
        TaskView {
            domain: self.domain@,
            interval_secs: self.interval_secs,
            timeout_secs: self.timeout_secs,
            checks: Seq::new(
                self.checks@.len(),
                |i: int| (self.checks@[i].backend@, self.checks@[i].url@),
            ),
        }
    }
}

/// The URL at which a backend is checked: its own without the slashes at the end,
/// and the configured path, which begins with a slash.
pub open spec fn check_target(backend: Seq<char>, path: Seq<char>) -> Seq<char> {
    trimmed_end(backend, '/') + if path.len() > 0 && path[0] == '/' {
        path
    } else {
        "/"@ + path
    }
}

/// Whether the backends of a domain are checked.
pub open spec fn is_checked(cfg: DomainConfig) -> bool {
    cfg.health_check.enabled && cfg.backends@.len() > 0
}

/// The checks of a domain.
pub open spec fn task_of(domain: Seq<char>, cfg: DomainConfig) -> TaskView {
    TaskView {
        domain,
        interval_secs: cfg.health_check.interval_secs,
        timeout_secs: cfg.health_check.timeout_secs,
        checks: Seq::new(
            cfg.backends@.len(),
            |i: int|
                (cfg.backends@[i]@, check_target(cfg.backends@[i]@, cfg.health_check.path@)),
        ),
    }
}

/// The checks of the first `n` domains of a table.
pub open spec fn tasks_of(table: Seq<(Seq<char>, DomainConfig)>, n: nat) -> Seq<TaskView>
    decreases n,
{
    if n == 0 {
        Seq::empty()
    } else {
        let rest = tasks_of(table, (n - 1) as nat);
        let (domain, cfg) = table[n - 1];
        if is_checked(cfg) {
            rest.push(task_of(domain, cfg))
        } else {
            rest
        }
    }
}

/// What is known of tasks.
pub open spec fn tasks_view(tasks: Seq<HealthTask>) -> Seq<TaskView> {
    Seq::new(tasks.len(), |i: int| tasks[i]@)
}

/// The URL at which a backend is checked.
pub fn check_url(backend: &str, path: &str) -> (r: String)
    ensures
        r@ == check_target(backend@, path@),
{
    let mut r = trim_end(backend, '/');
    let p = chars_of(path);
    if p.len() == 0 || p[0] != '/' {
        r.append("/");
        r.append(path);
        assert(r@ =~= check_target(backend@, path@));
    } else {
        r.append(path);
    }
    r
}

/// The checks of a domain.
fn make_task(domain: &str, cfg: &DomainConfig) -> (r: HealthTask)
    ensures
        r@ == task_of(domain@, *cfg),
{
    let mut checks: Vec<BackendCheck> = Vec::new();
    let mut i: usize = 0;
    while i < cfg.backends.len()
        invariant
            0 <= i <= cfg.backends@.len(),
            checks@.len() == i,
            forall|j: int|
                0 <= j < i ==> (#[trigger] checks@[j]).backend@ == cfg.backends@[j]@
                    && checks@[j].url@ == check_target(
                    cfg.backends@[j]@,
                    cfg.health_check.path@,
                ),
        decreases cfg.backends@.len() - i,
    {
        checks.push(
            BackendCheck {
                backend: cfg.backends[i].clone(),
                url: check_url(cfg.backends[i].as_str(), cfg.health_check.path.as_str()),
            },
        );
        i += 1;
    }
    let r = HealthTask {
        domain: domain.to_string(),
        interval_secs: cfg.health_check.interval_secs,
        timeout_secs: cfg.health_check.timeout_secs,
        checks,
    };
    assert(r@.checks =~= task_of(domain@, *cfg).checks);
    r
}

/// The background tasks to run: one for each domain that has health checks
/// switched on and has backends.
pub fn start_health_checks(domain_configs: &DomainTable) -> (r: Vec<HealthTask>)
    ensures
        tasks_view(r@) == tasks_of(domain_configs@, domain_configs@.len()),
{
    let mut tasks: Vec<HealthTask> = Vec::new();
    let mut i: usize = 0;
    assert(tasks_view(tasks@) =~= Seq::empty());
    while i < domain_configs.len()
        invariant
            0 <= i <= domain_configs@.len(),
            tasks_view(tasks@) == tasks_of(domain_configs@, i as nat),
        decreases domain_configs@.len() - i,
    {
        let cfg = domain_configs.config(i);
        if cfg.health_check.enabled && cfg.backends.len() > 0 {
            let ghost before = tasks_view(tasks@);
            tasks.push(make_task(domain_configs.name(i).as_str(), cfg));
            assert(tasks_view(tasks@) =~= before.push(
                task_of(domain_configs@[i as int].0, domain_configs@[i as int].1),
            ));
        }
        i += 1;
    }
    tasks
}

/// What to do to check a URL.
#[derive(Debug)]
pub struct Probe {
    /// The address to connect to
    pub addr: String,
    /// The request to write
    pub request: String,
}

/// The parts of a URL: host, port and path.
pub struct UrlParts {
    pub host: Seq<char>,
    pub port: u16,
    pub path: Seq<char>,
}

/// The parts of a URL that begins with `http://`. The path begins with the first
/// slash, and is `/` if there is none. The port stands behind the last colon
/// before it, and is 80 if there is none, or no number.
pub open spec fn url_parts(url: Seq<char>) -> Option<UrlParts> {
    if !occurs_at(url, "http://"@, 0) {
        None
    } else {
        let rest = url.skip(7);
        let slash = find_first(rest, '/');
        let authority = rest.take(slash);
        let path = if slash < rest.len() {
            rest.skip(slash)
        } else {
            "/"@
        };
        let colon = find_last(authority, ':');
        if colon >= 0 {
            Some(
                UrlParts {
                    host: authority.take(colon),
                    port: match read_u16(authority.skip(colon + 1)) {
                        Some(port) => port,
                        None => 80,
                    },
                    path,
                },
            )
        } else {
            Some(UrlParts { host: authority, port: 80, path })
        }
    }
}

/// The address of a host and a port.
pub open spec fn address(host: Seq<char>, port: u16) -> Seq<char> {
    host + ":"@ + decimal(port as nat)
}

/// The request for a path on a host.
pub open spec fn probe_request(path: Seq<char>, host: Seq<char>) -> Seq<char> {
    "GET "@ + path + " HTTP/1.0\r\nHost: "@ + host
        + "\r\nUser-Agent: curf-healthcheck/0.1\r\nConnection: close\r\n\r\n"@
}

/// What to do to check a URL. None if it does not begin with `http://`.
pub fn probe_for(url: &str) -> (r: Option<Probe>)
    ensures
        r is Some <==> url_parts(url@) is Some,
        r matches Some(p) ==> url_parts(url@) matches Some(parts) && p.addr@ == address(
            parts.host,
            parts.port,
        ) && p.request@ == probe_request(parts.path, parts.host),
{
    let v = chars_of(url);
    let scheme = chars_of("http://");
    proof {
        reveal_strlit("http://");
    }
    if !crate::text::starts_with(&v, &scheme) {
        return None;
    }
    let ghost rest = v@.skip(7);
    let mut slash: usize = 7;
    while slash < v.len() && v[slash] != '/'
        invariant
            7 <= slash <= v@.len(),
            forall|k: int| 7 <= k < slash ==> v@[k] != '/',
        decreases v@.len() - slash,
    {
        slash += 1;
    }
    proof {
        lemma_find_first(rest, '/');
        let k = find_first(rest, '/');
        if k < slash - 7 {
            assert(v@[7 + k] == rest[k]);
        } else if k > slash - 7 {
            assert(rest[slash - 7] == v@[slash as int]);
        }
        assert(k == slash - 7);
        assert(v@.subrange(7, slash as int) =~= rest.take(k));
        assert(v@.subrange(slash as int, v@.len() as int) =~= rest.skip(k));
        lemma_find_last(rest.take(k), ':');
    }
    let path = if slash < v.len() {
        string_of(&v, slash, v.len())
    } else {
        "/".to_string()
    };
    let ghost authority = rest.take(find_first(rest, '/'));
    let (host, port) = match last_position(&v, 7, slash, ':') {
        Some(colon) => {
            let host = string_of(&v, 7, colon);
            let digits = string_of(&v, colon + 1, slash);
            proof {
                assert(host@ =~= authority.take(find_last(authority, ':')));
                assert(digits@ =~= authority.skip(find_last(authority, ':') + 1));
            }
            let port: u16 = match parse_u16(digits.as_str()) {
                Some(p) => p,
                None => 80,
            };
            (host, port)
        },
        None => (string_of(&v, 7, slash), 80u16),
    };
    let mut addr = host.clone();
    addr.append(":");
    addr.append(decimal_text(port as u64).as_str());
    let mut request = "GET ".to_string();
    request.append(path.as_str());
    request.append(" HTTP/1.0\r\nHost: ");
    request.append(host.as_str());
    request.append("\r\nUser-Agent: curf-healthcheck/0.1\r\nConnection: close\r\n\r\n");
    Some(Probe { addr, request })
}

/// The text of bytes, with the replacement character in place of every byte that is
/// not ASCII.
pub open spec fn ascii_text(bytes: Seq<u8>) -> Seq<char> {
    Seq::new(
        bytes.len(),
        |i: int|
            if bytes[i] < 128 {
                bytes[i] as char
            } else {
                '\u{fffd}'
            },
    )
}

/// The text of the first bytes of an answer: what they mean as UTF-8. Where they are
/// not UTF-8, what is not ASCII in them is not read.
pub open spec fn answer_text(bytes: Seq<u8>) -> Seq<char> {
    if valid_utf8(bytes) {
        decode_utf8(bytes)
    } else {
        ascii_text(bytes)
    }
}

/// The status that the first bytes of an answer tell: its second word, if that is
/// a number, or else 0. What stands around the second word does not matter.
pub open spec fn told_status(bytes: Seq<u8>) -> u16 {
    match second_word(answer_text(bytes)) {
        Some(word) => match read_u16(word) {
            Some(status) => status,
            None => 0,
        },
        None => 0,
    }
}

/// The text of bytes, with the replacement character in place of every byte that is
/// not ASCII.
fn to_ascii_text(bytes: &Vec<u8>) -> (s: String)
    ensures
        s@ == ascii_text(bytes@),
{
    let mut s = String::new();
    let mut i: usize = 0;
    while i < bytes.len()
        invariant
            0 <= i <= bytes@.len(),
            s@ == ascii_text(bytes@.take(i as int)),
        decreases bytes@.len() - i,
    {
        let b = bytes[i];
        s.push(
            if b < 128 {
                b as char
            } else {
                '\u{fffd}'
            },
        );
        assert(s@ =~= ascii_text(bytes@.take(i + 1)));
        i += 1;
    }
    assert(bytes@.take(i as int) =~= bytes@);
    s
}

/// The status that the first bytes of an answer tell.
pub fn response_status(bytes: Vec<u8>) -> (r: u16)
    ensures
        r == told_status(bytes@),
{
    let text = match utf8_text(&bytes) {
        Some(s) => s,
        None => to_ascii_text(&bytes),
    };
    match find_second_word(text.as_str()) {
        Some(word) => match parse_u16(word.as_str()) {
            Some(status) => status,
            None => 0,
        },
        None => 0,
    }
}

/// Whether a backend that has told `status`, or nothing in time, is well.
pub open spec fn is_well(status: Option<u16>) -> bool {
    status matches Some(s) && 200 <= s < 300
}

/// Whether a backend that has told `status`, or nothing in time, is well.
pub fn check_backend(status: Option<u16>) -> (r: bool)
    ensures
        r == (status matches Some(s) && 200 <= s < 300),
        r == is_well(status),
{
    match status {
        Some(s) => s >= 200 && s < 300,
        None => false,
    }
}

/// The backends of a domain once the outcome of the check of one of them has been noted
/// at `now`.
pub open spec fn checked(
    lb: LoadBalancerView,
    backend: Seq<char>,
    ok: bool,
    now: u64,
) -> LoadBalancerView {
    if ok {
        lb.succeeded(backend)
    } else {
        lb.failed(backend, now)
    }
}

/// Notes the outcome of the check of a backend.
pub fn record_check(m: &mut LoadBalancerManager, h: &BalancerHandle, backend: &str, ok: bool)
    requires
        old(m)@.wf(),
        0 <= h@ < old(m)@.balancers.len(),
    ensures
        final(m)@.wf(),
        ok ==> final(m)@ == old(m)@.with_balancer(
            h@,
            old(m)@.balancers[h@].succeeded(backend@),
        ),
        !ok ==> exists|now: u64|
            told_since_epoch(now) && final(m)@ == old(m)@.with_balancer(
                h@,
                #[trigger] old(m)@.balancers[h@].failed(backend@, now),
            ),
        exists|now: u64|
            final(m)@ == old(m)@.with_balancer(
                h@,
                #[trigger] checked(old(m)@.balancers[h@], backend@, ok, now),
            ),
{
    let ghost lb = m@.balancers[h@];
    if ok {
        m.success(h, backend);
        assert(m@ == old(m)@.with_balancer(h@, checked(lb, backend@, ok, 0)));
    } else {
        m.failure(h, backend);
        let ghost now = choose|now: u64|
            told_since_epoch(now) && m@ == old(m)@.with_balancer(
                h@,
                #[trigger] lb.failed(backend@, now),
            );
        assert(m@ == old(m)@.with_balancer(h@, checked(lb, backend@, ok, now)));
    }
}

/// Notes the outcome of the check of a backend at `now`.
pub fn record_check_at(
    m: &mut LoadBalancerManager,
    h: &BalancerHandle,
    backend: &str,
    ok: bool,
    now: u64,
)
    requires
        old(m)@.wf(),
        0 <= h@ < old(m)@.balancers.len(),
    ensures
        final(m)@.wf(),
        final(m)@ == old(m)@.with_balancer(
            h@,
            if ok {
                old(m)@.balancers[h@].succeeded(backend@)
            } else {
                old(m)@.balancers[h@].failed(backend@, now)
            },
        ),
        final(m)@ == old(m)@.with_balancer(
            h@,
            checked(old(m)@.balancers[h@], backend@, ok, now),
        ),
{
    if ok {
        m.success(h, backend);
    } else {
        m.failure_at(h, backend, now);
    }
}

}
