//! Load balancing.
//!
//! Three strategies:
//!   round robin       - cycle through backends evenly (default)
//!   least connections - pick the backend with fewest active requests
//!   ip hash           - always send the same client to the same backend
//!
//! A circuit breaker per backend opens after 5 consecutive failures and resets
//! after 30 seconds, allowing the backend a chance to recover.
use crate::client::ClientIp;
use crate::clock::{told_since_epoch, unix_now};
use crate::config::{DomainConfig, DomainTable, LoadBalance};
use crate::shared_map::{no_positions, position_of, positions, set_position};
use crate::text::{ascii_lower, lower_text, same_text};
use dashmap::DashMap;
use vstd::prelude::*;

verus! {

/// Failures before a circuit opens.
pub const CB_THRESHOLD: usize = 5;

/// Seconds before an open circuit lets a backend be tried again.
pub const CB_RESET_SECS: u64 = 30;

/// What is known of a backend.
#[verifier::ext_equal]
pub struct BackendView {
    /// Its URL
    pub url: Seq<char>,
    /// Number of requests being served
    pub active: usize,
    /// Failures since the last success
    pub failures: usize,
    /// When it last failed, in seconds since the Unix epoch
    pub last_failure: u64,
    /// Whether the circuit is open
    pub circuit_open: bool,
}

/// `n + 1`, starting over at 0 behind the largest number.
pub open spec fn bump(n: usize) -> usize {
    if n == usize::MAX {
        0
    } else {
        (n + 1) as usize
    }
}

/// `n - 1`, with the largest number before 0.
pub open spec fn drop_one(n: usize) -> usize {
    if n == 0 {
        usize::MAX
    } else {
        (n - 1) as usize
    }
}

impl BackendView {
    /// A backend that nothing is known of but its URL.
    pub open spec fn fresh(url: Seq<char>) -> Self {
        BackendView { url, active: 0, failures: 0, last_failure: 0, circuit_open: false }
    }

    /// Once a request has been given to it.
    pub open spec fn acquired(self) -> Self {
        BackendView { active: bump(self.active), ..self }
    }

    /// Once a request has ended.
    pub open spec fn released(self) -> Self {
        BackendView { active: drop_one(self.active), ..self }
    }

    /// Once it has answered.
    pub open spec fn succeeded(self) -> Self {
        BackendView { failures: 0, circuit_open: false, ..self }
    }

    /// Once it has failed at `now`.
    pub open spec fn failed(self, now: u64) -> Self {
        BackendView {
            failures: bump(self.failures),
            last_failure: now,
            circuit_open: self.circuit_open || bump(self.failures) >= CB_THRESHOLD,
            ..self
        }
    }

    /// Whether the time in which an open circuit keeps traffic away is over. It is
    /// not while the clock is set back behind the last failure.
    pub open spec fn rested(self, now: u64) -> bool {
        now >= self.last_failure + CB_RESET_SECS
    }

    /// Whether it should receive traffic at `now`.
    pub open spec fn healthy(self, now: u64) -> bool {
        !self.circuit_open || self.rested(now)
    }

    /// Once its health has been asked for at `now`: an open circuit whose time
    /// is over is closed.
    pub open spec fn probed(self, now: u64) -> Self {
        if self.circuit_open && self.rested(now) {
            self.succeeded()
        } else {
            self
        }
    }
}

/// A backend server.
#[derive(Debug)]
pub struct Backend {
    /// Full URL, e.g. `http://127.0.0.1:3000`
    pub url: String,
    active: usize,
    failures: usize,
    last_failure: u64,
    circuit_open: bool,
}

impl Backend {
    /// What is known of the backend.
    pub closed spec fn view(&self) -> BackendView {
        BackendView {
            url: self.url@,
            active: self.active,
            failures: self.failures,
            last_failure: self.last_failure,
            circuit_open: self.circuit_open,
        }
    }

    /// A backend with no request, no failure and a closed circuit.
    pub fn new(url: String) -> (b: Self)
        ensures
            b@ == BackendView::fresh(url@),
    {
        Backend { url, active: 0, failures: 0, last_failure: 0, circuit_open: false }
    }

    /// The URL of the backend.
    pub fn url(&self) -> (r: &String)
        ensures
            r@ == self@.url,
    {
        &self.url
    }

    /// Counts a request that is given to the backend.
    pub fn acquire(&mut self)
        ensures
            final(self)@ == old(self)@.acquired(),
    {
        self.active = self.active.wrapping_add(1);
    }

    /// Counts a request that has ended.
    pub fn release(&mut self)
        ensures
            final(self)@ == old(self)@.released(),
    {
        self.active = self.active.wrapping_sub(1);
    }

    /// Number of requests being served.
    pub fn active_count(&self) -> (n: usize)
        ensures
            n == self@.active,
    {
        self.active
    }

    /// Notes that the backend has answered.
    pub fn record_success(&mut self)
        ensures
            final(self)@ == old(self)@.succeeded(),
    {
        self.failures = 0;
        self.circuit_open = false;
    }

    /// Notes that the backend has failed just now.
    pub fn record_failure(&mut self)
        ensures
            exists|now: u64|
                told_since_epoch(now) && final(self)@ == #[trigger] old(self)@.failed(now),
    {
        let now = unix_now();
        self.record_failure_at(now);
    }

    /// Notes that the backend has failed at `now`.
    pub fn record_failure_at(&mut self, now: u64)
        ensures
            final(self)@ == old(self)@.failed(now),
    {
        self.failures = self.failures.wrapping_add(1);
        self.last_failure = now;
        if self.failures >= CB_THRESHOLD {
            self.circuit_open = true;
        }
    }

    /// Whether the backend should receive traffic. An open circuit is closed
    /// after [`CB_RESET_SECS`] to allow recovery.
    pub fn is_healthy(&mut self) -> (r: bool)
        ensures
            exists|now: u64|
                told_since_epoch(now) && r == old(self)@.healthy(now) && final(self)@
                    == #[trigger] old(self)@.probed(now),
    {
        let now = unix_now();
        self.is_healthy_at(now)
    }

    /// Whether the backend should receive traffic at `now`.
    pub fn is_healthy_at(&mut self, now: u64) -> (r: bool)
        ensures
            r == old(self)@.healthy(now),
            final(self)@ == old(self)@.probed(now),
    {
        if !self.circuit_open {
            return true;
        }
        if now >= self.last_failure && now - self.last_failure >= CB_RESET_SECS {
            self.circuit_open = false;
            self.failures = 0;
            true
        } else {
            false
        }
    }
}

/// Position `j` of `slots` is the first whose backend is healthy at `now`.
pub open spec fn first_healthy_at(
    backends: Seq<BackendView>,
    now: u64,
    slots: Seq<int>,
    j: int,
) -> bool {
    &&& 0 <= j < slots.len()
    &&& backends[slots[j]].healthy(now)
    &&& forall|i: int| 0 <= i < j ==> !backends[#[trigger] slots[i]].healthy(now)
}

/// The first position of `slots` whose backend is healthy at `now`.
pub open spec fn first_healthy(
    backends: Seq<BackendView>,
    now: u64,
    slots: Seq<int>,
) -> Option<int> {
    if exists|j: int| first_healthy_at(backends, now, slots, j) {
        Some(choose|j: int| first_healthy_at(backends, now, slots, j))
    } else {
        None
    }
}

/// The backends in the order in which round robin tries them: from the cursor
/// on, which starts over at 0 behind the largest number.
pub open spec fn round_robin_slots(cursor: usize, n: nat) -> Seq<int> {
    Seq::new(n, |i: int| ((cursor + i) % (usize::MAX + 1)) % (n as int))
}

/// The backends in the order in which they are tried for a client: from the
/// one that its address picks.
pub open spec fn ip_hash_slots(hash: nat, n: nat) -> Seq<int> {
    Seq::new(n, |i: int| (hash + i) % (n as int))
}

/// Backend `j` is healthy at `now`, no healthy one has fewer requests, and it
/// is the first such.
pub open spec fn least_loaded_at(backends: Seq<BackendView>, now: u64, j: int) -> bool {
    &&& 0 <= j < backends.len()
    &&& backends[j].healthy(now)
    &&& forall|i: int|
        0 <= i < backends.len() && (#[trigger] backends[i]).healthy(now) ==> backends[j].active
            < backends[i].active || (backends[j].active == backends[i].active && j <= i)
}

/// The healthy backend with the fewest requests.
pub open spec fn least_loaded(backends: Seq<BackendView>, now: u64) -> Option<int> {
    if exists|j: int| least_loaded_at(backends, now, j) {
        Some(choose|j: int| least_loaded_at(backends, now, j))
    } else {
        None
    }
}

/// The number that picks the backend of a client.
pub open spec fn client_hash(client: Option<ClientIp>) -> nat {
    match client {
        Some(ip) => ip.spec_hash(),
        None => 0,
    }
}

/// The first backend with a URL.
pub open spec fn first_with_url_at(backends: Seq<BackendView>, url: Seq<char>, j: int) -> bool {
    &&& 0 <= j < backends.len()
    &&& backends[j].url == url
    &&& forall|i: int| 0 <= i < j ==> (#[trigger] backends[i]).url != url
}

/// The first backend with a URL.
pub open spec fn first_with_url(backends: Seq<BackendView>, url: Seq<char>) -> Option<int> {
    if exists|j: int| first_with_url_at(backends, url, j) {
        Some(choose|j: int| first_with_url_at(backends, url, j))
    } else {
        None
    }
}

/// The backends of a domain, the strategy and the round-robin cursor.
#[verifier::ext_equal]
pub struct LoadBalancerView {
    pub backends: Seq<BackendView>,
    pub strategy: LoadBalance,
    pub cursor: usize,
}

impl LoadBalancerView {
    /// The backends of a domain before any request.
    pub open spec fn fresh(config: DomainConfig) -> Self {
        LoadBalancerView {
            backends: Seq::new(
                config.backends@.len(),
                |i: int| BackendView::fresh(config.backends@[i]@),
            ),
            strategy: config.load_balance,
            cursor: 0,
        }
    }

    /// The order in which backends are tried, where the strategy walks them.
    pub open spec fn slots(self, client: Option<ClientIp>) -> Seq<int> {
        match self.strategy {
            LoadBalance::IpHash => ip_hash_slots(client_hash(client), self.backends.len()),
            _ => round_robin_slots(self.cursor, self.backends.len()),
        }
    }

    /// The backend that is picked for a client at `now`.
    pub open spec fn choice(self, now: u64, client: Option<ClientIp>) -> Option<int> {
        match self.strategy {
            LoadBalance::LeastConnections => least_loaded(self.backends, now),
            _ => match first_healthy(self.backends, now, self.slots(client)) {
                Some(j) => Some(self.slots(client)[j]),
                None => None,
            },
        }
    }

    /// How many backends round robin tries.
    pub open spec fn tries(self, now: u64) -> int {
        match first_healthy(
            self.backends,
            now,
            round_robin_slots(self.cursor, self.backends.len()),
        ) {
            Some(j) => j + 1,
            None => self.backends.len() as int,
        }
    }

    /// The cursor once `n` backends have been tried.
    pub open spec fn cursor_after(self, n: int) -> usize {
        ((self.cursor + n) % (usize::MAX + 1)) as usize
    }

    /// Once a backend has been picked, or none was found, before the request
    /// is counted: expired circuits that were looked at are closed, and round
    /// robin has moved its cursor.
    pub open spec fn looked(self, now: u64, client: Option<ClientIp>) -> Self {
        match self.strategy {
            LoadBalance::RoundRobin => LoadBalancerView {
                backends: match self.choice(now, client) {
                    Some(i) => self.backends.update(i, self.backends[i].probed(now)),
                    None => self.backends,
                },
                cursor: self.cursor_after(self.tries(now)),
                ..self
            },
            LoadBalance::LeastConnections => LoadBalancerView {
                backends: Seq::new(
                    self.backends.len(),
                    |i: int| self.backends[i].probed(now),
                ),
                ..self
            },
            LoadBalance::IpHash => LoadBalancerView {
                backends: match self.choice(now, client) {
                    Some(i) => self.backends.update(i, self.backends[i].probed(now)),
                    None => self.backends,
                },
                ..self
            },
        }
    }

    /// Once a request of a client has been given to the backend that is picked
    /// for it at `now`.
    pub open spec fn selected(self, now: u64, client: Option<ClientIp>) -> Self {
        match self.choice(now, client) {
            Some(i) => {
                let seen = self.looked(now, client);
                LoadBalancerView {
                    backends: seen.backends.update(i, seen.backends[i].acquired()),
                    ..seen
                }
            },
            None => self.looked(now, client),
        }
    }

    /// Once a request that backend `i` served has ended.
    pub open spec fn released(self, i: int) -> Self {
        if 0 <= i < self.backends.len() {
            LoadBalancerView {
                backends: self.backends.update(i, self.backends[i].released()),
                ..self
            }
        } else {
            self
        }
    }

    /// Once the backend at `url` has answered.
    pub open spec fn succeeded(self, url: Seq<char>) -> Self {
        match first_with_url(self.backends, url) {
            Some(i) => LoadBalancerView {
                backends: self.backends.update(i, self.backends[i].succeeded()),
                ..self
            },
            None => self,
        }
    }

    /// Once the backend at `url` has failed at `now`.
    pub open spec fn failed(self, url: Seq<char>, now: u64) -> Self {
        match first_with_url(self.backends, url) {
            Some(i) => LoadBalancerView {
                backends: self.backends.update(i, self.backends[i].failed(now)),
                ..self
            },
            None => self,
        }
    }
}

/// A request that a backend is serving. It is handed back with
/// [`LoadBalancer::release`] when the request ends.
#[derive(Debug)]
pub struct ConnectionGuard {
    backend: usize,
}

impl ConnectionGuard {
    /// The number of the backend.
    pub closed spec fn view(&self) -> int {
        self.backend as int
    }
}

/// The backends of one domain.
#[derive(Debug)]
pub struct LoadBalancer {
    backends: Vec<Backend>,
    strategy: LoadBalance,
    cursor: usize,
}

impl LoadBalancer {
    /// The backends, the strategy and the cursor.
    pub closed spec fn view(&self) -> LoadBalancerView {
        LoadBalancerView {
            backends: Seq::new(self.backends@.len(), |i: int| self.backends@[i]@),
            strategy: self.strategy,
            cursor: self.cursor,
        }
    }

    /// The backends of a domain before any request.
    pub fn new(cfg: &DomainConfig) -> (lb: Self)
        ensures
            lb@ == LoadBalancerView::fresh(*cfg),
    {
        let mut backends: Vec<Backend> = Vec::new();
        let mut i: usize = 0;
        while i < cfg.backends.len()
            invariant
                0 <= i <= cfg.backends@.len(),
                backends@.len() == i,
                forall|j: int|
                    0 <= j < i ==> (#[trigger] backends@[j])@ == BackendView::fresh(
                        cfg.backends@[j]@,
                    ),
            decreases cfg.backends@.len() - i,
        {
            backends.push(Backend::new(cfg.backends[i].clone()));
            i += 1;
        }
        LoadBalancer { backends, strategy: cfg.load_balance, cursor: 0 }
    }

    /// Whether the backend is healthy at `now`, closing an expired circuit.
    fn probe(&mut self, i: usize, now: u64) -> (r: bool)
        requires
            i < old(self)@.backends.len(),
        ensures
            r == old(self)@.backends[i as int].healthy(now),
            final(self)@ == (LoadBalancerView {
                backends: old(self)@.backends.update(
                    i as int,
                    old(self)@.backends[i as int].probed(now),
                ),
                ..old(self)@
            }),
    {
        let ghost before = self@;
        let r = self.backends[i].is_healthy_at(now);
        assert(self@.backends =~= before.backends.update(
            i as int,
            before.backends[i as int].probed(now),
        ));
        r
    }

    /// Walks the backends from the cursor to the first healthy one.
    fn round_robin(&mut self, now: u64) -> (r: Option<usize>)
        requires
            old(self)@.strategy == LoadBalance::RoundRobin,
            old(self)@.backends.len() > 0,
        ensures
            final(self)@ == old(self)@.looked(now, None),
            r is None <==> old(self)@.choice(now, None) is None,
            r matches Some(i) ==> i < old(self)@.backends.len() && old(self)@.choice(now, None)
                == Some(i as int),
    {
        let n: usize = self.backends.len();
        let ghost start = self@;
        let ghost slots = round_robin_slots(start.cursor, n as nat);
        let mut i: usize = 0;
        proof {
            vstd::arithmetic::div_mod::lemma_small_mod(start.cursor as nat, (usize::MAX + 1) as nat);
        }
        while i < n
            invariant
                n > 0,
                0 <= i <= n,
                n == start.backends.len(),
                start == old(self)@,
                slots == round_robin_slots(start.cursor, n as nat),
                start.strategy == LoadBalance::RoundRobin,
                self@ == (LoadBalancerView { cursor: start.cursor_after(i as int), ..start }),
                forall|j: int| 0 <= j < i ==> !start.backends[#[trigger] slots[j]].healthy(now),
            decreases n - i,
        {
            let idx: usize = self.cursor % n;
            assert(idx == slots[i as int]);
            self.cursor = self.cursor.wrapping_add(1);
            proof {
                lemma_cursor_step(start, i as int);
            }
            assert(self@ =~= LoadBalancerView { cursor: start.cursor_after(i + 1), ..start });
            if self.probe(idx, now) {
                proof {
                    assert(first_healthy_at(start.backends, now, slots, i as int));
                    lemma_first_healthy(start.backends, now, slots, i as int);
                }
                assert(self@ =~= start.looked(now, None));
                return Some(idx);
            }
            assert(self@ =~= LoadBalancerView { cursor: start.cursor_after(i + 1), ..start });
            i += 1;
        }
        None
    }

    /// Looks at every backend for the healthy one with the fewest requests.
    fn least_connections(&mut self, now: u64) -> (r: Option<usize>)
        requires
            old(self)@.strategy == LoadBalance::LeastConnections,
        ensures
            final(self)@ == old(self)@.looked(now, None),
            r is None <==> old(self)@.choice(now, None) is None,
            r matches Some(i) ==> i < old(self)@.backends.len() && old(self)@.choice(now, None)
                == Some(i as int),
    {
        let n: usize = self.backends.len();
        let ghost start = self@;
        let mut best: Option<usize> = None;
        let mut i: usize = 0;
        while i < n
            invariant
                0 <= i <= n,
                n == start.backends.len(),
                start == old(self)@,
                self@.backends.len() == n,
                self@.strategy == start.strategy,
                self@.cursor == start.cursor,
                forall|j: int| 0 <= j < i ==> self@.backends[j] == start.backends[j].probed(now),
                forall|j: int| i <= j < n ==> self@.backends[j] == start.backends[j],
                best is None ==> forall|j: int|
                    0 <= j < i ==> !(#[trigger] start.backends[j]).healthy(now),
                best matches Some(b) ==> {
                    &&& b < i
                    &&& start.backends[b as int].healthy(now)
                    &&& forall|j: int|
                        0 <= j < i && (#[trigger] start.backends[j]).healthy(now)
                            ==> start.backends[b as int].active < start.backends[j].active || (
                        start.backends[b as int].active == start.backends[j].active && b <= j)
                },
            decreases n - i,
        {
            if self.probe(i, now) {
                assert(self@.backends.len() == self.backends@.len());
                assert(self@.backends[i as int] == self.backends@[i as int]@);
                let load = self.backends[i].active_count();
                match best {
                    None => {
                        best = Some(i);
                    },
                    Some(b) => {
                        assert(self@.backends[b as int] == self.backends@[b as int]@);
                        let least = self.backends[b].active_count();
                        if load < least {
                            best = Some(i);
                        }
                    },
                }
            }
            i += 1;
        }
        assert(self@ =~= start.looked(now, None));
        proof {
            if let Some(b) = best {
                assert(least_loaded_at(start.backends, now, b as int));
                lemma_least_loaded(start.backends, now, b as int);
            }
        }
        best
    }

    /// Walks the backends from the one that the client's address picks to the
    /// first healthy one.
    fn ip_hash(&mut self, now: u64, client: Option<ClientIp>) -> (r: Option<usize>)
        requires
            old(self)@.strategy == LoadBalance::IpHash,
            old(self)@.backends.len() > 0,
        ensures
            final(self)@ == old(self)@.looked(now, client),
            r is None <==> old(self)@.choice(now, client) is None,
            r matches Some(i) ==> i < old(self)@.backends.len() && old(self)@.choice(now, client)
                == Some(i as int),
    {
        let hash: u32 = match client {
            Some(ip) => ip.slot_hash(),
            None => 0,
        };
        let n: usize = self.backends.len();
        let first: usize = if n as u64 > hash as u64 {
            hash as usize
        } else {
            (hash as u64 % n as u64) as usize
        };
        let ghost start = self@;
        let ghost slots = ip_hash_slots(hash as nat, n as nat);
        proof {
            if n > hash {
                vstd::arithmetic::div_mod::lemma_small_mod(hash as nat, n as nat);
            }
            assert(first == hash as int % n as int);
        }
        let mut i: usize = 0;
        while i < n
            invariant
                n > 0,
                0 <= i <= n,
                n == start.backends.len(),
                start == old(self)@,
                start.strategy == LoadBalance::IpHash,
                hash == client_hash(client),
                first < n,
                first == hash as int % n as int,
                slots == ip_hash_slots(hash as nat, n as nat),
                self@ == start,
                forall|j: int| 0 <= j < i ==> !start.backends[#[trigger] slots[j]].healthy(now),
            decreases n - i,
        {
            let idx: usize = if i < n - first {
                first + i
            } else {
                i - (n - first)
            };
            proof {
                lemma_slot(hash as int, i as int, n as int);
            }
            assert(idx == slots[i as int]);
            if self.probe(idx, now) {
                proof {
                    assert(first_healthy_at(start.backends, now, slots, i as int));
                    lemma_first_healthy(start.backends, now, slots, i as int);
                }
                assert(self@ =~= start.looked(now, client));
                return Some(idx);
            }
            assert(self@ =~= start);
            i += 1;
        }
        None
    }

    /// Picks a backend for a request of `client` and counts the request. `None`
    /// when every backend is kept out by its circuit.
    pub fn select(&mut self, client: Option<ClientIp>) -> (r: Option<(String, ConnectionGuard)>)
        ensures
            exists|now: u64|
                {
                    &&& told_since_epoch(now)
                    &&& final(self)@ == #[trigger] old(self)@.selected(now, client)
                    &&& r is Some <==> old(self)@.choice(now, client) is Some
                    &&& r matches Some((url, guard)) ==> old(self)@.choice(now, client) == Some(
                        guard@,
                    ) && 0 <= guard@ < old(self)@.backends.len() && url@
                        == old(self)@.backends[guard@].url
                },
    {
        let now = unix_now();
        self.select_at(now, client)
    }

    /// Picks a backend for a request of `client` at `now` and counts the request.
    pub fn select_at(&mut self, now: u64, client: Option<ClientIp>) -> (r: Option<
        (String, ConnectionGuard),
    >)
        ensures
            final(self)@ == old(self)@.selected(now, client),
            r is Some <==> old(self)@.choice(now, client) is Some,
            r matches Some((url, guard)) ==> old(self)@.choice(now, client) == Some(guard@)
                && 0 <= guard@ < old(self)@.backends.len() && url@
                == old(self)@.backends[guard@].url,
    {
        let ghost start = self@;
        if self.backends.len() == 0 {
            assert(self@ =~= start.selected(now, client)) by {
                assert(start.looked(now, client) =~= start) by {
                    vstd::arithmetic::div_mod::lemma_small_mod(
                        start.cursor as nat,
                        (usize::MAX + 1) as nat,
                    );
                }
            }
            return None;
        }
        let picked: Option<usize> = match self.strategy {
            LoadBalance::RoundRobin => self.round_robin(now),
            LoadBalance::LeastConnections => self.least_connections(now),
            LoadBalance::IpHash => self.ip_hash(now, client),
        };
        assert(self@ == start.looked(now, client));
        match picked {
            None => None,
            Some(i) => {
                let ghost seen = self@;
                assert(seen.backends.len() == self.backends@.len());
                self.backends[i].acquire();
                assert(self@.backends =~= seen.backends.update(
                    i as int,
                    seen.backends[i as int].acquired(),
                ));
                assert(seen.backends[i as int].url == start.backends[i as int].url);
                assert(self.backends@[i as int]@ == self@.backends[i as int]);
                let url = self.backends[i].url().clone();
                Some((url, ConnectionGuard { backend: i }))
            },
        }
    }

    /// Counts the end of a request that [`LoadBalancer::select`] had counted.
    pub fn release(&mut self, guard: ConnectionGuard)
        ensures
            final(self)@ == old(self)@.released(guard@),
    {
        let ghost start = self@;
        if guard.backend < self.backends.len() {
            self.backends[guard.backend].release();
            assert(self@.backends =~= start.released(guard@).backends);
        }
    }

    /// The first backend with a URL.
    fn position(&self, url: &str) -> (r: Option<usize>)
        ensures
            r is None <==> first_with_url(self@.backends, url@) is None,
            r matches Some(i) ==> i < self@.backends.len() && first_with_url(self@.backends, url@)
                == Some(i as int),
    {
        let mut i: usize = 0;
        while i < self.backends.len()
            invariant
                0 <= i <= self@.backends.len(),
                self@.backends.len() == self.backends@.len(),
                forall|j: int| 0 <= j < i ==> (#[trigger] self@.backends[j]).url != url@,
            decreases self@.backends.len() - i,
        {
            assert(self@.backends[i as int] == self.backends@[i as int]@);
            if same_text(self.backends[i].url().as_str(), url) {
                proof {
                    assert(first_with_url_at(self@.backends, url@, i as int));
                    lemma_first_with_url(self@.backends, url@, i as int);
                }
                return Some(i);
            }
            i += 1;
        }
        None
    }

    /// Notes that the backend at `url` has answered.
    pub fn success(&mut self, url: &str)
        ensures
            final(self)@ == old(self)@.succeeded(url@),
    {
        let ghost start = self@;
        if let Some(i) = self.position(url) {
            self.backends[i].record_success();
            assert(self@.backends =~= start.succeeded(url@).backends);
        }
    }

    /// Notes that the backend at `url` has failed just now.
    pub fn failure(&mut self, url: &str)
        ensures
            exists|now: u64|
                told_since_epoch(now) && final(self)@ == #[trigger] old(self)@.failed(url@, now),
    {
        let now = unix_now();
        self.failure_at(url, now);
    }

    /// Notes that the backend at `url` has failed at `now`.
    pub fn failure_at(&mut self, url: &str, now: u64)
        ensures
            final(self)@ == old(self)@.failed(url@, now),
    {
        let ghost start = self@;
        if let Some(i) = self.position(url) {
            self.backends[i].record_failure_at(now);
            assert(self@.backends =~= start.failed(url@, now).backends);
        }
    }
}

/// The balancers of all domains, and which of them serves which domain.
#[verifier::ext_equal]
pub struct ManagerView {
    /// The balancer of each domain, by its name in lower case
    pub index: Map<Seq<char>, usize>,
    /// The balancers, those that were replaced too
    pub balancers: Seq<LoadBalancerView>,
}

impl ManagerView {
    /// Without any domain.
    pub open spec fn fresh() -> Self {
        ManagerView { index: Map::empty(), balancers: Seq::empty() }
    }

    /// Every domain has a balancer.
    pub open spec fn wf(self) -> bool {
        forall|domain: Seq<char>| #[trigger]
            self.index.contains_key(domain) ==> self.index[domain] < self.balancers.len()
    }

    /// Once a domain has been given a balancer.
    pub open spec fn with_domain(self, domain: Seq<char>, lb: LoadBalancerView) -> Self {
        ManagerView {
            index: self.index.insert(ascii_lower(domain), self.balancers.len() as usize),
            balancers: self.balancers.push(lb),
        }
    }

    /// Which balancer a domain has, in whatever case its name is written.
    pub open spec fn balancer_of(self, domain: Seq<char>) -> Option<int> {
        if self.index.contains_key(ascii_lower(domain)) {
            Some(self.index[ascii_lower(domain)] as int)
        } else {
            None
        }
    }

    /// Once balancer number `i` has become `lb`.
    pub open spec fn with_balancer(self, i: int, lb: LoadBalancerView) -> Self {
        ManagerView { balancers: self.balancers.update(i, lb), ..self }
    }

    /// The balancers of the first `n` domains of a table.
    pub open spec fn of_domains(table: Seq<(Seq<char>, DomainConfig)>, n: nat) -> Self
        decreases n,
    {
        if n == 0 {
            Self::fresh()
        } else {
            let last = table[n - 1];
            Self::of_domains(table, (n - 1) as nat).with_domain(
                last.0,
                LoadBalancerView::fresh(last.1),
            )
        }
    }
}

/// A balancer in the keeping of a [`LoadBalancerManager`]. It stays the same
/// one when its domain is given another.
#[derive(Debug, Clone, Copy)]
pub struct BalancerHandle {
    at: usize,
}

impl BalancerHandle {
    /// The balancer's number.
    pub closed spec fn view(&self) -> int {
        self.at as int
    }
}

/// One balancer per domain.
pub struct LoadBalancerManager {
    map: DashMap<String, usize>,
    balancers: Vec<LoadBalancer>,
}

impl LoadBalancerManager {
    /// The balancers, and which of them serves which domain.
    pub closed spec fn view(&self) -> ManagerView {
        ManagerView {
            index: positions(self.map),
            balancers: Seq::new(self.balancers@.len(), |i: int| self.balancers@[i]@),
        }
    }

    /// A manager without any domain.
    pub fn new() -> (m: Self)
        ensures
            m@ == ManagerView::fresh(),
            m@.wf(),
    {
        LoadBalancerManager { map: no_positions(), balancers: Vec::new() }
    }

    /// A manager with a balancer for each of the domains.
    pub fn for_domains(domains: &DomainTable) -> (m: Self)
        ensures
            m@ == ManagerView::of_domains(domains@, domains@.len()),
            m@.wf(),
    {
        let mut m = LoadBalancerManager::new();
        let mut i: usize = 0;
        while i < domains.len()
            invariant
                0 <= i <= domains@.len(),
                m@ == ManagerView::of_domains(domains@, i as nat),
                m@.wf(),
            decreases domains@.len() - i,
        {
            m.add_domain(domains.name(i).clone(), LoadBalancer::new(domains.config(i)));
            i += 1;
        }
        m
    }

    /// Gives a domain a balancer, in place of the one that it had.
    pub fn add_domain(&mut self, domain: String, lb: LoadBalancer)
        requires
            old(self)@.wf(),
        ensures
            final(self)@.wf(),
            final(self)@ == old(self)@.with_domain(domain@, lb@),
    {
        let ghost start = self@;
        let ghost name = ascii_lower(domain@);
        let at = self.balancers.len();
        set_position(&mut self.map, lower_text(domain.as_str()), at);
        self.balancers.push(lb);
        assert(self@.balancers =~= start.balancers.push(lb@));
        assert forall|d: Seq<char>| #[trigger] self@.index.contains_key(d) implies self@.index[d]
            < self@.balancers.len() by {
            if d != name {
                assert(start.index.contains_key(d));
            }
        }
    }

    /// The balancer of a domain.
    pub fn get(&self, domain: &str) -> (r: Option<BalancerHandle>)
        requires
            self@.wf(),
        ensures
            r is Some <==> self@.balancer_of(domain@) is Some,
            r matches Some(h) ==> self@.balancer_of(domain@) == Some(h@) && 0 <= h@
                < self@.balancers.len(),
    {
        match position_of(&self.map, lower_text(domain).as_str()) {
            Some(at) => {
                assert(self@.index.contains_key(ascii_lower(domain@)));
                Some(BalancerHandle { at })
            },
            None => None,
        }
    }

    /// Picks a backend for a request of `client` and counts the request.
    pub fn select(&mut self, h: &BalancerHandle, client: Option<ClientIp>) -> (r: Option<
        (String, ConnectionGuard),
    >)
        requires
            old(self)@.wf(),
            0 <= h@ < old(self)@.balancers.len(),
        ensures
            final(self)@.wf(),
            exists|now: u64|
                {
                    &&& told_since_epoch(now)
                    &&& final(self)@ == old(self)@.with_balancer(
                        h@,
                        #[trigger] old(self)@.balancers[h@].selected(now, client),
                    )
                    &&& r is Some <==> old(self)@.balancers[h@].choice(now, client) is Some
                    &&& r matches Some((url, guard)) ==> old(self)@.balancers[h@].choice(
                        now,
                        client,
                    ) == Some(guard@) && 0 <= guard@ < old(self)@.balancers[h@].backends.len()
                        && url@ == old(self)@.balancers[h@].backends[guard@].url
                },
    {
        let now = unix_now();
        self.select_at(h, now, client)
    }

    /// Picks a backend for a request of `client` at `now` and counts the request.
    pub fn select_at(&mut self, h: &BalancerHandle, now: u64, client: Option<ClientIp>) -> (r:
        Option<(String, ConnectionGuard)>)
        requires
            old(self)@.wf(),
            0 <= h@ < old(self)@.balancers.len(),
        ensures
            final(self)@.wf(),
            final(self)@ == old(self)@.with_balancer(
                h@,
                old(self)@.balancers[h@].selected(now, client),
            ),
            r is Some <==> old(self)@.balancers[h@].choice(now, client) is Some,
            r matches Some((url, guard)) ==> old(self)@.balancers[h@].choice(now, client) == Some(
                guard@,
            ) && 0 <= guard@ < old(self)@.balancers[h@].backends.len() && url@
                == old(self)@.balancers[h@].backends[guard@].url,
    {
        let ghost start = self@;
        let r = self.balancers[h.at].select_at(now, client);
        assert(self@.balancers =~= start.with_balancer(
            h@,
            start.balancers[h@].selected(now, client),
        ).balancers);
        r
    }

    /// Counts the end of a request.
    pub fn release(&mut self, h: &BalancerHandle, guard: ConnectionGuard)
        requires
            old(self)@.wf(),
            0 <= h@ < old(self)@.balancers.len(),
        ensures
            final(self)@.wf(),
            final(self)@ == old(self)@.with_balancer(
                h@,
                old(self)@.balancers[h@].released(guard@),
            ),
    {
        let ghost start = self@;
        self.balancers[h.at].release(guard);
        assert(self@.balancers =~= start.with_balancer(
            h@,
            start.balancers[h@].released(guard@),
        ).balancers);
    }

    /// Notes that the backend at `url` has answered.
    pub fn success(&mut self, h: &BalancerHandle, url: &str)
        requires
            old(self)@.wf(),
            0 <= h@ < old(self)@.balancers.len(),
        ensures
            final(self)@.wf(),
            final(self)@ == old(self)@.with_balancer(h@, old(self)@.balancers[h@].succeeded(url@)),
    {
        let ghost start = self@;
        self.balancers[h.at].success(url);
        assert(self@.balancers =~= start.with_balancer(
            h@,
            start.balancers[h@].succeeded(url@),
        ).balancers);
    }

    /// Notes that the backend at `url` has failed just now.
    pub fn failure(&mut self, h: &BalancerHandle, url: &str)
        requires
            old(self)@.wf(),
            0 <= h@ < old(self)@.balancers.len(),
        ensures
            final(self)@.wf(),
            exists|now: u64|
                told_since_epoch(now) && final(self)@ == old(self)@.with_balancer(
                    h@,
                    #[trigger] old(self)@.balancers[h@].failed(url@, now),
                ),
    {
        let now = unix_now();
        self.failure_at(h, url, now);
    }

    /// Notes that the backend at `url` has failed at `now`.
    pub fn failure_at(&mut self, h: &BalancerHandle, url: &str, now: u64)
        requires
            old(self)@.wf(),
            0 <= h@ < old(self)@.balancers.len(),
        ensures
            final(self)@.wf(),
            final(self)@ == old(self)@.with_balancer(
                h@,
                old(self)@.balancers[h@].failed(url@, now),
            ),
    {
        let ghost start = self@;
        self.balancers[h.at].failure_at(url, now);
        assert(self@.balancers =~= start.with_balancer(
            h@,
            start.balancers[h@].failed(url@, now),
        ).balancers);
    }
}

/// One step of the cursor.
proof fn lemma_cursor_step(lb: LoadBalancerView, i: int)
    requires
        0 <= i,
    ensures
        bump(lb.cursor_after(i)) == lb.cursor_after(i + 1),
{
    let m = usize::MAX + 1;
    let a = lb.cursor + i;
    vstd::arithmetic::div_mod::lemma_mod_adds(a, 1, m);
    vstd::arithmetic::div_mod::lemma_small_mod(1, m as nat);
    vstd::arithmetic::div_mod::lemma_add_mod_noop(a, 1, m);
    if a % m == usize::MAX {
        assert((a % m + 1) % m == 0) by {
            vstd::arithmetic::div_mod::lemma_mod_self_0(m);
        }
    } else {
        vstd::arithmetic::div_mod::lemma_small_mod((a % m + 1) as nat, m as nat);
    }
}

/// There is one first healthy position.
pub proof fn lemma_first_healthy(backends: Seq<BackendView>, now: u64, slots: Seq<int>, j: int)
    requires
        first_healthy_at(backends, now, slots, j),
    ensures
        first_healthy(backends, now, slots) == Some(j),
{
    let k = choose|k: int| first_healthy_at(backends, now, slots, k);
    assert(first_healthy_at(backends, now, slots, k));
    if j < k {
        assert(!backends[slots[j]].healthy(now));
    } else if k < j {
        assert(!backends[slots[k]].healthy(now));
    }
}

/// There is one first healthy backend with the fewest requests.
pub proof fn lemma_least_loaded(backends: Seq<BackendView>, now: u64, j: int)
    requires
        least_loaded_at(backends, now, j),
    ensures
        least_loaded(backends, now) == Some(j),
{
    let k = choose|k: int| least_loaded_at(backends, now, k);
    assert(least_loaded_at(backends, now, k));
    assert(backends[j].healthy(now) && backends[k].healthy(now));
}

/// There is one first backend with a URL.
pub proof fn lemma_first_with_url(backends: Seq<BackendView>, url: Seq<char>, j: int)
    requires
        first_with_url_at(backends, url, j),
    ensures
        first_with_url(backends, url) == Some(j),
{
    let k = choose|k: int| first_with_url_at(backends, url, k);
    assert(first_with_url_at(backends, url, k));
    if j < k {
        assert(backends[j].url != url);
    } else if k < j {
        assert(backends[k].url != url);
    }
}

/// The slot `i` steps behind the one of `hash`, computed without the sum.
proof fn lemma_slot(hash: int, i: int, n: int)
    requires
        0 <= hash,
        0 <= i < n,
    ensures
        (hash + i) % n == if i < n - hash % n {
            hash % n + i
        } else {
            i - (n - hash % n)
        },
{
    vstd::arithmetic::div_mod::lemma_add_mod_noop(hash, i, n);
    vstd::arithmetic::div_mod::lemma_small_mod(i as nat, n as nat);
    let a = hash % n;
    if a + i < n {
        vstd::arithmetic::div_mod::lemma_small_mod((a + i) as nat, n as nat);
    } else {
        vstd::arithmetic::div_mod::lemma_small_mod((a + i - n) as nat, n as nat);
        vstd::arithmetic::div_mod::lemma_mod_add_multiples_vanish(a + i - n, n);
    }
}

}
