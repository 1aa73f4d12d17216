//! What holds of load balancing as a whole.
use crate::client::ClientIp;
use crate::config::{DomainConfig, LoadBalance};
use crate::load_balancer::{
    bump, client_hash, first_healthy, first_healthy_at, first_with_url_at, least_loaded,
    least_loaded_at, lemma_first_healthy, lemma_first_with_url, round_robin_slots, CB_RESET_SECS,
    CB_THRESHOLD, BackendView, LoadBalancerView, ManagerView,
};
use crate::text::ascii_lower;
use vstd::prelude::*;

verus! {

/// A backend that has failed at each of `times`, one after the other.
pub open spec fn after_failures(b: BackendView, times: Seq<u64>) -> BackendView
    decreases times.len(),
{
    if times.len() == 0 {
        b
    } else {
        after_failures(b, times.drop_last()).failed(times.last())
    }
}

/// The circuit of a backend that was well opens with the fifth failure in a
/// row, and not before. It then keeps traffic away for 30 seconds after the
/// last failure.
pub proof fn law_circuit_opens_with_fifth_failure(b: BackendView, times: Seq<u64>, now: u64)
    requires
        b.failures == 0,
        !b.circuit_open,
    ensures
        after_failures(b, times).circuit_open <==> times.len() >= CB_THRESHOLD,
        times.len() < CB_THRESHOLD ==> after_failures(b, times).healthy(now),
        times.len() >= CB_THRESHOLD && now < times.last() + CB_RESET_SECS
            ==> !after_failures(b, times).healthy(now),
    decreases times.len(),
{
    lemma_failures_count(b, times);
}

proof fn lemma_failures_count(b: BackendView, times: Seq<u64>)
    requires
        b.failures == 0,
        !b.circuit_open,
    ensures
        times.len() < CB_THRESHOLD ==> after_failures(b, times).failures == times.len()
            && !after_failures(b, times).circuit_open,
        times.len() >= CB_THRESHOLD ==> after_failures(b, times).circuit_open,
        times.len() > 0 ==> after_failures(b, times).last_failure == times.last(),
    decreases times.len(),
{
    if times.len() > 0 {
        lemma_failures_count(b, times.drop_last());
    }
}

/// An open circuit lets its backend be tried again 30 seconds after the last
/// failure, and the failures before that no longer count. Until then, and while the
/// clock is set back behind the last failure, it stays open.
pub proof fn law_circuit_resets(b: BackendView, now: u64)
    requires
        b.circuit_open,
    ensures
        b.healthy(now) <==> now >= b.last_failure + CB_RESET_SECS,
        b.healthy(now) ==> !b.probed(now).circuit_open && b.probed(now).failures == 0,
        !b.healthy(now) ==> b.probed(now) == b,
{
}

/// A success closes the circuit, and the failures before it no longer count.
pub proof fn law_success_resets(b: BackendView, times: Seq<u64>, now: u64)
    ensures
        b.succeeded().healthy(now),
        times.len() < CB_THRESHOLD ==> after_failures(b.succeeded(), times).healthy(now),
{
    law_circuit_opens_with_fifth_failure(b.succeeded(), times, now);
}

proof fn lemma_slots_in_range(lb: LoadBalancerView, client: Option<ClientIp>)
    ensures
        lb.slots(client).len() == lb.backends.len(),
        forall|i: int|
            0 <= i < lb.backends.len() ==> 0 <= #[trigger] lb.slots(client)[i]
                < lb.backends.len(),
{
    assert forall|i: int| 0 <= i < lb.backends.len() implies 0 <= #[trigger] lb.slots(client)[i]
        < lb.backends.len() by {
        let n = lb.backends.len() as int;
        vstd::arithmetic::div_mod::lemma_mod_bound(client_hash(client) + i, n);
        vstd::arithmetic::div_mod::lemma_mod_bound((lb.cursor + i) % (usize::MAX + 1), n);
    }
}

/// A request only goes to a backend that is healthy.
pub proof fn law_choice_is_healthy(lb: LoadBalancerView, now: u64, client: Option<ClientIp>)
    ensures
        lb.choice(now, client) matches Some(i) ==> 0 <= i < lb.backends.len()
            && lb.backends[i].healthy(now),
{
    lemma_slots_in_range(lb, client);
    if lb.choice(now, client) is Some && lb.strategy != LoadBalance::LeastConnections {
        let j = choose|j: int| first_healthy_at(lb.backends, now, lb.slots(client), j);
        assert(first_healthy_at(lb.backends, now, lb.slots(client), j));
    }
}

/// In steps of one from any start, `n` steps come past every slot.
proof fn lemma_walk_reaches(start: int, n: int, k: int)
    requires
        0 <= start,
        0 <= k < n,
    ensures
        exists|i: int| 0 <= i < n && #[trigger] ((start + i) % n) == k,
{
    let a = start % n;
    vstd::arithmetic::div_mod::lemma_mod_bound(start, n);
    let i = if k >= a {
        k - a
    } else {
        k - a + n
    };
    vstd::arithmetic::div_mod::lemma_add_mod_noop(start, i, n);
    vstd::arithmetic::div_mod::lemma_small_mod(i as nat, n as nat);
    if k >= a {
        vstd::arithmetic::div_mod::lemma_small_mod(k as nat, n as nat);
    } else {
        vstd::arithmetic::div_mod::lemma_mod_add_multiples_vanish(k, n);
        vstd::arithmetic::div_mod::lemma_small_mod(k as nat, n as nat);
        assert((a + i) == n + k);
    }
    assert((start + i) % n == k);
}

/// A first healthy position exists where there is any.
proof fn lemma_first_exists(backends: Seq<BackendView>, now: u64, slots: Seq<int>, j: int)
    requires
        0 <= j < slots.len(),
        backends[slots[j]].healthy(now),
    ensures
        first_healthy(backends, now, slots) is Some,
    decreases j,
{
    if exists|i: int| 0 <= i < j && backends[#[trigger] slots[i]].healthy(now) {
        let i = choose|i: int| 0 <= i < j && backends[#[trigger] slots[i]].healthy(now);
        lemma_first_exists(backends, now, slots, i);
    } else {
        assert(first_healthy_at(backends, now, slots, j));
    }
}

/// A least loaded backend exists where any is healthy.
proof fn lemma_least_exists(backends: Seq<BackendView>, now: u64, j: int)
    requires
        0 <= j < backends.len(),
        backends[j].healthy(now),
    ensures
        least_loaded(backends, now) is Some,
    decreases backends[j].active, j,
{
    if least_loaded_at(backends, now, j) {
    } else {
        let i = choose|i: int|
            0 <= i < backends.len() && (#[trigger] backends[i]).healthy(now) && !(
            backends[j].active < backends[i].active || (backends[j].active == backends[i].active
                && j <= i));
        lemma_least_exists(backends, now, i);
    }
}

/// No backend is picked only when none is healthy. Round robin keeps this as
/// long as its cursor does not start over during the walk.
pub proof fn law_refused_only_when_all_are_down(
    lb: LoadBalancerView,
    now: u64,
    client: Option<ClientIp>,
)
    requires
        lb.strategy == LoadBalance::RoundRobin ==> lb.cursor + lb.backends.len() <= usize::MAX + 1,
    ensures
        lb.choice(now, client) is None <==> forall|i: int|
            0 <= i < lb.backends.len() ==> !(#[trigger] lb.backends[i]).healthy(now),
{
    law_choice_is_healthy(lb, now, client);
    if exists|k: int| 0 <= k < lb.backends.len() && (#[trigger] lb.backends[k]).healthy(now) {
        let k = choose|k: int| 0 <= k < lb.backends.len() && (#[trigger] lb.backends[k]).healthy(
            now,
        );
        let n = lb.backends.len() as int;
        let slots = lb.slots(client);
        if lb.strategy == LoadBalance::LeastConnections {
            lemma_least_exists(lb.backends, now, k);
        } else {
            let start = if lb.strategy == LoadBalance::IpHash {
                client_hash(client) as int
            } else {
                lb.cursor as int
            };
            lemma_walk_reaches(start, n, k);
            let i = choose|i: int| 0 <= i < n && #[trigger] ((start + i) % n) == k;
            if lb.strategy == LoadBalance::RoundRobin {
                vstd::arithmetic::div_mod::lemma_small_mod(
                    (start + i) as nat,
                    (usize::MAX + 1) as nat,
                );
            }
            assert(slots[i] == k);
            lemma_first_exists(lb.backends, now, slots, i);
        }
    }
}

/// The backends once a request has been placed at each of `times`.
pub open spec fn after_selections(
    lb: LoadBalancerView,
    times: Seq<u64>,
    client: Option<ClientIp>,
) -> LoadBalancerView
    decreases times.len(),
{
    if times.len() == 0 {
        lb
    } else {
        after_selections(lb, times.drop_last(), client).selected(times.last(), client)
    }
}

/// All circuits are closed.
pub open spec fn all_closed(lb: LoadBalancerView) -> bool {
    forall|i: int| 0 <= i < lb.backends.len() ==> !(#[trigger] lb.backends[i]).circuit_open
}

proof fn lemma_round_robin_runs(lb: LoadBalancerView, times: Seq<u64>, client: Option<ClientIp>)
    requires
        lb.strategy == LoadBalance::RoundRobin,
        lb.backends.len() > 0,
        all_closed(lb),
        lb.cursor + times.len() <= usize::MAX,
    ensures
        after_selections(lb, times, client).strategy == LoadBalance::RoundRobin,
        after_selections(lb, times, client).backends.len() == lb.backends.len(),
        all_closed(after_selections(lb, times, client)),
        after_selections(lb, times, client).cursor == lb.cursor + times.len(),
    decreases times.len(),
{
    if times.len() > 0 {
        let before = after_selections(lb, times.drop_last(), client);
        lemma_round_robin_runs(lb, times.drop_last(), client);
        lemma_round_robin_next(before, times.last(), client);
    }
}

proof fn lemma_round_robin_next(lb: LoadBalancerView, now: u64, client: Option<ClientIp>)
    requires
        lb.strategy == LoadBalance::RoundRobin,
        lb.backends.len() > 0,
        all_closed(lb),
        lb.cursor < usize::MAX,
    ensures
        lb.choice(now, client) == Some(lb.cursor as int % lb.backends.len() as int),
        lb.selected(now, client).cursor == lb.cursor + 1,
        all_closed(lb.selected(now, client)),
{
    let n = lb.backends.len() as int;
    let slots = round_robin_slots(lb.cursor, lb.backends.len());
    vstd::arithmetic::div_mod::lemma_small_mod(lb.cursor as nat, (usize::MAX + 1) as nat);
    vstd::arithmetic::div_mod::lemma_small_mod((lb.cursor + 1) as nat, (usize::MAX + 1) as nat);
    vstd::arithmetic::div_mod::lemma_mod_bound(lb.cursor as int, n);
    assert(slots[0] == lb.cursor as int % n);
    assert(first_healthy_at(lb.backends, now, slots, 0));
    lemma_first_healthy(lb.backends, now, slots, 0);
    assert(lb.slots(client) == slots);
}

/// While all circuits are closed, round robin gives the requests to the
/// backends in order, whatever the clients are: request number `times.len()`
/// from now goes to the backend that many places behind the cursor.
pub proof fn law_round_robin_goes_in_order(
    lb: LoadBalancerView,
    times: Seq<u64>,
    now: u64,
    client: Option<ClientIp>,
)
    requires
        lb.strategy == LoadBalance::RoundRobin,
        lb.backends.len() > 0,
        all_closed(lb),
        lb.cursor + times.len() < usize::MAX,
    ensures
        after_selections(lb, times, client).choice(now, client) == Some(
            (lb.cursor + times.len()) % (lb.backends.len() as int),
        ),
{
    lemma_round_robin_runs(lb, times, client);
    lemma_round_robin_next(after_selections(lb, times, client), now, client);
}

/// Round robin is even: of as many requests in a row as there are backends no
/// two go to the same one.
pub proof fn law_round_robin_is_even(
    lb: LoadBalancerView,
    earlier: Seq<u64>,
    later: Seq<u64>,
    now: u64,
    then: u64,
    client: Option<ClientIp>,
)
    requires
        lb.strategy == LoadBalance::RoundRobin,
        all_closed(lb),
        earlier.len() < later.len() < lb.backends.len(),
        lb.cursor + later.len() < usize::MAX,
    ensures
        after_selections(lb, earlier, client).choice(now, client) != after_selections(
            lb,
            later,
            client,
        ).choice(then, client),
{
    law_round_robin_goes_in_order(lb, earlier, now, client);
    law_round_robin_goes_in_order(lb, later, then, client);
    let n = lb.backends.len() as int;
    let x = lb.cursor + earlier.len();
    let d = later.len() - earlier.len();
    if x % n == (x + d) % n {
        vstd::arithmetic::div_mod::lemma_mod_equivalence(x + d, x, n);
        vstd::arithmetic::div_mod::lemma_small_mod(d as nat, n as nat);
        assert(false);
    }
}

/// Least connections picks a backend with the fewest requests of all that are
/// healthy.
pub proof fn law_least_connections_picks_the_fewest(
    lb: LoadBalancerView,
    now: u64,
    client: Option<ClientIp>,
    other: int,
)
    requires
        lb.strategy == LoadBalance::LeastConnections,
        0 <= other < lb.backends.len(),
        lb.backends[other].healthy(now),
    ensures
        lb.choice(now, client) matches Some(i) && lb.backends[i].active
            <= lb.backends[other].active,
{
    lemma_least_exists(lb.backends, now, other);
}

/// By ip hash a client keeps its backend: as long as the same backends are
/// healthy, the choice depends on nothing else - not on the time, the requests
/// being served or the requests before.
pub proof fn law_ip_hash_is_sticky(
    a: LoadBalancerView,
    b: LoadBalancerView,
    now: u64,
    then: u64,
    client: Option<ClientIp>,
)
    requires
        a.strategy == LoadBalance::IpHash,
        b.strategy == LoadBalance::IpHash,
        a.backends.len() == b.backends.len(),
        forall|i: int|
            0 <= i < a.backends.len() ==> (#[trigger] a.backends[i]).healthy(now)
                == b.backends[i].healthy(then),
    ensures
        a.choice(now, client) == b.choice(then, client),
{
    let slots = a.slots(client);
    lemma_slots_in_range(a, client);
    assert(slots == b.slots(client));
    assert forall|j: int|
        first_healthy_at(a.backends, now, slots, j) == first_healthy_at(b.backends, then, slots, j) by {
        if 0 <= j < slots.len() {
            assert(a.backends[slots[j]].healthy(now) == b.backends[slots[j]].healthy(then));
            if first_healthy_at(b.backends, then, slots, j) {
                assert forall|i: int| 0 <= i < j implies !a.backends[#[trigger] slots[i]].healthy(
                    now,
                ) by {
                    assert(a.backends[slots[i]].healthy(now) == b.backends[slots[i]].healthy(then));
                }
            }
            if first_healthy_at(a.backends, now, slots, j) {
                assert forall|i: int| 0 <= i < j implies !b.backends[#[trigger] slots[i]].healthy(
                    then,
                ) by {
                    assert(a.backends[slots[i]].healthy(now) == b.backends[slots[i]].healthy(then));
                }
            }
        }
    }
    if exists|j: int| first_healthy_at(a.backends, now, slots, j) {
        let j = choose|j: int| first_healthy_at(a.backends, now, slots, j);
        lemma_first_healthy(a.backends, now, slots, j);
        lemma_first_healthy(b.backends, then, slots, j);
    }
}

/// A request is counted for the backend that is picked and for no other, and
/// its end takes the count back.
pub proof fn law_release_undoes_select(
    lb: LoadBalancerView,
    now: u64,
    client: Option<ClientIp>,
    k: int,
)
    requires
        0 <= k < lb.backends.len(),
    ensures
        lb.selected(now, client).backends.len() == lb.backends.len(),
        lb.selected(now, client).backends[k].url == lb.backends[k].url,
        lb.selected(now, client).backends[k].active == if lb.choice(now, client) == Some(k) {
            bump(lb.backends[k].active)
        } else {
            lb.backends[k].active
        },
        lb.choice(now, client) matches Some(i) ==> lb.selected(now, client).released(
            i,
        ).backends[k].active == lb.backends[k].active,
{
    law_choice_is_healthy(lb, now, client);
}

/// The backends after that at `url` has failed at each of `times`.
pub open spec fn after_failures_of(
    lb: LoadBalancerView,
    url: Seq<char>,
    times: Seq<u64>,
) -> LoadBalancerView
    decreases times.len(),
{
    if times.len() == 0 {
        lb
    } else {
        after_failures_of(lb, url, times.drop_last()).failed(url, times.last())
    }
}

/// A backend that has failed five times in a row is picked for no request in the
/// 30 seconds after the last failure.
pub proof fn law_failed_backend_is_skipped(
    lb: LoadBalancerView,
    url: Seq<char>,
    j: int,
    times: Seq<u64>,
    now: u64,
    client: Option<ClientIp>,
)
    requires
        first_with_url_at(lb.backends, url, j),
        lb.backends[j].failures == 0,
        !lb.backends[j].circuit_open,
        times.len() >= CB_THRESHOLD,
        now < times.last() + CB_RESET_SECS,
    ensures
        after_failures_of(lb, url, times).choice(now, client) != Some(j),
{
    lemma_failures_of(lb, url, j, times);
    law_circuit_opens_with_fifth_failure(lb.backends[j], times, now);
    law_choice_is_healthy(after_failures_of(lb, url, times), now, client);
}

proof fn lemma_failures_of(lb: LoadBalancerView, url: Seq<char>, j: int, times: Seq<u64>)
    requires
        first_with_url_at(lb.backends, url, j),
    ensures
        first_with_url_at(after_failures_of(lb, url, times).backends, url, j),
        after_failures_of(lb, url, times).backends[j] == after_failures(lb.backends[j], times),
    decreases times.len(),
{
    if times.len() > 0 {
        let before = after_failures_of(lb, url, times.drop_last());
        lemma_failures_of(lb, url, j, times.drop_last());
        lemma_first_with_url(before.backends, url, j);
    }
}

/// A call of `select`: the balancer before it, the time and the client.
pub struct Call {
    pub lb: LoadBalancerView,
    pub now: u64,
    pub client: Option<ClientIp>,
}

impl Call {
    /// The backend that is picked.
    pub open spec fn pick(self) -> Option<int> {
        self.lb.choice(self.now, self.client)
    }

    /// The cursor after the call.
    pub open spec fn end(self) -> int {
        self.lb.selected(self.now, self.client).cursor as int
    }

    /// Whether the call is one of round robin among backends of which exactly those in
    /// `up` are healthy, and the cursor does not start over during it.
    pub open spec fn among(self, up: Seq<bool>) -> bool {
        &&& self.lb.strategy == LoadBalance::RoundRobin
        &&& self.lb.backends.len() == up.len()
        &&& self.lb.cursor + up.len() <= usize::MAX
        &&& forall|i: int|
            0 <= i < up.len() ==> (#[trigger] self.lb.backends[i]).healthy(self.now) == up[i]
    }
}

/// Whether calls follow each other while the health of the backends stays as `up` has
/// it. Whatever else happens in between, only calls move the cursor.
pub open spec fn steady(calls: Seq<Call>, up: Seq<bool>) -> bool {
    &&& forall|k: int| 0 <= k < calls.len() ==> (#[trigger] calls[k]).among(up)
    &&& forall|k: int|
        0 < k < calls.len() ==> (#[trigger] calls[k]).lb.cursor == calls[k - 1].end()
}

/// How many of the steps from `a` to before `b` come to a slot that is in `up`, when
/// they go round the slots.
pub open spec fn hits(up: Seq<bool>, a: int, b: int) -> nat
    decreases b - a,
{
    if a >= b {
        0
    } else {
        hits(up, a, b - 1) + if up[(b - 1) % (up.len() as int)] {
            1nat
        } else {
            0nat
        }
    }
}

/// How many backends are in `up`.
pub open spec fn how_many(up: Seq<bool>) -> nat {
    hits(up, 0, up.len() as int)
}

/// How many of the first `m` calls pick backend number `i`.
pub open spec fn picks_of(calls: Seq<Call>, i: int, m: nat) -> nat
    decreases m,
{
    if m == 0 {
        0
    } else {
        picks_of(calls, i, (m - 1) as nat) + if calls[m - 1].pick() == Some(i) {
            1nat
        } else {
            0nat
        }
    }
}

/// Of `n` slots the one with number `i`.
spec fn just(n: nat, i: int) -> Seq<bool> {
    Seq::new(n, |k: int| k == i)
}

/// Round robin is even among the healthy backends: while `h` of them are healthy, any
/// `rounds * h` calls in a row pick each of these exactly `rounds` times, and the others
/// never. So any `h` calls in a row pick `h` different backends.
pub proof fn law_round_robin_is_even_among_the_healthy(
    calls: Seq<Call>,
    up: Seq<bool>,
    rounds: nat,
    i: int,
)
    requires
        steady(calls, up),
        how_many(up) >= 1,
        calls.len() >= rounds * how_many(up),
        0 <= i < up.len(),
    ensures
        picks_of(calls, i, rounds * how_many(up)) == if up[i] {
            rounds
        } else {
            0
        },
{
    let h = how_many(up);
    let n = up.len() as int;
    let m = rounds * h;
    if rounds == 0 {
        assert(m == 0) by (nonlinear_arith)
            requires
                rounds == 0,
                m == rounds * h,
        ;
    } else {
        assert(m >= 1) by (nonlinear_arith)
            requires
                rounds >= 1,
                h >= 1,
                m == rounds * h,
        ;
        lemma_run(calls, up, m, i);
        if up[i] {
            let c = calls[0].lb.cursor as int;
            let e = calls[m - 1].end();
            let full = c + rounds * n;
            let one = just(up.len(), i);
            lemma_rounds(up, c, rounds);
            lemma_rounds(one, c, rounds);
            lemma_just(up.len(), i, n);
            assert(rounds * how_many(one) == rounds) by (nonlinear_arith)
                requires
                    how_many(one) == 1,
            ;
            assert(rounds * n >= 0) by (nonlinear_arith)
                requires
                    n >= 0,
            ;
            if e > full {
                lemma_hits_split(up, c, full, e);
                lemma_hits_split(up, full, e - 1, e);
                assert(hits(up, e - 1, e) == 1) by {
                    assert(hits(up, e - 1, e - 1) == 0);
                }
                assert(false);
            }
            lemma_hits_split(up, c, e, full);
            lemma_hits_split(one, c, e, full);
            lemma_just_hits_less(up, i, e, full);
        }
    }
}

/// While `h` backends are healthy, no two of any `h` calls in a row pick the same one.
pub proof fn law_round_robin_picks_differ(calls: Seq<Call>, up: Seq<bool>, k: int, l: int)
    requires
        steady(calls, up),
        0 <= k < l < calls.len(),
        l - k < how_many(up),
    ensures
        calls[k].pick() is Some,
        calls[k].pick() != calls[l].pick(),
{
    let run = calls.skip(k);
    let m = (l - k + 1) as nat;
    let n = up.len() as int;
    assert(steady(run, up)) by {
        assert forall|x: int| 0 < x < run.len() implies (#[trigger] run[x]).lb.cursor == run[x
            - 1].end() by {
            assert(run[x] == calls[k + x] && run[x - 1] == calls[k + x - 1]);
        }
    }
    assert(run[0] == calls[k] && run[m - 1] == calls[l]);
    assert(run[0].among(up));
    let j = lemma_call(run[0], up);
    vstd::arithmetic::div_mod::lemma_mod_bound(run[0].lb.cursor + j, n);
    let i = run[0].pick()->0;
    if run[m - 1].pick() == Some(i) {
        lemma_run(run, up, m, i);
        lemma_picks_grow(run, i, 1, (m - 1) as nat);
        assert(picks_of(run, i, 0) == 0);
        assert(picks_of(run, i, m) >= 2);
        let c = run[0].lb.cursor as int;
        let e = run[m - 1].end();
        let one = just(up.len(), i);
        lemma_round(up, c);
        lemma_round(one, c);
        lemma_just(up.len(), i, n);
        if e > c + n {
            lemma_hits_split(up, c, c + n, e);
            lemma_hits_split(up, c + n, e - 1, e);
            assert(hits(up, e - 1, e - 1) == 0);
            assert(hits(up, e - 1, e) == 1);
            assert(false);
        }
        lemma_hits_split(one, c, e, c + n);
    }
}

/// Picks only become more.
proof fn lemma_picks_grow(calls: Seq<Call>, i: int, a: nat, b: nat)
    requires
        a <= b,
    ensures
        picks_of(calls, i, a) <= picks_of(calls, i, b),
    decreases b,
{
    if a < b {
        lemma_picks_grow(calls, i, a, (b - 1) as nat);
    }
}

/// Round robin keeps the order of the backends: from each pick it goes on to the next
/// healthy backend behind it, and from the last to the first.
pub proof fn law_round_robin_keeps_the_cyclic_order(
    calls: Seq<Call>,
    up: Seq<bool>,
    k: int,
) -> (gap: int)
    requires
        steady(calls, up),
        how_many(up) >= 1,
        0 <= k < calls.len() - 1,
    ensures
        1 <= gap <= up.len(),
        calls[k].pick() matches Some(p) && calls[k + 1].pick() == Some(
            (p + gap) % (up.len() as int),
        ),
        forall|d: int|
            0 < d < gap ==> !up[#[trigger] ((calls[k].pick()->0 + d) % (up.len() as int))],
{
    let n = up.len() as int;
    assert(calls[k].among(up) && calls[k + 1].among(up));
    let j = lemma_call(calls[k], up);
    let next = lemma_call(calls[k + 1], up);
    let a = calls[k].lb.cursor + j;
    let p = a % n;
    let gap = 1 + next;
    assert(calls[k + 1].lb.cursor == calls[k].end());
    assert forall|d: int| (a + d) % n == #[trigger] ((p + d) % n) by {
        vstd::arithmetic::div_mod::lemma_add_mod_noop(a, d, n);
        vstd::arithmetic::div_mod::lemma_add_mod_noop(p, d, n);
        vstd::arithmetic::div_mod::lemma_mod_twice(a, n);
    }
    assert((p + gap) % n == (a + gap) % n);
    assert forall|d: int| 0 < d < gap implies !up[#[trigger] ((p + d) % n)] by {
        assert(!up[(calls[k + 1].lb.cursor + (d - 1)) % n]);
        assert((a + d) % n == (p + d) % n);
    }
    gap
}

/// How far behind the cursor a call of round robin finds its backend.
proof fn lemma_call(call: Call, up: Seq<bool>) -> (j: int)
    requires
        call.among(up),
        how_many(up) >= 1,
    ensures
        0 <= j < up.len(),
        call.pick() == Some((call.lb.cursor + j) % (up.len() as int)),
        up[(call.lb.cursor + j) % (up.len() as int)],
        forall|d: int| 0 <= d < j ==> !up[#[trigger] ((call.lb.cursor + d) % (up.len() as int))],
        call.end() == call.lb.cursor + j + 1,
{
    let lb = call.lb;
    let n = up.len() as int;
    let c = lb.cursor as int;
    let top = usize::MAX + 1;
    let slots = round_robin_slots(lb.cursor, lb.backends.len());
    assert forall|d: int| 0 <= d < n implies #[trigger] slots[d] == (c + d) % n && 0 <= slots[d]
        < n by {
        vstd::arithmetic::div_mod::lemma_small_mod((c + d) as nat, top as nat);
        vstd::arithmetic::div_mod::lemma_mod_bound(c + d, n);
    }
    let k = lemma_some_hit(up, 0, n);
    vstd::arithmetic::div_mod::lemma_small_mod(k as nat, n as nat);
    lemma_walk_reaches(c, n, k);
    let i = choose|i: int| 0 <= i < n && #[trigger] ((c + i) % n) == k;
    assert(slots[i] == k);
    assert(lb.backends[k].healthy(call.now));
    lemma_first_exists(lb.backends, call.now, slots, i);
    let j = choose|j: int| first_healthy_at(lb.backends, call.now, slots, j);
    assert(first_healthy_at(lb.backends, call.now, slots, j));
    lemma_first_healthy(lb.backends, call.now, slots, j);
    assert(lb.slots(call.client) == slots);
    assert(slots[j] == (c + j) % n);
    assert(lb.backends[slots[j]].healthy(call.now));
    assert forall|d: int| 0 <= d < j implies !up[#[trigger] ((c + d) % n)] by {
        assert(slots[d] == (c + d) % n);
        assert(!lb.backends[slots[d]].healthy(call.now));
    }
    vstd::arithmetic::div_mod::lemma_small_mod((c + j + 1) as nat, top as nat);
    j
}

/// Where there is a hit, one of the steps makes it.
proof fn lemma_some_hit(up: Seq<bool>, a: int, b: int) -> (x: int)
    requires
        hits(up, a, b) >= 1,
    ensures
        a <= x < b,
        up[x % (up.len() as int)],
    decreases b - a,
{
    if up[(b - 1) % (up.len() as int)] {
        b - 1
    } else {
        lemma_some_hit(up, a, b - 1)
    }
}

/// Hits add up.
proof fn lemma_hits_split(up: Seq<bool>, a: int, b: int, c: int)
    requires
        a <= b <= c,
    ensures
        hits(up, a, c) == hits(up, a, b) + hits(up, b, c),
    decreases c - b,
{
    if b < c {
        lemma_hits_split(up, a, b, c - 1);
    }
}

/// One round makes as many hits as there are, wherever it begins.
proof fn lemma_round(up: Seq<bool>, a: int)
    requires
        0 <= a,
        up.len() > 0,
    ensures
        hits(up, a, a + up.len()) == how_many(up),
    decreases a,
{
    let n = up.len() as int;
    if a > 0 {
        lemma_round(up, a - 1);
        lemma_hits_split(up, a - 1, a, a + n);
        lemma_hits_split(up, a - 1, a - 1 + n, a + n);
        assert(hits(up, a - 1, a - 1) == 0);
        assert(hits(up, a - 1 + n, a - 1 + n) == 0);
        vstd::arithmetic::div_mod::lemma_mod_add_multiples_vanish(a - 1, n);
        assert((a + n - 1) % n == (a - 1) % n);
    }
}

/// So do several rounds, each of them.
proof fn lemma_rounds(up: Seq<bool>, a: int, rounds: nat)
    requires
        0 <= a,
        up.len() > 0,
    ensures
        hits(up, a, a + rounds * up.len()) == rounds * how_many(up),
    decreases rounds,
{
    let n = up.len() as int;
    if rounds == 0 {
        assert(rounds * n == 0 && rounds * how_many(up) == 0) by (nonlinear_arith)
            requires
                rounds == 0,
        ;
    } else {
        let before = (rounds - 1) as nat;
        lemma_rounds(up, a, before);
        let mid = a + before * n;
        assert(before * n >= 0 && rounds * n == before * n + n) by (nonlinear_arith)
            requires
                rounds == before + 1,
                n >= 0,
        ;
        assert(rounds * how_many(up) == before * how_many(up) + how_many(up)) by (nonlinear_arith)
            requires
                rounds == before + 1,
        ;
        lemma_round(up, mid);
        lemma_hits_split(up, a, mid, mid + n);
    }
}

/// One slot is hit once in a round.
proof fn lemma_just(n: nat, i: int, b: int)
    requires
        0 <= i < n,
        0 <= b <= n,
    ensures
        hits(just(n, i), 0, b) == if i < b {
            1nat
        } else {
            0nat
        },
    decreases b,
{
    if b > 0 {
        lemma_just(n, i, b - 1);
        vstd::arithmetic::div_mod::lemma_small_mod((b - 1) as nat, n);
    }
}

/// One slot of `up` is not hit more often than all of them.
proof fn lemma_just_hits_less(up: Seq<bool>, i: int, a: int, b: int)
    requires
        0 <= i < up.len(),
        up[i],
    ensures
        hits(just(up.len(), i), a, b) <= hits(up, a, b),
    decreases b - a,
{
    if a < b {
        lemma_just_hits_less(up, i, a, b - 1);
        vstd::arithmetic::div_mod::lemma_mod_bound(b - 1, up.len() as int);
    }
}

/// Steps that come to no slot of `up` make no hit.
proof fn lemma_no_hits(up: Seq<bool>, a: int, b: int)
    requires
        forall|x: int| a <= x < b ==> !up[#[trigger] (x % (up.len() as int))],
    ensures
        hits(up, a, b) == 0,
    decreases b - a,
{
    if a < b {
        lemma_no_hits(up, a, b - 1);
        assert(!up[(b - 1) % (up.len() as int)]);
    }
}

/// In `m` calls the cursor comes past `m` healthy slots, and past slot `i` as often as
/// backend `i` is picked.
proof fn lemma_run(calls: Seq<Call>, up: Seq<bool>, m: nat, i: int)
    requires
        steady(calls, up),
        how_many(up) >= 1,
        1 <= m <= calls.len(),
        0 <= i < up.len(),
    ensures
        calls[0].lb.cursor < calls[m - 1].end(),
        up[(calls[m - 1].end() - 1) % (up.len() as int)],
        hits(up, calls[0].lb.cursor as int, calls[m - 1].end()) == m,
        up[i] ==> hits(
            just(up.len(), i),
            calls[0].lb.cursor as int,
            calls[m - 1].end(),
        ) == picks_of(calls, i, m),
        !up[i] ==> picks_of(calls, i, m) == 0,
    decreases m,
{
    let n = up.len() as int;
    let c0 = calls[0].lb.cursor as int;
    let last = calls[m - 1];
    assert(last.among(up));
    let j = lemma_call(last, up);
    let c = last.lb.cursor as int;
    let a = c + j;
    let one = just(up.len(), i);
    vstd::arithmetic::div_mod::lemma_mod_bound(a, n);
    // From the cursor to behind the pick there is one healthy slot, the last.
    assert forall|x: int| c <= x < a implies !up[#[trigger] (x % n)] by {
        assert(!up[(c + (x - c)) % n]);
    }
    lemma_no_hits(up, c, a);
    assert(hits(up, c, a + 1) == 1);
    if up[i] {
        lemma_just_hits_less(up, i, c, a);
        assert(hits(one, c, a + 1) == if a % n == i {
            1nat
        } else {
            0nat
        });
    }
    if m > 1 {
        lemma_run(calls, up, (m - 1) as nat, i);
        assert(last.lb.cursor == calls[m - 2].end());
        lemma_hits_split(up, c0, c, a + 1);
        lemma_hits_split(one, c0, c, a + 1);
    } else {
        assert(picks_of(calls, i, 0) == 0);
    }
}

/// Five failures in a row, and no fewer, keep traffic away from a backend that was well,
/// until 30 seconds after the last of them.
pub proof fn law_five_failures_keep_traffic_away(b: BackendView, times: Seq<u64>, now: u64)
    requires
        b.failures == 0,
        !b.circuit_open,
    ensures
        times.len() < 5 ==> after_failures(b, times).healthy(now),
        times.len() >= 5 ==> (after_failures(b, times).healthy(now) <==> now >= times.last() + 30),
{
    law_circuit_opens_with_fifth_failure(b, times, now);
    lemma_failures_count(b, times);
}

/// What is noted of a backend changes its failures and its circuit, and neither its URL
/// nor its requests. Each failure counts once.
pub proof fn law_notes_count_once(b: BackendView, now: u64)
    ensures
        b.failures < usize::MAX ==> b.failed(now).failures == b.failures + 1,
        b.failed(now).last_failure == now,
        b.failed(now).url == b.url && b.failed(now).active == b.active,
        b.circuit_open ==> b.failed(now).circuit_open,
        b.succeeded().failures == 0 && !b.succeeded().circuit_open,
        b.succeeded().url == b.url && b.succeeded().active == b.active,
        b.probed(now).url == b.url && b.probed(now).active == b.active,
        b.probed(now).last_failure == b.last_failure,
        b.probed(now).healthy(now) == b.healthy(now),
        !b.circuit_open ==> b.healthy(now) && b.probed(now) == b,
{
}

/// Requests are counted up and down by one.
pub proof fn law_requests_are_counted_by_one(b: BackendView)
    ensures
        b.active < usize::MAX ==> b.acquired().active == b.active + 1,
        b.active > 0 ==> b.released().active == b.active - 1,
        b.acquired().released() == b,
        b.released().acquired() == b,
        b.acquired().url == b.url && b.acquired().failures == b.failures
            && b.acquired().circuit_open == b.circuit_open && b.acquired().last_failure
            == b.last_failure,
{
}

/// Of the healthy backends with the fewest requests, least connections picks the first.
pub proof fn law_least_connections_picks_the_first_of_the_fewest(
    lb: LoadBalancerView,
    now: u64,
    client: Option<ClientIp>,
    other: int,
)
    requires
        lb.strategy == LoadBalance::LeastConnections,
        0 <= other < lb.backends.len(),
        lb.backends[other].healthy(now),
    ensures
        lb.choice(now, client) matches Some(i) && (other < i ==> lb.backends[i].active
            < lb.backends[other].active),
{
    lemma_least_exists(lb.backends, now, other);
}

/// The number that the address of a client stands for when its backend is picked: all of
/// an IPv4 address, the last four octets of an IPv6 address.
pub open spec fn address_number(client: Option<ClientIp>) -> int {
    match client {
        Some(ClientIp::V4(n)) => n as int,
        Some(ClientIp::V6(n)) => n as int % 4294967296,
        None => 0,
    }
}

/// By ip hash a client gets the backend that its address counts off, so that neighbours
/// get neighbouring backends; where that one is not healthy, the next one that is.
pub proof fn law_ip_hash_counts_off_the_address(
    lb: LoadBalancerView,
    now: u64,
    client: Option<ClientIp>,
) -> (gap: int)
    requires
        lb.strategy == LoadBalance::IpHash,
        lb.choice(now, client) is Some,
    ensures
        0 <= gap < lb.backends.len(),
        lb.choice(now, client) == Some(
            (address_number(client) + gap) % (lb.backends.len() as int),
        ),
        forall|d: int|
            0 <= d < gap ==> !lb.backends[#[trigger] ((address_number(client) + d) % (
            lb.backends.len() as int))].healthy(now),
        lb.backends[address_number(client) % (lb.backends.len() as int)].healthy(now) ==> gap == 0,
{
    let slots = lb.slots(client);
    let n = lb.backends.len() as int;
    let a = address_number(client);
    assert(a == client_hash(client));
    let j = choose|j: int| first_healthy_at(lb.backends, now, slots, j);
    assert(first_healthy_at(lb.backends, now, slots, j));
    lemma_first_healthy(lb.backends, now, slots, j);
    assert forall|d: int| 0 <= d < j implies !lb.backends[#[trigger] ((a + d) % n)].healthy(now) by {
        assert(slots[d] == (a + d) % n);
        assert(!lb.backends[slots[d]].healthy(now));
    }
    if j > 0 {
        assert(!lb.backends[(a + 0) % n].healthy(now));
    }
    j
}

/// Picking a backend keeps the order of the backends, the strategy, and what is known of
/// those that failed, but for circuits whose 30 seconds are over.
pub proof fn law_picking_forgets_nothing_too_early(
    lb: LoadBalancerView,
    now: u64,
    client: Option<ClientIp>,
    k: int,
)
    requires
        0 <= k < lb.backends.len(),
    ensures
        lb.selected(now, client).strategy == lb.strategy,
        lb.selected(now, client).backends.len() == lb.backends.len(),
        lb.selected(now, client).backends[k].url == lb.backends[k].url,
        lb.selected(now, client).backends[k].last_failure == lb.backends[k].last_failure,
        !lb.backends[k].circuit_open || now < lb.backends[k].last_failure + 30 ==> lb.selected(
            now,
            client,
        ).backends[k].failures == lb.backends[k].failures && lb.selected(
            now,
            client,
        ).backends[k].circuit_open == lb.backends[k].circuit_open,
        lb.strategy != LoadBalance::RoundRobin ==> lb.selected(now, client).cursor == lb.cursor,
{
    law_choice_is_healthy(lb, now, client);
}

/// What is noted of a URL is noted of the first backend with it, and of no other. A URL
/// that no backend has changes nothing.
pub proof fn law_notes_are_about_one_backend(
    lb: LoadBalancerView,
    url: Seq<char>,
    now: u64,
    j: int,
    k: int,
)
    requires
        0 <= k < lb.backends.len(),
    ensures
        first_with_url_at(lb.backends, url, j) ==> {
            &&& lb.succeeded(url).backends[j] == lb.backends[j].succeeded()
            &&& lb.failed(url, now).backends[j] == lb.backends[j].failed(now)
            &&& k != j ==> lb.succeeded(url).backends[k] == lb.backends[k]
            &&& k != j ==> lb.failed(url, now).backends[k] == lb.backends[k]
        },
        (forall|i: int| 0 <= i < lb.backends.len() ==> (#[trigger] lb.backends[i]).url != url)
            ==> lb.succeeded(url) == lb && lb.failed(url, now) == lb,
        lb.succeeded(url).backends.len() == lb.backends.len(),
        lb.failed(url, now).backends.len() == lb.backends.len(),
        lb.succeeded(url).strategy == lb.strategy && lb.succeeded(url).cursor == lb.cursor,
        lb.failed(url, now).strategy == lb.strategy && lb.failed(url, now).cursor == lb.cursor,
{
    if first_with_url_at(lb.backends, url, j) {
        lemma_first_with_url(lb.backends, url, j);
    }
}

/// The end of a request is counted for the backend that served it, and for no other.
pub proof fn law_ends_are_counted_for_one_backend(lb: LoadBalancerView, i: int, k: int)
    requires
        0 <= i < lb.backends.len(),
        0 <= k < lb.backends.len(),
    ensures
        lb.released(i).backends[i] == lb.backends[i].released(),
        k != i ==> lb.released(i).backends[k] == lb.backends[k],
        lb.released(i).strategy == lb.strategy && lb.released(i).cursor == lb.cursor,
        lb.released(i).backends.len() == lb.backends.len(),
{
}

/// A balancer starts with all configured backends, in their order, each well and without
/// a request, and with the configured strategy from the first backend on.
pub proof fn law_balancers_start_with_all_backends(config: DomainConfig, i: int, now: u64)
    requires
        0 <= i < config.backends@.len(),
    ensures
        LoadBalancerView::fresh(config).backends.len() == config.backends@.len(),
        LoadBalancerView::fresh(config).backends[i].url == config.backends@[i]@,
        LoadBalancerView::fresh(config).backends[i].active == 0,
        LoadBalancerView::fresh(config).backends[i].failures == 0,
        LoadBalancerView::fresh(config).backends[i].healthy(now),
        LoadBalancerView::fresh(config).strategy == config.load_balance,
        LoadBalancerView::fresh(config).cursor == 0,
{
}

/// A domain has the balancer that it was last given, in whatever case its name is
/// written. The other domains keep theirs.
pub proof fn law_domains_keep_their_balancers(
    m: ManagerView,
    domain: Seq<char>,
    lb: LoadBalancerView,
    name: Seq<char>,
    k: int,
)
    requires
        m.balancers.len() <= usize::MAX,
        0 <= k < m.balancers.len(),
    ensures
        ascii_lower(name) == ascii_lower(domain) ==> (m.with_domain(domain, lb).balancer_of(name)
            matches Some(b) && m.with_domain(domain, lb).balancers[b] == lb),
        ascii_lower(name) != ascii_lower(domain) ==> m.with_domain(domain, lb).balancer_of(name)
            == m.balancer_of(name),
        m.with_domain(domain, lb).balancers[k] == m.balancers[k],
        ManagerView::fresh().balancer_of(name) is None,
        m.with_balancer(k, lb).balancers[k] == lb,
        m.with_balancer(k, lb).balancer_of(name) == m.balancer_of(name),
        forall|i: int|
            0 <= i < m.balancers.len() && i != k ==> #[trigger] m.with_balancer(
                k,
                lb,
            ).balancers[i] == m.balancers[i],
{
}

}
