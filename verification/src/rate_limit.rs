//! Token-bucket rate limiter.
//!
//! Each client gets a bucket of its own. Tokens come back at `rps` per second,
//! and a bucket holds up to `burst` of them, which allows short bursts. An `rps`
//! of 0 turns rate limiting off.
//!
//! A bucket counts in billionths of a token, of which `rps` come back in each
//! nanosecond, so that no fraction is ever lost.
use crate::client::{ClientIp, IpKey};
use crate::clock::{nanos_since, told_since};
use crate::shared_map::{no_supplies, set_supply, supplies, supply_or_insert};
use dashmap::DashMap;
use vstd::prelude::*;

verus! {

/// The parts into which a token is divided.
pub const TOKEN: u64 = 1_000_000_000;

/// A client's bucket.
pub struct BucketView {
    /// What it holds, in billionths of a token
    pub parts: nat,
    /// When it was last filled up, in nanoseconds
    pub filled: nat,
}

impl BucketView {
    /// A bucket of `burst` tokens, full at `now`.
    pub open spec fn full(burst: nat, now: nat) -> Self {
        BucketView { parts: burst * TOKEN as nat, filled: now }
    }

    /// Once the tokens that have come back until `now` are in it.
    pub open spec fn refilled(self, rps: nat, burst: nat, now: nat) -> Self {
        let elapsed = if now >= self.filled {
            (now - self.filled) as nat
        } else {
            0
        };
        let sum = self.parts + elapsed * rps;
        let top = burst * TOKEN as nat;
        BucketView {
            parts: if sum <= top {
                sum
            } else {
                top
            },
            filled: now,
        }
    }

    /// Whether it holds a token.
    pub open spec fn ready(self) -> bool {
        self.parts >= TOKEN
    }

    /// Once a token has been taken out, if there is one.
    pub open spec fn drained(self) -> Self {
        if self.ready() {
            BucketView { parts: (self.parts - TOKEN) as nat, filled: self.filled }
        } else {
            self
        }
    }
}

/// The buckets of all clients.
#[verifier::ext_equal]
pub struct LimiterView {
    /// Tokens that come back per second
    pub rps: nat,
    /// Tokens that a bucket holds
    pub burst: nat,
    /// The buckets
    pub buckets: Map<IpKey, BucketView>,
}

impl LimiterView {
    /// Without any bucket.
    pub open spec fn fresh(rps: nat, burst: nat) -> Self {
        LimiterView { rps, burst, buckets: Map::empty() }
    }

    /// The bucket of a client, filled up at `now`. That of a client who has
    /// none is full.
    pub open spec fn bucket(self, ip: ClientIp, now: nat) -> BucketView {
        if self.buckets.contains_key(ip.spec_key()) {
            self.buckets[ip.spec_key()].refilled(self.rps, self.burst, now)
        } else {
            BucketView::full(self.burst, now)
        }
    }

    /// Whether a request of a client is allowed at `now`.
    pub open spec fn allows(self, ip: ClientIp, now: nat) -> bool {
        self.rps == 0 || self.bucket(ip, now).ready()
    }

    /// Once a request of a client has been counted at `now`.
    pub open spec fn counted(self, ip: ClientIp, now: nat) -> Self {
        if self.rps == 0 {
            self
        } else {
            LimiterView {
                buckets: self.buckets.insert(ip.spec_key(), self.bucket(ip, now).drained()),
                ..self
            }
        }
    }

    /// No bucket holds more than `burst` tokens.
    pub open spec fn wf(self) -> bool {
        forall|k: IpKey| #[trigger]
            self.buckets.contains_key(k) ==> self.buckets[k].parts <= self.burst * TOKEN
    }
}

/// Limits how often each client may make a request.
pub struct RateLimiter {
    rps: u32,
    burst: u32,
    start: std::time::Instant,
    buckets: DashMap<IpKey, (u64, u128)>,
}

impl RateLimiter {
    /// The buckets of all clients.
    pub closed spec fn view(&self) -> LimiterView {
        LimiterView {
            rps: self.rps as nat,
            burst: self.burst as nat,
            buckets: supplies(self.buckets).map_values(
                |b: (u64, u128)| BucketView { parts: b.0 as nat, filled: b.1 as nat },
            ),
        }
    }

    /// The moment from which its clock counts.
    pub closed spec fn started(&self) -> std::time::Instant {
        self.start
    }

    /// A limiter that allows `rps` requests per second in the long run (0 means
    /// any number) and `burst` at once.
    pub fn new(rps: u32, burst: u32) -> (r: Self)
        ensures
            r@ == LimiterView::fresh(rps as nat, burst as nat),
            r@.wf(),
    {
        let r = RateLimiter {
            rps,
            burst,
            start: std::time::Instant::now(),
            buckets: no_supplies(),
        };
        assert(r@.buckets =~= Map::empty());
        r
    }

    /// Whether a request of a client is allowed now. The request is counted.
    pub fn is_allowed(&mut self, ip: ClientIp) -> (r: bool)
        requires
            old(self)@.wf(),
        ensures
            final(self)@.wf(),
            final(self).started() == old(self).started(),
            exists|now: u128|
                {
                    &&& told_since(old(self).started(), now)
                    &&& final(self)@ == #[trigger] old(self)@.counted(ip, now as nat)
                    &&& r == old(self)@.allows(ip, now as nat)
                },
    {
        let now = nanos_since(&self.start);
        self.is_allowed_at(ip, now)
    }

    /// Whether a request of a client is allowed at `now`, in nanoseconds since
    /// some start. The request is counted.
    pub fn is_allowed_at(&mut self, ip: ClientIp, now: u128) -> (r: bool)
        requires
            old(self)@.wf(),
        ensures
            final(self)@.wf(),
            final(self).started() == old(self).started(),
            final(self)@ == old(self)@.counted(ip, now as nat),
            r == old(self)@.allows(ip, now as nat),
    {
        if self.rps == 0 {
            return true;
        }
        let ghost start = self@;
        let key = ip.key();
        let top: u64 = self.burst as u64 * TOKEN;
        let (parts, filled) = supply_or_insert(&mut self.buckets, key, (top, now));
        assert(parts <= top) by {
            if start.buckets.contains_key(key) {
                assert(start.buckets[key].parts <= start.burst * TOKEN);
            }
        }
        let elapsed: u128 = if now >= filled {
            now - filled
        } else {
            0
        };
        let room: u128 = (top - parts) as u128;
        let rate: u128 = self.rps as u128;
        // A bucket is full again once `room / rps` nanoseconds have passed.
        let missing: u128 = room / rate;
        let refilled: u64 = if elapsed > missing {
            proof {
                vstd::arithmetic::div_mod::lemma_remainder(room as int, rate as int);
                vstd::arithmetic::mul::lemma_mul_inequality(
                    missing + 1,
                    elapsed as int,
                    rate as int,
                );
                vstd::arithmetic::mul::lemma_mul_is_distributive_add_other_way(
                    rate as int,
                    missing as int,
                    1,
                );
                vstd::arithmetic::mul::lemma_mul_is_commutative(rate as int, missing as int);
            }
            top
        } else {
            proof {
                vstd::arithmetic::mul::lemma_mul_inequality(
                    elapsed as int,
                    missing as int,
                    rate as int,
                );
                vstd::arithmetic::div_mod::lemma_remainder(room as int, rate as int);
                vstd::arithmetic::mul::lemma_mul_is_commutative(rate as int, missing as int);
            }
            parts + (elapsed * rate) as u64
        };
        assert(refilled == start.bucket(ip, now as nat).parts);
        let allowed = refilled >= TOKEN;
        let left: u64 = if allowed {
            refilled - TOKEN
        } else {
            refilled
        };
        set_supply(&mut self.buckets, key, (left, now));
        assert(self@.buckets =~= start.counted(ip, now as nat).buckets);
        allowed
    }
}

/// With rate limiting off, every request is allowed and nothing is kept.
pub proof fn law_zero_rate_allows_everything(l: LimiterView, ip: ClientIp, now: nat)
    requires
        l.rps == 0,
    ensures
        l.allows(ip, now),
        l.counted(ip, now) == l,
{
}

/// What one client does changes nothing for another.
pub proof fn law_clients_have_buckets_of_their_own(
    l: LimiterView,
    ip: ClientIp,
    now: nat,
    other: ClientIp,
    then: nat,
)
    requires
        ip != other,
    ensures
        l.counted(ip, now).bucket(other, then) == l.bucket(other, then),
        l.counted(ip, now).allows(other, then) == l.allows(other, then),
{
    crate::client::law_keys_tell_clients_apart(ip, other);
}

/// A client who had to wait is let in again once the time in which one token
/// comes back has passed, if a bucket holds a token at all.
pub proof fn law_waiting_is_rewarded(l: LimiterView, ip: ClientIp, now: nat)
    requires
        l.burst >= 1,
        l.buckets.contains_key(ip.spec_key()),
        now >= l.buckets[ip.spec_key()].filled,
        (now - l.buckets[ip.spec_key()].filled) * l.rps >= TOKEN,
    ensures
        l.allows(ip, now),
{
}

/// With a burst of 0 and a rate, no request is ever allowed.
pub proof fn law_zero_burst_allows_nothing(l: LimiterView, ip: ClientIp, now: nat)
    requires
        l.rps > 0,
        l.burst == 0,
    ensures
        !l.allows(ip, now),
{
}

/// The limiter once requests have come in, each from a client at a time.
pub open spec fn after_requests(l: LimiterView, requests: Seq<(ClientIp, nat)>) -> LimiterView
    decreases requests.len(),
{
    if requests.len() == 0 {
        l
    } else {
        after_requests(l, requests.drop_last()).counted(requests.last().0, requests.last().1)
    }
}

/// How many of the requests are from `ip` and allowed.
pub open spec fn allowed_requests(
    l: LimiterView,
    requests: Seq<(ClientIp, nat)>,
    ip: ClientIp,
) -> nat
    decreases requests.len(),
{
    if requests.len() == 0 {
        0
    } else {
        let before = after_requests(l, requests.drop_last());
        let (client, now) = requests.last();
        allowed_requests(l, requests.drop_last(), ip) + if client == ip && before.allows(
            client,
            now,
        ) {
            1nat
        } else {
            0nat
        }
    }
}

/// The times of the requests never go back, and lie between `from` and `to`.
pub open spec fn in_order(requests: Seq<(ClientIp, nat)>, from: nat, to: nat) -> bool {
    &&& forall|i: int|
        0 <= i < requests.len() ==> from <= (#[trigger] requests[i]).1 <= to
    &&& forall|i: int, j: int|
        0 <= i <= j < requests.len() ==> (#[trigger] requests[i]).1 <= (#[trigger] requests[j]).1
}

/// Between two moments a client gets at most `burst` requests through, and `rps`
/// more for each second between them, whatever it and the others send.
pub proof fn law_rate_is_bounded(
    l: LimiterView,
    requests: Seq<(ClientIp, nat)>,
    ip: ClientIp,
    from: nat,
    to: nat,
)
    requires
        l.wf(),
        l.rps > 0,
        from <= to,
        in_order(requests, from, to),
    ensures
        allowed_requests(l, requests, ip) * TOKEN <= l.burst * TOKEN + (to - from) * l.rps,
{
    lemma_spent(l, requests, ip, from, to);
}

/// What a client has spent and what is left is never more than what a full
/// bucket and the time since `from` give.
proof fn lemma_spent(
    l: LimiterView,
    requests: Seq<(ClientIp, nat)>,
    ip: ClientIp,
    from: nat,
    to: nat,
)
    requires
        l.wf(),
        l.rps > 0,
        from <= to,
        in_order(requests, from, to),
    ensures
        ({
            let now = after_requests(l, requests);
            let spent = allowed_requests(l, requests, ip) * TOKEN;
            let bucket = now.buckets[ip.spec_key()];
            let key = ip.spec_key();
            &&& now.rps == l.rps
            &&& now.burst == l.burst
            &&& now.wf()
            &&& if exists|i: int| 0 <= i < requests.len() && (#[trigger] requests[i]).0 == ip {
                &&& now.buckets.contains_key(key)
                &&& from <= bucket.filled <= to
                &&& (requests.len() > 0 ==> bucket.filled <= requests.last().1)
                &&& spent + bucket.parts <= l.burst * TOKEN + (bucket.filled - from) * l.rps
            } else {
                &&& spent == 0
                &&& now.buckets.contains_key(key) == l.buckets.contains_key(key)
                &&& now.buckets.contains_key(key) ==> bucket == l.buckets[key]
            }
            &&& spent <= l.burst * TOKEN + (to - from) * l.rps
        }),
    decreases requests.len(),
{
    let key = ip.spec_key();
    assert((to - from) * l.rps >= 0) by (nonlinear_arith)
        requires
            from <= to,
            l.rps > 0,
    ;
    if requests.len() > 0 {
        let earlier = requests.drop_last();
        let (client, now) = requests.last();
        assert(in_order(earlier, from, now)) by {
            assert(requests.last() == requests[requests.len() - 1]);
        }
        lemma_spent(l, earlier, ip, from, now);
        let before = after_requests(l, earlier);
        let after = after_requests(l, requests);
        let had = exists|i: int| 0 <= i < earlier.len() && (#[trigger] earlier[i]).0 == ip;
        crate::client::law_keys_tell_clients_apart(client, ip);
        assert(after.wf()) by {
            assert forall|k: IpKey| #[trigger] after.buckets.contains_key(k) implies
                after.buckets[k].parts <= after.burst * TOKEN by {
                if k != client.spec_key() {
                    assert(before.buckets.contains_key(k));
                }
            }
        }
        if client == ip {
            assert(requests[requests.len() - 1].0 == ip);
            let old = before.buckets[key];
            let bucket = after.buckets[key];
            assert((now - from) * l.rps >= 0) by (nonlinear_arith)
                requires
                    from <= now,
                    l.rps > 0,
            ;
            if had {
                assert((old.filled - from) * l.rps + (now - old.filled) * l.rps == (now - from)
                    * l.rps) by (nonlinear_arith);
            }
            assert((now - from) * l.rps <= (to - from) * l.rps) by (nonlinear_arith)
                requires
                    now <= to,
                    l.rps > 0,
            ;
        } else {
            if had {
                let i = choose|i: int| 0 <= i < earlier.len() && (#[trigger] earlier[i]).0 == ip;
                assert(requests[i].0 == ip);
                let bucket = after.buckets[key];
                assert((bucket.filled - from) * l.rps <= (to - from) * l.rps) by (nonlinear_arith)
                    requires
                        bucket.filled <= to,
                        l.rps > 0,
                ;
            } else {
                assert(forall|i: int|
                    0 <= i < requests.len() && (#[trigger] requests[i]).0 == ip ==> i
                        == requests.len() - 1 || earlier[i].0 == ip);
            }
        }
    }
}

/// How many of the requests are from `ip`.
pub open spec fn requests_of(requests: Seq<(ClientIp, nat)>, ip: ClientIp) -> nat
    decreases requests.len(),
{
    if requests.len() == 0 {
        0
    } else {
        requests_of(requests.drop_last(), ip) + if requests.last().0 == ip {
            1nat
        } else {
            0nat
        }
    }
}

/// Whether all requests of `ip` are made at `now`.
pub open spec fn at_once(requests: Seq<(ClientIp, nat)>, ip: ClientIp, now: nat) -> bool {
    forall|i: int|
        0 <= i < requests.len() && (#[trigger] requests[i]).0 == ip ==> requests[i].1 == now
}

/// A client who was never seen before gets `burst` requests through at once, and
/// no more, whatever the others send in between.
pub proof fn law_new_client_may_burst(
    l: LimiterView,
    requests: Seq<(ClientIp, nat)>,
    ip: ClientIp,
    now: nat,
)
    requires
        l.rps > 0,
        !l.buckets.contains_key(ip.spec_key()),
        at_once(requests, ip, now),
    ensures
        after_requests(l, requests).allows(ip, now) <==> requests_of(requests, ip) < l.burst,
{
    lemma_burst(l, requests, ip, now);
}

proof fn lemma_burst(l: LimiterView, requests: Seq<(ClientIp, nat)>, ip: ClientIp, now: nat)
    requires
        l.rps > 0,
        !l.buckets.contains_key(ip.spec_key()),
        at_once(requests, ip, now),
    ensures
        after_requests(l, requests).rps == l.rps,
        after_requests(l, requests).burst == l.burst,
        after_requests(l, requests).bucket(ip, now) == (BucketView {
            parts: if requests_of(requests, ip) <= l.burst {
                ((l.burst - requests_of(requests, ip)) * TOKEN) as nat
            } else {
                0
            },
            filled: now,
        }),
    decreases requests.len(),
{
    if requests.len() > 0 {
        let earlier = requests.drop_last();
        let (client, then) = requests.last();
        assert(requests.last() == requests[requests.len() - 1]);
        assert(at_once(earlier, ip, now)) by {
            assert forall|i: int| 0 <= i < earlier.len() && (#[trigger] earlier[i]).0
                == ip implies earlier[i].1 == now by {
                assert(earlier[i] == requests[i]);
            }
        }
        lemma_burst(l, earlier, ip, now);
        if client == ip {
            assert((now - now) * l.rps == 0);
        } else {
            law_clients_have_buckets_of_their_own(
                after_requests(l, earlier),
                client,
                then,
                ip,
                now,
            );
        }
    }
}

/// What a bucket of `held` parts holds once `n` requests have asked it for a token.
spec fn left_of(held: nat, n: nat) -> nat {
    if n * TOKEN <= held {
        (held - n * TOKEN) as nat
    } else {
        held % TOKEN as nat
    }
}

proof fn lemma_spending(l: LimiterView, requests: Seq<(ClientIp, nat)>, ip: ClientIp, now: nat)
    requires
        l.rps > 0,
        l.buckets.contains_key(ip.spec_key()),
        at_once(requests, ip, now),
    ensures
        after_requests(l, requests).rps == l.rps,
        after_requests(l, requests).burst == l.burst,
        after_requests(l, requests).buckets.contains_key(ip.spec_key()),
        after_requests(l, requests).bucket(ip, now) == (BucketView {
            parts: left_of(l.bucket(ip, now).parts, requests_of(requests, ip)),
            filled: now,
        }),
    decreases requests.len(),
{
    if requests.len() > 0 {
        let earlier = requests.drop_last();
        let (client, then) = requests.last();
        assert(requests.last() == requests[requests.len() - 1]);
        assert(at_once(earlier, ip, now)) by {
            assert forall|i: int| 0 <= i < earlier.len() && (#[trigger] earlier[i]).0
                == ip implies earlier[i].1 == now by {
                assert(earlier[i] == requests[i]);
            }
        }
        lemma_spending(l, earlier, ip, now);
        crate::client::law_keys_tell_clients_apart(client, ip);
        if client == ip {
            let before = after_requests(l, earlier).bucket(ip, now);
            let held = l.bucket(ip, now).parts;
            assert((now - now) * l.rps == 0);
            assert(before.drained().parts <= l.burst * TOKEN);
            assert(left_of(held, requests_of(requests, ip)) == before.drained().parts);
        } else {
            law_clients_have_buckets_of_their_own(
                after_requests(l, earlier),
                client,
                then,
                ip,
                now,
            );
        }
    }
}

/// What has come back while a client waited is all there for it at once. Of its requests
/// at one moment exactly as many are allowed as tokens were left of its last request and
/// have come back since, at `rps` for every 1000000000 nanoseconds, up to `burst`,
/// whatever the others send in between.
pub proof fn law_tokens_come_back(
    l: LimiterView,
    requests: Seq<(ClientIp, nat)>,
    ip: ClientIp,
    now: nat,
)
    requires
        l.rps > 0,
        l.buckets.contains_key(ip.spec_key()),
        now >= l.buckets[ip.spec_key()].filled,
        at_once(requests, ip, now),
    ensures
        after_requests(l, requests).allows(ip, now) <==> requests_of(requests, ip) + 1 <= l.burst
            && (requests_of(requests, ip) + 1) * 1_000_000_000
            <= l.buckets[ip.spec_key()].parts + (now - l.buckets[ip.spec_key()].filled) * l.rps,
{
    lemma_spending(l, requests, ip, now);
    let kept = l.buckets[ip.spec_key()];
    assert((now - kept.filled) * l.rps >= 0) by (nonlinear_arith)
        requires
            now >= kept.filled,
            l.rps > 0,
    ;
}

/// A client that has not asked for as long as it takes to fill a bucket gets `burst`
/// requests through at once again, and no more.
pub proof fn law_idle_client_may_burst_again(
    l: LimiterView,
    requests: Seq<(ClientIp, nat)>,
    ip: ClientIp,
    now: nat,
)
    requires
        l.rps > 0,
        l.buckets.contains_key(ip.spec_key()),
        now >= l.buckets[ip.spec_key()].filled,
        (now - l.buckets[ip.spec_key()].filled) * l.rps >= l.burst * 1_000_000_000,
        at_once(requests, ip, now),
    ensures
        after_requests(l, requests).allows(ip, now) <==> requests_of(requests, ip) < l.burst,
{
    law_tokens_come_back(l, requests, ip, now);
}

/// A request that is refused costs nothing: what is allowed later is what would have
/// been allowed without it.
pub proof fn law_refused_requests_cost_nothing(l: LimiterView, ip: ClientIp, now: nat, then: nat)
    requires
        l.buckets.contains_key(ip.spec_key()),
        l.buckets[ip.spec_key()].filled <= now <= then,
        !l.allows(ip, now),
    ensures
        l.counted(ip, now).allows(ip, then) == l.allows(ip, then),
{
    let kept = l.buckets[ip.spec_key()];
    assert((now - kept.filled) * l.rps + (then - now) * l.rps == (then - kept.filled) * l.rps)
        by (nonlinear_arith);
    assert((then - now) * l.rps >= 0 && (now - kept.filled) * l.rps >= 0) by (nonlinear_arith)
        requires
            kept.filled <= now <= then,
            l.rps >= 0,
    ;
}

/// No token comes back while the clock is set back behind the last request.
pub proof fn law_clock_set_back_brings_nothing(l: LimiterView, ip: ClientIp, now: nat)
    requires
        l.wf(),
        l.rps > 0,
        l.buckets.contains_key(ip.spec_key()),
        now <= l.buckets[ip.spec_key()].filled,
    ensures
        l.allows(ip, now) <==> l.buckets[ip.spec_key()].parts >= 1_000_000_000,
        l.bucket(ip, now).parts == l.buckets[ip.spec_key()].parts,
{
    assert(0 * l.rps == 0);
}

/// An allowed request takes one token of 1000000000 parts out of the bucket of its
/// client, and leaves the other buckets and the limits alone.
pub proof fn law_a_request_costs_one_token(
    l: LimiterView,
    ip: ClientIp,
    now: nat,
    other: ClientIp,
)
    requires
        l.rps > 0,
        l.allows(ip, now),
    ensures
        l.counted(ip, now).buckets[ip.spec_key()].parts + 1_000_000_000 == l.bucket(ip, now).parts,
        l.counted(ip, now).buckets[ip.spec_key()].filled == now,
        l.counted(ip, now).rps == l.rps,
        l.counted(ip, now).burst == l.burst,
        other != ip ==> l.counted(ip, now).buckets.contains_key(other.spec_key())
            == l.buckets.contains_key(other.spec_key()),
        other != ip && l.buckets.contains_key(other.spec_key()) ==> l.counted(
            ip,
            now,
        ).buckets[other.spec_key()] == l.buckets[other.spec_key()],
{
    crate::client::law_keys_tell_clients_apart(ip, other);
}

/// A limiter starts with the rate and the burst that it was made with, and every client
/// has a full bucket of `burst` tokens then.
pub proof fn law_everybody_starts_with_a_full_bucket(rps: nat, burst: nat, ip: ClientIp, now: nat)
    ensures
        LimiterView::fresh(rps, burst).rps == rps,
        LimiterView::fresh(rps, burst).burst == burst,
        !LimiterView::fresh(rps, burst).buckets.contains_key(ip.spec_key()),
        LimiterView::fresh(rps, burst).bucket(ip, now).parts == burst * 1_000_000_000,
{
}

}
