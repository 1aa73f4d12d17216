//! What holds of the handling of requests as a whole.
use crate::client::ClientIp;
use crate::config::{
    distinct_lower_names, domain_config, has_domain, is_entry, DomainConfig, ExtraHeader,
};
use crate::error::{law_error_pages_show_their_text, page_error, plain_error};
use crate::headers::{fields, lemma_visible, text_field, valid_name, valid_value, visible};
use crate::load_balancer::{
    first_with_url_at, lemma_first_with_url, CB_RESET_SECS, CB_THRESHOLD, LoadBalancerView,
    ManagerView,
};
use crate::load_balancer_laws::{
    after_failures, law_choice_is_healthy, law_circuit_opens_with_fifth_failure,
    law_release_undoes_select,
};
use crate::proxy::{
    after_search, answer_view, backend_address, begins, decided, dressed, ended, ended_balancer,
    extras_of, files_of, forbids, forwarded_for, forwarding, injected, moved, origin, parts_in,
    passage_error, picked, reply_view, routed, uri_parts, wants_https, ActionView,
    AfterStaticView, Answer, AnswerView, BeginningView, EndingView, ExchangeView, Passage,
    UriParts,
};
use crate::rate_limit::LimiterView;
use crate::reply::{Reply, ReplyView};
use crate::request::{asks_for_websocket, chars_in, host_in, HeadView};
use crate::security::{verdict, SecurityView};
use crate::text::{
    ascii_lower, before_first, decimal, digits_value, find_last, is_digit, lemma_lower_twice,
    occurs, read_u16,
};
use crate::text_laws::{
    law_cut_at_the_first, law_decimal_stands_for_its_number, law_last_is_found,
    law_numbers_are_read, repeated,
};
use vstd::prelude::*;
use vstd::utf8::*;

verus! {

/// A client that sends too many requests is told so, whatever it asks for.
pub proof fn law_rate_limit_comes_first(
    limiter: LimiterView,
    security: SecurityView,
    domains: Seq<(Seq<char>, DomainConfig)>,
    head: HeadView,
    lower: Seq<char>,
    client: ClientIp,
    is_tls: bool,
    now: nat,
)
    requires
        !limiter.allows(client, now),
    ensures
        decided(limiter, security, domains, head, lower, client, is_tls, now)
            == ActionView::Answer(plain_error(429, "Too Many Requests"@)),
{
}

/// A request that the screening objects to is answered with the reason, whoever sends
/// it, and before it is redirected, looked up or passed on.
pub proof fn law_screening_comes_next(
    limiter: LimiterView,
    security: SecurityView,
    domains: Seq<(Seq<char>, DomainConfig)>,
    head: HeadView,
    lower: Seq<char>,
    client: ClientIp,
    is_tls: bool,
    now: nat,
    reason: Seq<char>,
)
    requires
        limiter.allows(client, now),
        verdict(security.flags, lower, text_field(head.headers, "user-agent"@)) == Some(reason),
    ensures
        decided(limiter, security, domains, head, lower, client, is_tls, now)
            == ActionView::Answer(page_error(403, "Forbidden"@, reason)),
{
}

/// A blocked client is refused, whatever it asks for, and told so where nothing else is
/// wrong with its request.
pub proof fn law_blocked_client_is_refused(
    limiter: LimiterView,
    security: SecurityView,
    domains: Seq<(Seq<char>, DomainConfig)>,
    head: HeadView,
    lower: Seq<char>,
    client: ClientIp,
    is_tls: bool,
    now: nat,
)
    requires
        security.blocks(client),
    ensures
        decided(limiter, security, domains, head, lower, client, is_tls, now) is Answer,
        limiter.allows(client, now) && verdict(
            security.flags,
            lower,
            text_field(head.headers, "user-agent"@),
        ) is None ==> decided(limiter, security, domains, head, lower, client, is_tls, now)
            == ActionView::Answer(page_error(403, "Forbidden"@, "blocked"@)),
{
}

/// A request that came by HTTPS is never redirected. One that came by HTTP for a
/// domain that wants HTTPS always is, to the same path and query.
pub proof fn law_redirects_lead_to_https(
    domains: Seq<(Seq<char>, DomainConfig)>,
    head: HeadView,
)
    ensures
        routed(domains, head, true) !is Redirect,
        wants_https(domains, host_in(head.headers)) ==> routed(domains, head, false)
            == ActionView::Redirect("https://"@ + host_in(head.headers) + origin(head)),
        !wants_https(domains, host_in(head.headers)) ==> routed(domains, head, false) == routed(
            domains,
            head,
            true,
        ),
{
}

/// Static files are tried only for domains that have any.
pub proof fn law_static_files_need_configuration(
    domains: Seq<(Seq<char>, DomainConfig)>,
    head: HeadView,
    is_tls: bool,
)
    ensures
        routed(domains, head, is_tls) matches ActionView::Static(host) ==> files_of(
            domains,
            host,
        ) is Some,
{
}

/// For a domain with static files, a request that is neither redirected nor an upgrade
/// is answered with the file that is found, under the extra headers of the domain, and
/// no backend is asked. Where none is found the request is forwarded.
pub proof fn law_files_come_before_backends(
    domains: Seq<(Seq<char>, DomainConfig)>,
    head: HeadView,
    is_tls: bool,
    found: Option<ReplyView>,
)
    requires
        is_tls || !wants_https(domains, host_in(head.headers)),
        !asks_for_websocket(head.headers),
        files_of(domains, host_in(head.headers)) is Some,
    ensures
        routed(domains, head, is_tls) == ActionView::Static(host_in(head.headers)),
        match found {
            Some(reply) => after_search(domains, host_in(head.headers), found)
                == AfterStaticView::Answer(
                ReplyView {
                    status: reply.status,
                    headers: dressed(domains, host_in(head.headers), reply.headers),
                    body: reply.body,
                },
            ),
            None => after_search(domains, host_in(head.headers), found)
                == AfterStaticView::Forward(host_in(head.headers)),
        },
{
}

/// A request that is forwarded is answered with what the backend says, under the extra
/// headers of the domain. Where there is no backend, none is well, or the one that is
/// picked gives no answer, the page says that the upstream server is unreachable.
pub proof fn law_forwarded_requests_are_answered(
    domains: Seq<(Seq<char>, DomainConfig)>,
    m: ManagerView,
    begun: ManagerView,
    r: BeginningView,
    host: Seq<char>,
    client: ClientIp,
    origin: Seq<char>,
    now: u64,
    answer: Option<AnswerView>,
)
    requires
        begins(m, begun, r, Passage::Http, host, client, origin, now),
    ensures
        picked(m, host, client, now) is None ==> r is Refused,
        ({
            let unreachable = page_error(
                502,
                "Bad Gateway"@,
                "The upstream server is unreachable."@,
            );
            match r {
                BeginningView::Refused(reply) => reply == unreachable,
                BeginningView::Connect(x, _) => match answer {
                    Some(a) => ended(domains, x, answer) == EndingView::Relay(
                        AnswerView {
                            status: a.status,
                            headers: dressed(domains, host, a.headers),
                        },
                    ),
                    None => ended(domains, x, answer) == EndingView::Failed(unreachable),
                },
            }
        }),
{
}

/// However passing a request on ends, the backend is then counted as serving as
/// many requests as before, and so are all others.
pub proof fn law_exchange_is_given_back(
    m: ManagerView,
    begun: ManagerView,
    r: BeginningView,
    passage: Passage,
    host: Seq<char>,
    client: ClientIp,
    origin: Seq<char>,
    now: u64,
    answered: bool,
    then: u64,
    b: int,
    k: int,
)
    requires
        m.wf(),
        begins(m, begun, r, passage, host, client, origin, now),
        0 <= b < m.balancers.len(),
        0 <= k < m.balancers[b].backends.len(),
    ensures
        match r {
            BeginningView::Connect(x, _) => begun.with_balancer(
                x.balancer,
                ended_balancer(begun.balancers[x.balancer], x, answered, then),
            ).balancers[b].backends[k].active == m.balancers[b].backends[k].active,
            BeginningView::Refused(_) => begun.balancers[b].backends[k].active
                == m.balancers[b].backends[k].active,
        },
{
    if m.balancer_of(host) == Some(b) {
        let lb = m.balancers[b];
        law_release_undoes_select(lb, now, Some(client), k);
        law_choice_is_healthy(lb, now, Some(client));
        if let BeginningView::Connect(x, _) = r {
            let after = lb.selected(now, Some(client));
            lemma_notes_keep_counts(after, x.url, then, k);
        }
    }
}

/// What is noted of a backend changes no count of requests.
proof fn lemma_notes_keep_counts(lb: LoadBalancerView, url: Seq<char>, now: u64, k: int)
    requires
        0 <= k < lb.backends.len(),
    ensures
        lb.succeeded(url).backends.len() == lb.backends.len(),
        lb.succeeded(url).backends[k].active == lb.backends[k].active,
        lb.failed(url, now).backends.len() == lb.backends.len(),
        lb.failed(url, now).backends[k].active == lb.backends[k].active,
{
}

/// A backend that answers a request is well from then on: its circuit is closed and
/// its failures no longer count.
pub proof fn law_answer_closes_circuit(
    lb: LoadBalancerView,
    x: ExchangeView,
    then: u64,
    now: u64,
)
    requires
        x.passage == Passage::Http,
        first_with_url_at(lb.backends, x.url, x.backend),
    ensures
        ended_balancer(lb, x, true, then).backends[x.backend].healthy(now),
        ended_balancer(lb, x, true, then).backends[x.backend].failures == 0,
{
    lemma_first_with_url(lb.backends, x.url, x.backend);
}

/// An answer to an upgrade changes no circuit.
pub proof fn law_upgrades_change_no_circuit(
    lb: LoadBalancerView,
    x: ExchangeView,
    now: u64,
    k: int,
)
    requires
        x.passage == Passage::WebSocket,
        0 <= k < lb.backends.len(),
    ensures
        ended_balancer(lb, x, true, now).backends[k].failures == lb.backends[k].failures,
        ended_balancer(lb, x, true, now).backends[k].circuit_open
            == lb.backends[k].circuit_open,
        ended_balancer(lb, x, true, now).backends[k].last_failure
            == lb.backends[k].last_failure,
{
}

/// The balancer after requests to one backend have ended without an answer at each of
/// `times`.
pub open spec fn after_unanswered(
    lb: LoadBalancerView,
    x: ExchangeView,
    times: Seq<u64>,
) -> LoadBalancerView
    decreases times.len(),
{
    if times.len() == 0 {
        lb
    } else {
        ended_balancer(after_unanswered(lb, x, times.drop_last()), x, false, times.last())
    }
}

/// A backend that has left five requests in a row without an answer is routed around:
/// it is picked for no request in the 30 seconds after the last of them.
pub proof fn law_broken_backend_is_routed_around(
    lb: LoadBalancerView,
    x: ExchangeView,
    times: Seq<u64>,
    now: u64,
    client: Option<ClientIp>,
)
    requires
        first_with_url_at(lb.backends, x.url, x.backend),
        lb.backends[x.backend].failures == 0,
        !lb.backends[x.backend].circuit_open,
        times.len() >= CB_THRESHOLD,
        now < times.last() + CB_RESET_SECS,
    ensures
        after_unanswered(lb, x, times).choice(now, client) != Some(x.backend),
{
    lemma_unanswered(lb, x, times);
    law_circuit_opens_with_fifth_failure(lb.backends[x.backend], times, now);
    law_choice_is_healthy(after_unanswered(lb, x, times), now, client);
}

proof fn lemma_unanswered(lb: LoadBalancerView, x: ExchangeView, times: Seq<u64>)
    requires
        first_with_url_at(lb.backends, x.url, x.backend),
    ensures
        first_with_url_at(after_unanswered(lb, x, times).backends, x.url, x.backend),
        ({
            let b = after_unanswered(lb, x, times).backends[x.backend];
            let expected = after_failures(lb.backends[x.backend], times);
            &&& b.failures == expected.failures
            &&& b.circuit_open == expected.circuit_open
            &&& b.last_failure == expected.last_failure
        }),
    decreases times.len(),
{
    if times.len() > 0 {
        let before = after_unanswered(lb, x, times.drop_last());
        lemma_unanswered(lb, x, times.drop_last());
        lemma_first_with_url(before.backends, x.url, x.backend);
    }
}

/// The reply that opens a WebSocket carries all header fields of the backend's answer,
/// and only an answer of 101 opens one.
pub proof fn law_websockets_are_transparent(
    domains: Seq<(Seq<char>, DomainConfig)>,
    x: ExchangeView,
    answer: AnswerView,
)
    requires
        x.passage == Passage::WebSocket,
    ensures
        ended(domains, x, Some(answer)) matches EndingView::Tunnel(reply) ==> answer.status == 101
            && reply.status == 101 && reply.headers == answer.headers && reply.body.len() == 0,
        answer.status == 101 ==> ended(domains, x, Some(answer)) is Tunnel,
{
}

/// Every configured domain is reached by its name, in whatever case the `Host` field of
/// a request and the configuration have it.
pub proof fn law_domains_match_in_any_case(
    table: Seq<(Seq<char>, DomainConfig)>,
    name: Seq<char>,
    f: Map<Seq<char>, Seq<Seq<u8>>>,
    h: Seq<char>,
)
    requires
        distinct_lower_names(table),
        table.len() <= usize::MAX,
        has_domain(table, name),
        text_field(f, "host"@) == Some(h),
        ascii_lower(before_first(h, ':')) == ascii_lower(name),
    ensures
        has_domain(table, host_in(f)),
        domain_config(table, host_in(f)) == domain_config(table, name),
        ManagerView::of_domains(table, table.len()).balancer_of(host_in(f)) matches Some(b)
            && ManagerView::of_domains(table, table.len()).balancers[b]
            == LoadBalancerView::fresh(domain_config(table, name)),
{
    lemma_lower_twice(name);
    let host = host_in(f);
    let i = choose|i: int| is_entry(table, name, i);
    assert(is_entry(table, name, i));
    assert(is_entry(table, host, i));
    let j = choose|j: int| is_entry(table, host, j);
    assert(is_entry(table, host, j));
    if i < j {
        assert(table[i].0 != table[j].0);
    } else if j < i {
        assert(table[j].0 != table[i].0);
    }
    lemma_of_domains(table, table.len(), i);
}

proof fn lemma_of_domains(table: Seq<(Seq<char>, DomainConfig)>, n: nat, i: int)
    requires
        distinct_lower_names(table),
        0 <= i,
        n <= table.len() <= usize::MAX,
    ensures
        ManagerView::of_domains(table, n).balancers.len() == n,
        i < n ==> ManagerView::of_domains(table, n).index.contains_key(table[i].0),
        i < n ==> ManagerView::of_domains(table, n).index[table[i].0] == i,
        i < n ==> ManagerView::of_domains(table, n).balancers[i] == LoadBalancerView::fresh(
            table[i].1,
        ),
    decreases n,
{
    if n > 0 {
        lemma_of_domains(table, (n - 1) as nat, i);
        assert(ascii_lower(table[n - 1].0) == table[n - 1].0);
        if i < n - 1 {
            assert(table[i].0 != table[n - 1].0);
        }
    }
}

/// A backend learns the address of the client, and at the end of the chain of
/// addresses that the request came with, and the domain that it is for.
pub proof fn law_backend_learns_the_client(
    f: Map<Seq<char>, Seq<Seq<u8>>>,
    ip: Seq<char>,
    host: Seq<char>,
)
    requires
        visible(ip),
        visible(host),
    ensures
        text_field(forwarding(f, ip, host), "x-real-ip"@) == Some(ip),
        text_field(forwarding(f, ip, host), "x-forwarded-for"@) == Some(
            match text_field(f, "x-forwarded-for"@) {
                Some(existing) => existing + ", "@ + ip,
                None => ip,
            },
        ),
        host.len() > 0 ==> text_field(forwarding(f, ip, host), "x-forwarded-host"@) == Some(host),
{
    lemma_forwarding_names();
    lemma_visible(ip);
    lemma_visible(host);
    let chain = forwarded_for(f, ip);
    assert(visible(chain)) by {
        reveal_strlit(", ");
        if let Some(existing) = text_field(f, "x-forwarded-for"@) {
            crate::headers::lemma_visible_text(f["x-forwarded-for"@][0]);
            assert forall|i: int| 0 <= i < chain.len() implies crate::headers::visible_char(
                #[trigger] chain[i],
            ) by {
                if i < existing.len() {
                    assert(chain[i] == existing[i]);
                } else if i >= existing.len() + 2 {
                    assert(chain[i] == ip[i - existing.len() - 2]);
                }
            }
        }
    }
    lemma_visible(chain);
}

/// The fields that tell where a request comes from have different names.
proof fn lemma_forwarding_names()
    ensures
        "x-forwarded-for"@ != "x-real-ip"@,
        "x-forwarded-for"@ != "x-forwarded-host"@,
        "x-real-ip"@ != "x-forwarded-host"@,
{
    reveal_strlit("x-forwarded-for");
    reveal_strlit("x-real-ip");
    reveal_strlit("x-forwarded-host");
    assert("x-forwarded-for"@.len() == 15);
    assert("x-real-ip"@.len() == 9);
    assert("x-forwarded-host"@.len() == 16);
}

/// All other fields of a request reach the backend as they are.
pub proof fn law_other_fields_are_passed_on(
    f: Map<Seq<char>, Seq<Seq<u8>>>,
    ip: Seq<char>,
    host: Seq<char>,
    name: Seq<char>,
)
    requires
        name != "x-forwarded-for"@,
        name != "x-real-ip"@,
        name != "x-forwarded-host"@,
    ensures
        forwarding(f, ip, host).contains_key(name) == f.contains_key(name),
        f.contains_key(name) ==> forwarding(f, ip, host)[name] == f[name],
{
}

/// Whether an extra header is one, and is called `name`.
pub open spec fn is_extra(h: ExtraHeader, name: Seq<char>) -> bool {
    valid_name(h.name@) && valid_value(h.value@) && ascii_lower(h.name@) == name
}

/// Of the extra headers with one name the last is on the reply, in place of what
/// was there.
pub proof fn law_extra_headers_are_injected(
    f: Map<Seq<char>, Seq<Seq<u8>>>,
    extras: Seq<ExtraHeader>,
    n: nat,
    i: int,
    name: Seq<char>,
)
    requires
        0 <= i < n <= extras.len(),
        is_extra(extras[i], name),
        forall|j: int| i < j < n ==> !is_extra(#[trigger] extras[j], name),
    ensures
        injected(f, extras, n).contains_key(name),
        injected(f, extras, n)[name] == seq![encode_utf8(extras[i].value@)],
    decreases n,
{
    if i < n - 1 {
        assert(!is_extra(extras[n - 1], name));
        law_extra_headers_are_injected(f, extras, (n - 1) as nat, i, name);
    }
}

/// The other headers of a reply stay as they are.
pub proof fn law_other_headers_stay(
    f: Map<Seq<char>, Seq<Seq<u8>>>,
    extras: Seq<ExtraHeader>,
    n: nat,
    name: Seq<char>,
)
    requires
        n <= extras.len(),
        forall|j: int| 0 <= j < n ==> !is_extra(#[trigger] extras[j], name),
    ensures
        injected(f, extras, n).contains_key(name) == f.contains_key(name),
        f.contains_key(name) ==> injected(f, extras, n)[name] == f[name],
    decreases n,
{
    if n > 0 {
        assert(!is_extra(extras[n - 1], name));
        law_other_headers_stay(f, extras, (n - 1) as nat, name);
    }
}

/// The address of a backend is the host of its URL, a colon and the port: both are read
/// back from it, so that different ports are different addresses. Port 80 is used only
/// where the URL has none, and `localhost` only where it has no host.
pub proof fn law_address_is_host_and_port(
    host: Option<Seq<char>>,
    h: Seq<char>,
    port: u16,
    other: u16,
)
    ensures
        ({
            let addr = backend_address((Some(h), Some(port)));
            &&& find_last(addr, ':') == h.len()
            &&& addr.take(h.len() as int) == h
            &&& read_u16(addr.skip(h.len() + 1int)) == Some(port)
            &&& digits_value(addr.skip(h.len() + 1int)) == port
        }),
        port != other ==> backend_address((Some(h), Some(port))) != backend_address(
            (Some(h), Some(other)),
        ),
        backend_address((host, None)) == backend_address((host, Some(80))),
        backend_address((None, Some(port))) == backend_address((Some("localhost"@), Some(port))),
{
    lemma_address(h, port);
    lemma_address(h, other);
}

proof fn lemma_address(h: Seq<char>, port: u16)
    ensures
        ({
            let addr = backend_address((Some(h), Some(port)));
            &&& find_last(addr, ':') == h.len()
            &&& addr.take(h.len() as int) == h
            &&& read_u16(addr.skip(h.len() + 1int)) == Some(port)
            &&& digits_value(addr.skip(h.len() + 1int)) == port
        }),
{
    reveal_strlit(":");
    let digits = decimal(port as nat);
    let addr = backend_address((Some(h), Some(port)));
    law_decimal_stands_for_its_number(port as nat);
    law_numbers_are_read(port as nat, 0, false);
    assert(Seq::<char>::empty() + repeated('0', 0) + digits =~= digits);
    assert(!digits.contains(':')) by {
        assert forall|i: int| 0 <= i < digits.len() implies digits[i] != ':' by {
            assert(is_digit(digits[i]));
        }
    }
    law_last_is_found(h, ':', digits);
    assert(addr =~= h.push(':') + digits);
    assert(addr.take(h.len() as int) =~= h);
    assert(addr.skip(h.len() + 1int) =~= digits);
}

/// A request is passed on exactly if the balancer picks a backend and both its own URI
/// and the URL of the backend can be read. It then goes to that backend, at the host and
/// the port that the URL names.
pub proof fn law_requests_go_to_the_picked_backend(
    m: ManagerView,
    begun: ManagerView,
    r: BeginningView,
    passage: Passage,
    host: Seq<char>,
    client: ClientIp,
    origin: Seq<char>,
    now: u64,
)
    requires
        begins(m, begun, r, passage, host, client, origin, now),
    ensures
        r is Connect <==> (picked(m, host, client, now) matches Some(at) && uri_parts(
            m.balancers[at.0].backends[at.1].url,
        ) is Some && uri_parts(origin) is Some),
        r matches BeginningView::Connect(x, addr) ==> {
            &&& picked(m, host, client, now) == Some((x.balancer, x.backend))
            &&& x.url == m.balancers[x.balancer].backends[x.backend].url
            &&& x.passage == passage
            &&& x.host == host
            &&& uri_parts(x.url) matches Some(parts) && (parts.0 matches Some(h) ==> h
                == addr.take(h.len() as int) && addr[h.len() as int] == ':' && digits_value(
                addr.skip(h.len() + 1int),
            ) == match parts.1 {
                Some(port) => port,
                None => 80,
            })
        },
        r matches BeginningView::Refused(reply) ==> reply == passage_error(passage),
{
    if let BeginningView::Connect(x, addr) = r {
        if let Some((Some(h), port)) = uri_parts(x.url) {
            let p: u16 = match port {
                Some(p) => p,
                None => 80,
            };
            law_address_is_host_and_port(Some(h), h, p, p);
            reveal_strlit(":");
            assert(addr == backend_address((Some(h), Some(p))));
        }
    }
}

/// An upgrade that is not passed on, is not answered, or is answered with anything but
/// 101, is told so.
pub proof fn law_failed_upgrades_are_told(
    domains: Seq<(Seq<char>, DomainConfig)>,
    x: ExchangeView,
    answer: Option<AnswerView>,
)
    requires
        x.passage == Passage::WebSocket,
    ensures
        passage_error(Passage::WebSocket) == plain_error(502, "WebSocket proxy error"@),
        !(answer matches Some(a) && a.status == 101) ==> ended(domains, x, answer)
            == EndingView::Failed(plain_error(502, "WebSocket proxy error"@)),
{
}

/// A request that no limit, no screening and no block stands against is served.
pub proof fn law_unobjectionable_requests_are_served(
    limiter: LimiterView,
    security: SecurityView,
    domains: Seq<(Seq<char>, DomainConfig)>,
    head: HeadView,
    lower: Seq<char>,
    client: ClientIp,
    is_tls: bool,
    now: nat,
)
    requires
        limiter.allows(client, now),
        verdict(security.flags, lower, text_field(head.headers, "user-agent"@)) is None,
        !security.blocks(client),
    ensures
        decided(limiter, security, domains, head, lower, client, is_tls, now) == routed(
            domains,
            head,
            is_tls,
        ),
        decided(limiter, security, domains, head, lower, client, is_tls, now) !is Answer,
{
}

/// An upgrade that is not redirected is passed on, whether or not the domain has static
/// files. Any other request for a domain without static files is forwarded. Both go to
/// the domain that the request names.
pub proof fn law_requests_are_passed_on(
    domains: Seq<(Seq<char>, DomainConfig)>,
    head: HeadView,
    is_tls: bool,
)
    requires
        is_tls || !wants_https(domains, host_in(head.headers)),
    ensures
        asks_for_websocket(head.headers) ==> routed(domains, head, is_tls)
            == ActionView::WebSocket(host_in(head.headers)),
        !asks_for_websocket(head.headers) && files_of(domains, host_in(head.headers)) is None
            ==> routed(domains, head, is_tls) == ActionView::Forward(host_in(head.headers)),
{
}

/// A request asks for a WebSocket exactly if its `Upgrade` field says so, in capital
/// letters or small ones.
pub proof fn law_upgrades_are_recognised_in_any_case(f: Map<Seq<char>, Seq<Seq<u8>>>)
    ensures
        asks_for_websocket(f) <==> (text_field(f, "upgrade"@) matches Some(u) && u.len() == 9 && (
        forall|i: int|
            0 <= i < 9 ==> #[trigger] u[i] == "websocket"@[i] || u[i] == "WEBSOCKET"@[i])),
{
    reveal_strlit("websocket");
    reveal_strlit("WEBSOCKET");
    if let Some(u) = text_field(f, "upgrade"@) {
        let w = "websocket"@;
        if asks_for_websocket(f) {
            assert(ascii_lower(u).len() == ascii_lower(w).len());
            assert forall|i: int| 0 <= i < 9 implies #[trigger] u[i] == w[i] || u[i]
                == "WEBSOCKET"@[i] by {
                assert(ascii_lower(u)[i] == ascii_lower(w)[i]);
            }
        }
        if u.len() == 9 && (forall|i: int|
            0 <= i < 9 ==> #[trigger] u[i] == w[i] || u[i] == "WEBSOCKET"@[i]) {
            assert(ascii_lower(u) =~= ascii_lower(w)) by {
                assert forall|i: int| 0 <= i < 9 implies ascii_lower(u)[i] == ascii_lower(w)[i] by {
                    assert(u[i] == w[i] || u[i] == "WEBSOCKET"@[i]);
                }
            }
        }
    }
}

/// The domain of a request is what its `Host` field names before the port, if it has
/// one, and nothing where there is no such field.
pub proof fn law_host_is_read_without_port(
    f: Map<Seq<char>, Seq<Seq<u8>>>,
    name: Seq<char>,
    port: Seq<char>,
)
    requires
        !name.contains(':'),
    ensures
        text_field(f, "host"@) == Some(name) ==> host_in(f) == ascii_lower(name),
        text_field(f, "host"@) == Some(name.push(':') + port) ==> host_in(f) == ascii_lower(name),
        text_field(f, "host"@) is None ==> host_in(f).len() == 0,
{
    law_cut_at_the_first(name, ':', port);
}

/// A request is sent on for the path and the query that it came with, `/` if it came
/// with none.
pub proof fn law_path_and_query_are_kept(head: HeadView)
    ensures
        head.path_and_query matches Some(p) ==> origin(head) == p,
        head.path_and_query is None ==> origin(head) == seq!['/'],
{
    reveal_strlit("/");
    assert("/"@ =~= seq!['/']);
}

/// A redirect has the status 301, names the location, and has nothing else.
pub proof fn law_redirects_name_the_location(location: Seq<char>)
    ensures
        moved(location).status == 301,
        moved(location).headers.dom() == set!["location"@],
        moved(location).headers["location"@] == seq![encode_utf8(location)],
        moved(location).body.len() == 0,
{
    assert(moved(location).headers.dom() =~= set!["location"@]);
}

/// A domain is served as its own entry says: whether it redirects, which files it has,
/// and which headers its replies get. An unknown domain has none of these.
pub proof fn law_domains_are_served_by_their_configuration(
    table: Seq<(Seq<char>, DomainConfig)>,
    name: Seq<char>,
    i: int,
    k: int,
)
    requires
        distinct_lower_names(table),
    ensures
        is_entry(table, name, i) ==> {
            let cfg = table[i].1;
            &&& wants_https(table, name) == cfg.redirect_to_https
            &&& extras_of(table, name) == cfg.headers@
            &&& match (files_of(table, name), cfg.static_files) {
                (Some(files), Some(sf)) => {
                    &&& files.root == sf.root@
                    &&& files.autoindex == sf.autoindex
                    &&& files.index.len() == sf.index@.len()
                    &&& 0 <= k < files.index.len() ==> files.index[k] == sf.index@[k]@
                },
                (None, None) => true,
                _ => false,
            }
        },
        !has_domain(table, name) ==> {
            &&& !wants_https(table, name)
            &&& files_of(table, name) is None
            &&& extras_of(table, name).len() == 0
        },
        has_domain(table, name) <==> exists|j: int|
            0 <= j < table.len() && (#[trigger] table[j]).0 == ascii_lower(name),
{
    if is_entry(table, name, i) {
        assert(has_domain(table, name));
        let j = choose|j: int| is_entry(table, name, j);
        assert(is_entry(table, name, j));
        if i < j {
            assert(table[i].0 != table[j].0);
        } else if j < i {
            assert(table[j].0 != table[i].0);
        }
    }
    if has_domain(table, name) {
        let j = choose|j: int| is_entry(table, name, j);
        assert(is_entry(table, name, j));
        assert(table[j].0 == ascii_lower(name));
    }
    if exists|j: int| 0 <= j < table.len() && (#[trigger] table[j]).0 == ascii_lower(name) {
        let j = choose|j: int| 0 <= j < table.len() && (#[trigger] table[j]).0 == ascii_lower(name);
        assert(is_entry(table, name, j));
    }
}

/// Each request that ends without an answer counts as one failure of its backend, at the
/// time at which it ended, and no other backend is blamed.
pub proof fn law_unanswered_requests_count(
    lb: LoadBalancerView,
    x: ExchangeView,
    now: u64,
    k: int,
)
    requires
        first_with_url_at(lb.backends, x.url, x.backend),
        lb.backends[x.backend].failures < usize::MAX,
        0 <= k < lb.backends.len(),
    ensures
        ended_balancer(lb, x, false, now).backends[x.backend].failures
            == lb.backends[x.backend].failures + 1,
        ended_balancer(lb, x, false, now).backends[x.backend].last_failure == now,
        k != x.backend ==> ended_balancer(lb, x, false, now).backends[k] == lb.backends[k],
        ended_balancer(lb, x, false, now).backends.len() == lb.backends.len(),
{
    lemma_first_with_url(lb.backends, x.url, x.backend);
}

/// The backend of a request is the one that the balancer of its domain chooses for its
/// own client, and the request is counted there and in no other balancer.
pub proof fn law_backends_are_chosen_for_the_client(
    m: ManagerView,
    begun: ManagerView,
    r: BeginningView,
    passage: Passage,
    host: Seq<char>,
    client: ClientIp,
    origin: Seq<char>,
    now: u64,
    k: int,
)
    requires
        begins(m, begun, r, passage, host, client, origin, now),
        m.wf(),
        0 <= k < m.balancers.len(),
    ensures
        begun.index == m.index,
        begun.balancers.len() == m.balancers.len(),
        m.balancer_of(host) != Some(k) ==> begun.balancers[k] == m.balancers[k],
        m.balancer_of(host) is None ==> r is Refused,
        m.balancer_of(host) == Some(k) ==> match r {
            BeginningView::Connect(x, _) => x.balancer == k && m.balancers[k].choice(
                now,
                Some(client),
            ) == Some(x.backend) && begun.balancers[k] == m.balancers[k].selected(
                now,
                Some(client),
            ),
            BeginningView::Refused(_) => match m.balancers[k].choice(now, Some(client)) {
                Some(i) => begun.balancers[k] == m.balancers[k].selected(
                    now,
                    Some(client),
                ).released(i),
                None => begun.balancers[k] == m.balancers[k].selected(now, Some(client)),
            },
        },
{
}

/// A refusal is an error page of 403 that shows the reason, and there is one exactly if
/// there is a reason.
pub proof fn law_refusals_show_the_reason(r: Option<Reply>, reason: Option<Seq<char>>)
    ensures
        forbids(r, reason) ==> (r is Some <==> reason is Some),
        forbids(r, reason) && reason is Some ==> r->0@.status == 403 && occurs(
            decode_utf8(r->0@.body),
            "<p>"@ + reason->0 + "</p>"@,
        ),
{
    if let Some(text) = reason {
        law_error_pages_show_their_text(403, "Forbidden"@, text);
    }
}

/// What is taken from a reply, an answer or the parts of a URI is all of it.
pub proof fn law_nothing_is_lost_on_the_way(
    reply: Option<Reply>,
    answer: Option<Answer>,
    parts: Option<UriParts>,
    text: Option<String>,
)
    ensures
        match reply {
            Some(r) => reply_view(reply) == Some(
                ReplyView { status: r.status, headers: fields(r.headers), body: r.body@ },
            ),
            None => reply_view(reply) is None,
        },
        match answer {
            Some(a) => answer_view(answer) == Some(
                AnswerView { status: a.status, headers: fields(a.headers) },
            ),
            None => answer_view(answer) is None,
        },
        match parts {
            Some(p) => parts_in(parts) == Some((chars_in(p.host), p.port)),
            None => parts_in(parts) is None,
        },
        match text {
            Some(t) => chars_in(text) == Some(t@),
            None => chars_in(text) is None,
        },
{
}

}
