//! Core request handler.
//!
//! For each request it
//!   1. runs security checks (rate limit, WAF, blocked clients)
//!   2. checks if the domain redirects HTTP to HTTPS
//!   3. passes WebSocket upgrades on
//!   4. tries static files, if the domain has any
//!   5. forwards to a backend that the load balancer picks
//!   6. puts the configured extra headers on the reply
//!
//! The handler decides; connections are left to the caller, who tells it how they
//! went.
use crate::client::ClientIp;
use crate::clock::{told_since, told_since_epoch, unix_now};
use crate::config::{
    domain_config, has_domain, lemma_domain_config, DomainConfig, DomainTable, ExtraHeader,
};
use crate::error::{error_response, html_error, page_error, plain_error};
use crate::headers::{
    field_text, fields, has_room, is_value, lemma_written_names, room_for, set_field, text_field,
    to_name, valid_name, valid_value,
};
use crate::load_balancer::{
    BalancerHandle, ConnectionGuard, LoadBalancerManager, LoadBalancerView, ManagerView,
};
use crate::rate_limit::{LimiterView, RateLimiter};
use crate::reply::{Reply, ReplyView};
use crate::request::{
    asks_for_websocket, chars_in, host_in, is_websocket_upgrade, HeadView, RequestHead,
};
use crate::security::{target, text_of, verdict, SecurityChecker, SecurityView};
use crate::static_files::{StaticFileServer, StaticView};
use crate::text::{ascii_lower, decimal, decimal_text, lowercase, same_text};
use hyper::HeaderMap;
use vstd::prelude::*;
use vstd::string::*;
use vstd::utf8::*;

verus! {

/// What to do for a request.
#[derive(Debug)]
pub enum Action {
    /// Send this reply.
    Answer(Reply),
    /// Redirect to this location: see [`redirect_reply`].
    Redirect(String),
    /// Pass a WebSocket upgrade on to a backend of this domain.
    WebSocket(String),
    /// Try the static files of this domain: see [`ProxyHandler::after_static`].
    Static(String),
    /// Forward to a backend of this domain.
    Forward(String),
}

/// What to do for a request.
#[verifier::ext_equal]
pub enum ActionView {
    Answer(ReplyView),
    Redirect(Seq<char>),
    WebSocket(Seq<char>),
    Static(Seq<char>),
    Forward(Seq<char>),
}

impl Action {
    /// What to do.
    pub open spec fn view(&self) -> ActionView {
        match self {
            Action::Answer(r) => ActionView::Answer(r@),
            Action::Redirect(location) => ActionView::Redirect(location@),
            Action::WebSocket(host) => ActionView::WebSocket(host@),
            Action::Static(host) => ActionView::Static(host@),
            Action::Forward(host) => ActionView::Forward(host@),
        }
    }
}

/// Why a request is forbidden, if it is: what it holds, or else that its client is
/// blocked.
pub open spec fn objection(
    security: SecurityView,
    lower: Seq<char>,
    user_agent: Option<Seq<char>>,
    client: ClientIp,
) -> Option<Seq<char>> {
    match verdict(security.flags, lower, user_agent) {
        Some(reason) => Some(reason),
        None => if security.blocks(client) {
            Some("blocked"@)
        } else {
            None
        },
    }
}

/// The reply to a request that is refused, if it is. `lower` is what of it is
/// searched for patterns, in lower case.
pub open spec fn refused(
    limiter: LimiterView,
    security: SecurityView,
    head: HeadView,
    lower: Seq<char>,
    client: ClientIp,
    now: nat,
) -> Option<ReplyView> {
    if !limiter.allows(client, now) {
        Some(plain_error(429, "Too Many Requests"@))
    } else {
        match objection(
            security,
            lower,
            text_field(head.headers, "user-agent"@),
            client,
        ) {
            Some(reason) => Some(page_error(403, "Forbidden"@, reason)),
            None => None,
        }
    }
}

/// Whether a domain redirects HTTP to HTTPS.
pub open spec fn wants_https(domains: Seq<(Seq<char>, DomainConfig)>, host: Seq<char>) -> bool {
    has_domain(domains, host) && domain_config(domains, host).redirect_to_https
}

/// The static files of a domain.
pub open spec fn files_of(domains: Seq<(Seq<char>, DomainConfig)>, host: Seq<char>) -> Option<
    StaticView,
> {
    if has_domain(domains, host) {
        files_in(domain_config(domains, host))
    } else {
        None
    }
}

/// The static files of a configuration.
pub open spec fn files_in(cfg: DomainConfig) -> Option<StaticView> {
    match cfg.static_files {
        Some(sf) => Some(
            StaticView {
                root: sf.root@,
                index: Seq::new(sf.index@.len(), |i: int| sf.index@[i]@),
                autoindex: sf.autoindex,
            },
        ),
        None => None,
    }
}

/// The path and the query of a request, `/` if it has none.
pub open spec fn origin(head: HeadView) -> Seq<char> {
    match head.path_and_query {
        Some(p) => p,
        None => "/"@,
    }
}

/// What to do for a request that is not refused.
pub open spec fn routed(
    domains: Seq<(Seq<char>, DomainConfig)>,
    head: HeadView,
    is_tls: bool,
) -> ActionView {
    let host = host_in(head.headers);
    if !is_tls && wants_https(domains, host) {
        ActionView::Redirect("https://"@ + host + origin(head))
    } else if asks_for_websocket(head.headers) {
        ActionView::WebSocket(host)
    } else if files_of(domains, host) is Some {
        ActionView::Static(host)
    } else {
        ActionView::Forward(host)
    }
}

/// What to do for a request.
pub open spec fn decided(
    limiter: LimiterView,
    security: SecurityView,
    domains: Seq<(Seq<char>, DomainConfig)>,
    head: HeadView,
    lower: Seq<char>,
    client: ClientIp,
    is_tls: bool,
    now: nat,
) -> ActionView {
    match refused(limiter, security, head, lower, client, now) {
        Some(reply) => ActionView::Answer(reply),
        None => routed(domains, head, is_tls),
    }
}

/// Which way a request is passed on.
#[derive(Debug, Clone, Copy, PartialEq, Eq, Structural)]
pub enum Passage {
    /// As a request with a reply
    Http,
    /// As an upgrade to a WebSocket
    WebSocket,
}

/// The reply when a request could not be passed on.
pub open spec fn passage_error(passage: Passage) -> ReplyView {
    match passage {
        Passage::Http => page_error(
            502,
            "Bad Gateway"@,
            "The upstream server is unreachable."@,
        ),
        Passage::WebSocket => plain_error(502, "WebSocket proxy error"@),
    }
}

/// The reply when a request could not be passed on.
pub fn passage_failed(passage: Passage) -> (r: Reply)
    ensures
        r@ == passage_error(passage),
{
    match passage {
        Passage::Http => html_error(502, "Bad Gateway", "The upstream server is unreachable."),
        Passage::WebSocket => error_response(502, "WebSocket proxy error"),
    }
}

/// The host and the port of a URI as `hyper` reads it, nothing if it is none.
pub uninterp spec fn uri_parts(url: Seq<char>) -> Option<(Option<Seq<char>>, Option<u16>)>;

/// The host and the port of a URI.
#[derive(Debug)]
pub struct UriParts {
    pub host: Option<String>,
    pub port: Option<u16>,
}

/// The host and the port of a URI, if it is one.
pub open spec fn parts_in(parts: Option<UriParts>) -> Option<(Option<Seq<char>>, Option<u16>)> {
    match parts {
        Some(p) => Some((chars_in(p.host), p.port)),
        None => None,
    }
}

/// Reading a `hyper::Uri` and asking it for `host` and `port_u16` gives the host and
/// the port of a URI, named [`uri_parts`].
#[verifier::external_body]
fn read_uri(url: &str) -> (r: Option<UriParts>)
    ensures
        parts_in(r) == uri_parts(url@),
{
    let uri: hyper::Uri = url.parse().ok()?;
    Some(UriParts { host: uri.host().map(|h| h.to_string()), port: uri.port_u16() })
}

/// The address of a backend. The host is `localhost` and the port 80 where the URL
/// has none.
pub open spec fn backend_address(parts: (Option<Seq<char>>, Option<u16>)) -> Seq<char> {
    let host = match parts.0 {
        Some(h) => h,
        None => "localhost"@,
    };
    let port: u16 = match parts.1 {
        Some(p) => p,
        None => 80,
    };
    host + ":"@ + decimal(port as nat)
}

/// The address of a backend.
pub fn address_of(parts: &UriParts) -> (r: String)
    ensures
        r@ == backend_address((chars_in(parts.host), parts.port)),
{
    let mut r = match &parts.host {
        Some(h) => h.clone(),
        None => "localhost".to_string(),
    };
    let port: u16 = match parts.port {
        Some(p) => p,
        None => 80,
    };
    r.append(":");
    r.append(decimal_text(port as u64).as_str());
    r
}

/// A request that is being passed on to a backend. It is handed back with
/// [`ProxyHandler::finish`] or [`ProxyHandler::abandon`].
#[derive(Debug)]
pub struct Exchange {
    passage: Passage,
    host: String,
    balancer: BalancerHandle,
    guard: ConnectionGuard,
    url: String,
}

/// A request that is being passed on to a backend.
#[verifier::ext_equal]
pub struct ExchangeView {
    /// Which way it is passed on
    pub passage: Passage,
    /// The domain that it is for
    pub host: Seq<char>,
    /// The balancer that has picked the backend
    pub balancer: int,
    /// The backend's number
    pub backend: int,
    /// The backend's URL
    pub url: Seq<char>,
}

impl Exchange {
    /// The request.
    pub closed spec fn view(&self) -> ExchangeView {
        ExchangeView {
            passage: self.passage,
            host: self.host@,
            balancer: self.balancer@,
            backend: self.guard@,
            url: self.url@,
        }
    }
}

/// How passing a request on begins.
#[derive(Debug)]
pub enum Beginning {
    /// There is no backend for it: send this reply.
    Refused(Reply),
    /// Connect to this address and send it.
    Connect(Exchange, String),
}

/// How passing a request on to a domain begins.
#[verifier::ext_equal]
pub enum BeginningView {
    Refused(ReplyView),
    Connect(ExchangeView, Seq<char>),
}

impl Beginning {
    /// How it begins.
    pub open spec fn view(&self) -> BeginningView {
        match self {
            Beginning::Refused(r) => BeginningView::Refused(r@),
            Beginning::Connect(x, addr) => BeginningView::Connect(x@, addr@),
        }
    }
}

/// The backend that is picked for a request to a domain: the number of the
/// balancer and that of the backend.
pub open spec fn picked(
    m: ManagerView,
    host: Seq<char>,
    client: ClientIp,
    now: u64,
) -> Option<(int, int)> {
    match m.balancer_of(host) {
        Some(b) => match m.balancers[b].choice(now, Some(client)) {
            Some(i) => Some((b, i)),
            None => None,
        },
        None => None,
    }
}

/// The URL of a backend.
pub open spec fn url_at(m: ManagerView, at: (int, int)) -> Seq<char> {
    m.balancers[at.0].backends[at.1].url
}

/// How passing a request on begins, where `parts` is what the URL of the backend that
/// is picked reads as, nothing if that or the request's own URI cannot be read.
pub open spec fn begun(
    m: ManagerView,
    passage: Passage,
    host: Seq<char>,
    client: ClientIp,
    now: u64,
    parts: Option<(Option<Seq<char>>, Option<u16>)>,
) -> BeginningView {
    match (picked(m, host, client, now), parts) {
        (Some(at), Some(p)) => BeginningView::Connect(
            ExchangeView { passage, host, balancer: at.0, backend: at.1, url: url_at(m, at) },
            backend_address(p),
        ),
        _ => BeginningView::Refused(passage_error(passage)),
    }
}

/// The balancers once passing a request on has begun. A request that cannot be sent to
/// the backend that is picked is given back at once.
pub open spec fn begun_balancers(
    m: ManagerView,
    host: Seq<char>,
    client: ClientIp,
    now: u64,
    parts: Option<(Option<Seq<char>>, Option<u16>)>,
) -> ManagerView {
    match m.balancer_of(host) {
        Some(b) => {
            let lb = m.balancers[b];
            let after = lb.selected(now, Some(client));
            match (lb.choice(now, Some(client)), parts) {
                (Some(i), None) => m.with_balancer(b, after.released(i)),
                _ => m.with_balancer(b, after),
            }
        },
        None => m,
    }
}

/// How passing a request on ends.
#[derive(Debug)]
pub enum Ending {
    /// Send the reply of the backend under this head.
    Relay(Answer),
    /// Send this reply, and connect the two ends.
    Tunnel(Reply),
    /// Send this reply.
    Failed(Reply),
}

/// How passing a request on ends.
#[verifier::ext_equal]
pub enum EndingView {
    Relay(AnswerView),
    Tunnel(ReplyView),
    Failed(ReplyView),
}

impl Ending {
    /// How it ends.
    pub open spec fn view(&self) -> EndingView {
        match self {
            Ending::Relay(a) => EndingView::Relay(a@),
            Ending::Tunnel(r) => EndingView::Tunnel(r@),
            Ending::Failed(r) => EndingView::Failed(r@),
        }
    }
}

/// The head of a backend's answer.
#[derive(Debug)]
pub struct Answer {
    /// The status code
    pub status: u16,
    /// The header fields
    pub headers: HeaderMap,
}

/// The head of a backend's answer.
#[verifier::ext_equal]
pub struct AnswerView {
    pub status: u16,
    pub headers: Map<Seq<char>, Seq<Seq<u8>>>,
}

impl Answer {
    /// The head of the answer.
    pub open spec fn view(&self) -> AnswerView {
        AnswerView { status: self.status, headers: fields(self.headers) }
    }
}

/// The head of a backend's answer, if there is one.
pub open spec fn answer_view(answer: Option<Answer>) -> Option<AnswerView> {
    match answer {
        Some(a) => Some(a@),
        None => None,
    }
}

/// The reply that opens a WebSocket: 101, with the header fields of the backend's
/// answer.
pub open spec fn switched(headers: Map<Seq<char>, Seq<Seq<u8>>>) -> ReplyView {
    ReplyView { status: 101, headers, body: Seq::empty() }
}

/// How passing a request on ends when the backend has given an answer, or none. An
/// answer is relayed with the extra headers of the domain. Only one of 101 opens a
/// WebSocket.
pub open spec fn ended(
    domains: Seq<(Seq<char>, DomainConfig)>,
    x: ExchangeView,
    answer: Option<AnswerView>,
) -> EndingView {
    match (x.passage, answer) {
        (Passage::Http, Some(a)) => EndingView::Relay(
            AnswerView { status: a.status, headers: dressed(domains, x.host, a.headers) },
        ),
        (Passage::WebSocket, Some(a)) => if a.status == 101 {
            EndingView::Tunnel(switched(a.headers))
        } else {
            EndingView::Failed(passage_error(x.passage))
        },
        (_, None) => EndingView::Failed(passage_error(x.passage)),
    }
}

/// Whether an answer can take the extra headers that it is relayed with.
pub open spec fn relayable(
    domains: Seq<(Seq<char>, DomainConfig)>,
    x: ExchangeView,
    answer: Option<AnswerView>,
) -> bool {
    match (x.passage, answer) {
        (Passage::Http, Some(a)) => extras_fit(domains, x.host, a.headers),
        _ => true,
    }
}

/// What to do once the static files of a domain were searched.
#[derive(Debug)]
pub enum AfterStatic {
    /// Send this reply. No backend is asked.
    Answer(Reply),
    /// Forward to a backend of this domain.
    Forward(String),
}

/// What to do once the static files of a domain were searched.
#[verifier::ext_equal]
pub enum AfterStaticView {
    Answer(ReplyView),
    Forward(Seq<char>),
}

impl AfterStatic {
    /// What to do.
    pub open spec fn view(&self) -> AfterStaticView {
        match self {
            AfterStatic::Answer(r) => AfterStaticView::Answer(r@),
            AfterStatic::Forward(host) => AfterStaticView::Forward(host@),
        }
    }
}

/// What was found, if anything was.
pub open spec fn reply_view(found: Option<Reply>) -> Option<ReplyView> {
    match found {
        Some(reply) => Some(reply@),
        None => None,
    }
}

/// What to do once the search for a static file of a domain has found a reply, or
/// none. A reply is sent with the extra headers of the domain.
pub open spec fn after_search(
    domains: Seq<(Seq<char>, DomainConfig)>,
    host: Seq<char>,
    found: Option<ReplyView>,
) -> AfterStaticView {
    match found {
        Some(reply) => AfterStaticView::Answer(
            ReplyView { headers: dressed(domains, host, reply.headers), ..reply },
        ),
        None => AfterStaticView::Forward(host),
    }
}

/// The balancer once passing a request on has ended at `now`. An answer to a request,
/// though not to an upgrade, is a success of the backend; no answer is a failure.
pub open spec fn ended_balancer(
    lb: LoadBalancerView,
    x: ExchangeView,
    answered: bool,
    now: u64,
) -> LoadBalancerView {
    let noted = if !answered {
        lb.failed(x.url, now)
    } else if x.passage == Passage::Http {
        lb.succeeded(x.url)
    } else {
        lb
    };
    noted.released(x.backend)
}

/// The state of the server, and what it decides about requests.
pub struct ProxyHandler {
    /// The backends of the domains
    pub lb_manager: LoadBalancerManager,
    /// How often clients may make requests
    pub rate_limiter: RateLimiter,
    /// What is known of the clients
    pub security: SecurityChecker,
    /// Seconds to wait for a backend
    pub timeout_secs: u64,
    /// The domains
    pub domain_configs: DomainTable,
    /// The static files of each domain
    pub static_servers: Vec<Option<StaticFileServer>>,
}

impl ProxyHandler {
    /// All parts are as they should be, and each domain has the server that its
    /// static files need.
    pub open spec fn wf(&self) -> bool {
        &&& self.lb_manager@.wf()
        &&& self.rate_limiter@.wf()
        &&& self.security@.wf()
        &&& self.domain_configs.wf()
        &&& self.static_servers@.len() == self.domain_configs@.len()
        &&& forall|i: int|
            0 <= i < self.static_servers@.len() ==> server_view(#[trigger] self.static_servers@[i])
                == files_in(self.domain_configs@[i].1)
    }

    /// A handler for the domains.
    pub fn new(
        lb_manager: LoadBalancerManager,
        rate_limiter: RateLimiter,
        security: SecurityChecker,
        timeout_secs: u64,
        domain_configs: DomainTable,
    ) -> (r: Self)
        requires
            lb_manager@.wf(),
            rate_limiter@.wf(),
            security@.wf(),
            domain_configs.wf(),
        ensures
            r.wf(),
            r.lb_manager == lb_manager,
            r.rate_limiter == rate_limiter,
            r.security == security,
            r.timeout_secs == timeout_secs,
            r.domain_configs == domain_configs,
    {
        let mut static_servers: Vec<Option<StaticFileServer>> = Vec::new();
        let mut i: usize = 0;
        while i < domain_configs.len()
            invariant
                0 <= i <= domain_configs@.len(),
                static_servers@.len() == i,
                forall|j: int|
                    0 <= j < i ==> server_view(#[trigger] static_servers@[j]) == files_in(
                        domain_configs@[j].1,
                    ),
            decreases domain_configs@.len() - i,
        {
            static_servers.push(file_server(domain_configs.config(i)));
            i += 1;
        }
        ProxyHandler {
            lb_manager,
            rate_limiter,
            security,
            timeout_secs,
            domain_configs,
            static_servers,
        }
    }

    /// The server of the static files of a domain.
    pub fn static_server(&self, host: &str) -> (r: Option<&StaticFileServer>)
        requires
            self.wf(),
        ensures
            r is Some <==> files_of(self.domain_configs@, host@) is Some,
            r matches Some(s) ==> files_of(self.domain_configs@, host@) == Some(s@),
    {
        match self.domain_configs.find(host) {
            Some(i) => {
                proof {
                    lemma_domain_config(&self.domain_configs, host@, i as int);
                    assert(server_view(self.static_servers@[i as int]) == files_in(
                        self.domain_configs@[i as int].1,
                    ));
                }
                self.static_servers[i].as_ref()
            },
            None => None,
        }
    }

    /// What to do for a request. The request is counted.
    pub fn handle(&mut self, client: ClientIp, head: &RequestHead, is_tls: bool) -> (r: Action)
        requires
            old(self).wf(),
        ensures
            final(self).wf(),
            final(self).lb_manager == old(self).lb_manager,
            final(self).security == old(self).security,
            final(self).timeout_secs == old(self).timeout_secs,
            final(self).domain_configs == old(self).domain_configs,
            final(self).static_servers == old(self).static_servers,
            final(self).rate_limiter.started() == old(self).rate_limiter.started(),
            exists|now: u128|
                {
                    &&& told_since(old(self).rate_limiter.started(), now)
                    &&& final(self).rate_limiter@ == #[trigger] old(self).rate_limiter@.counted(
                        client,
                        now as nat,
                    )
                    &&& r@ == decided(
                        old(self).rate_limiter@,
                        old(self).security@,
                        old(self).domain_configs@,
                        head@,
                        lowercase(target(head@.path, head@.query)),
                        client,
                        is_tls,
                        now as nat,
                    )
                },
    {
        let allowed = self.rate_limiter.is_allowed(client);
        match self.refusal(allowed, client, head) {
            Some(reply) => Action::Answer(reply),
            None => self.route(head, is_tls),
        }
    }

    /// What to do for a request at `now`, in nanoseconds since some start. The
    /// request is counted.
    pub fn handle_at(&mut self, client: ClientIp, head: &RequestHead, is_tls: bool, now: u128)
        -> (r: Action)
        requires
            old(self).wf(),
        ensures
            final(self).wf(),
            final(self).lb_manager == old(self).lb_manager,
            final(self).security == old(self).security,
            final(self).timeout_secs == old(self).timeout_secs,
            final(self).domain_configs == old(self).domain_configs,
            final(self).static_servers == old(self).static_servers,
            final(self).rate_limiter.started() == old(self).rate_limiter.started(),
            final(self).rate_limiter@ == old(self).rate_limiter@.counted(client, now as nat),
            r@ == decided(
                old(self).rate_limiter@,
                old(self).security@,
                old(self).domain_configs@,
                head@,
                lowercase(target(head@.path, head@.query)),
                client,
                is_tls,
                now as nat,
            ),
            is_ascii_chars(target(head@.path, head@.query)) ==> r@ == decided(
                old(self).rate_limiter@,
                old(self).security@,
                old(self).domain_configs@,
                head@,
                ascii_lower(target(head@.path, head@.query)),
                client,
                is_tls,
                now as nat,
            ),
    {
        let allowed = self.rate_limiter.is_allowed_at(client, now);
        match self.refusal(allowed, client, head) {
            Some(reply) => Action::Answer(reply),
            None => self.route(head, is_tls),
        }
    }

    /// The reply to a request that is refused, if it is, when the rate limit has
    /// allowed it or not.
    pub fn refusal(&self, allowed: bool, client: ClientIp, head: &RequestHead) -> (r: Option<Reply>)
        ensures
            !allowed ==> (r matches Some(reply) && reply@ == plain_error(
                429,
                "Too Many Requests"@,
            )),
            allowed ==> forbids(
                r,
                objection(
                    self.security@,
                    lowercase(target(head@.path, head@.query)),
                    text_field(head@.headers, "user-agent"@),
                    client,
                ),
            ),
            allowed && is_ascii_chars(target(head@.path, head@.query)) ==> forbids(
                r,
                objection(
                    self.security@,
                    ascii_lower(target(head@.path, head@.query)),
                    text_field(head@.headers, "user-agent"@),
                    client,
                ),
            ),
    {
        if !allowed {
            return Some(error_response(429, "Too Many Requests"));
        }
        proof {
            crate::headers::lemma_read_names();
        }
        let agent = field_text(&head.headers, "user-agent");
        let agent_text: Option<&str> = match &agent {
            Some(a) => Some(a.as_str()),
            None => None,
        };
        let query_text: Option<&str> = match &head.query {
            Some(q) => Some(q.as_str()),
            None => None,
        };
        assert(text_of(query_text) == head@.query);
        assert(text_of(agent_text) == text_field(head@.headers, "user-agent"@));
        match self.security.check_request(head.path.as_str(), query_text, agent_text) {
            Err(reason) => Some(html_error(403, "Forbidden", reason)),
            Ok(_) => if self.security.is_blocked(client) {
                Some(html_error(403, "Forbidden", "blocked"))
            } else {
                None
            },
        }
    }

    /// What to do for a request that is not refused.
    pub fn route(&self, head: &RequestHead, is_tls: bool) -> (r: Action)
        requires
            self.wf(),
        ensures
            r@ == routed(self.domain_configs@, head@, is_tls),
    {
        let host = head.host();
        if !is_tls {
            if let Some(cfg) = self.domain_configs.get(host.as_str()) {
                if cfg.redirect_to_https {
                    let mut location = "https://".to_string();
                    location.append(host.as_str());
                    location.append(origin_form(head).as_str());
                    return Action::Redirect(location);
                }
            }
        }
        if is_websocket_upgrade(&head.headers) {
            return Action::WebSocket(host);
        }
        if self.static_server(host.as_str()).is_some() {
            return Action::Static(host);
        }
        Action::Forward(host)
    }

    /// Begins to pass a request for `origin`, a path with a query, on to a backend of
    /// a domain.
    pub fn begin(&mut self, passage: Passage, host: &str, client: ClientIp, origin: &str) -> (r:
        Beginning)
        requires
            old(self).wf(),
        ensures
            final(self).wf(),
            final(self).rate_limiter == old(self).rate_limiter,
            final(self).security == old(self).security,
            final(self).timeout_secs == old(self).timeout_secs,
            final(self).domain_configs == old(self).domain_configs,
            final(self).static_servers == old(self).static_servers,
            exists|now: u64|
                told_since_epoch(now) && #[trigger] begins(
                    old(self).lb_manager@,
                    final(self).lb_manager@,
                    r@,
                    passage,
                    host@,
                    client,
                    origin@,
                    now,
                ),
    {
        let now = unix_now();
        self.begin_at(passage, host, client, origin, now)
    }

    /// Begins to pass a request for `origin` on to a backend of a domain at `now`.
    pub fn begin_at(
        &mut self,
        passage: Passage,
        host: &str,
        client: ClientIp,
        origin: &str,
        now: u64,
    ) -> (r: Beginning)
        requires
            old(self).wf(),
        ensures
            final(self).wf(),
            final(self).rate_limiter == old(self).rate_limiter,
            final(self).security == old(self).security,
            final(self).timeout_secs == old(self).timeout_secs,
            final(self).domain_configs == old(self).domain_configs,
            final(self).static_servers == old(self).static_servers,
            begins(
                old(self).lb_manager@,
                final(self).lb_manager@,
                r@,
                passage,
                host@,
                client,
                origin@,
                now,
            ),
    {
        let balancer = match self.lb_manager.get(host) {
            Some(h) => h,
            None => {
                return Beginning::Refused(passage_failed(passage));
            },
        };
        let ghost m = self.lb_manager@;
        let (url, guard) = match self.lb_manager.select_at(&balancer, now, Some(client)) {
            Some(p) => p,
            None => {
                return Beginning::Refused(passage_failed(passage));
            },
        };
        let parts = match read_uri(origin) {
            Some(_) => read_uri(url.as_str()),
            None => None,
        };
        let host = host.to_string();
        let r = self.set_out(Exchange { passage, host, balancer, guard, url }, parts);
        assert(self.lb_manager@.balancers =~= begun_balancers(
            m,
            host@,
            client,
            now,
            parts_in(parts),
        ).balancers);
        r
    }

    /// Sets out to a backend with a request, where `parts` is what the URL of the
    /// backend reads as. A request that cannot be sent is given back.
    pub fn set_out(&mut self, exchange: Exchange, parts: Option<UriParts>) -> (r: Beginning)
        requires
            old(self).wf(),
            0 <= exchange@.balancer < old(self).lb_manager@.balancers.len(),
        ensures
            final(self).wf(),
            final(self).rate_limiter == old(self).rate_limiter,
            final(self).security == old(self).security,
            final(self).timeout_secs == old(self).timeout_secs,
            final(self).domain_configs == old(self).domain_configs,
            final(self).static_servers == old(self).static_servers,
            parts is None ==> r@ == BeginningView::Refused(passage_error(exchange@.passage))
                && final(self).lb_manager@ == old(self).lb_manager@.with_balancer(
                exchange@.balancer,
                old(self).lb_manager@.balancers[exchange@.balancer].released(exchange@.backend),
            ),
            parts matches Some(p) ==> r@ == BeginningView::Connect(
                exchange@,
                backend_address((chars_in(p.host), p.port)),
            ) && final(self).lb_manager == old(self).lb_manager,
    {
        match parts {
            None => {
                let passage = exchange.passage;
                self.lb_manager.release(&exchange.balancer, exchange.guard);
                Beginning::Refused(passage_failed(passage))
            },
            Some(p) => {
                let addr = address_of(&p);
                Beginning::Connect(exchange, addr)
            },
        }
    }

    /// What to do once the search for a static file of a domain has found a reply, or
    /// none.
    pub fn after_static(&self, host: &str, found: Option<Reply>) -> (r: AfterStatic)
        requires
            self.wf(),
            found matches Some(reply) ==> extras_fit(
                self.domain_configs@,
                host@,
                reply@.headers,
            ),
        ensures
            r@ == after_search(self.domain_configs@, host@, reply_view(found)),
    {
        match found {
            Some(mut reply) => {
                self.inject_extra_headers(&mut reply.headers, host);
                AfterStatic::Answer(reply)
            },
            None => AfterStatic::Forward(host.to_string()),
        }
    }

    /// Ends passing a request on, when the backend has given an answer, or none.
    pub fn finish(&mut self, exchange: Exchange, answer: Option<Answer>) -> (r: Ending)
        requires
            old(self).wf(),
            0 <= exchange@.balancer < old(self).lb_manager@.balancers.len(),
            relayable(old(self).domain_configs@, exchange@, answer_view(answer)),
        ensures
            final(self).wf(),
            final(self).rate_limiter == old(self).rate_limiter,
            final(self).security == old(self).security,
            final(self).timeout_secs == old(self).timeout_secs,
            final(self).domain_configs == old(self).domain_configs,
            final(self).static_servers == old(self).static_servers,
            exists|now: u64|
                told_since_epoch(now) && final(self).lb_manager@ == old(self).lb_manager@.with_balancer(
                    exchange@.balancer,
                    #[trigger] ended_balancer(
                        old(self).lb_manager@.balancers[exchange@.balancer],
                        exchange@,
                        answer is Some,
                        now,
                    ),
                ),
            r@ == ended(old(self).domain_configs@, exchange@, answer_view(answer)),
    {
        let now = unix_now();
        self.finish_at(exchange, answer, now)
    }

    /// Ends passing a request on at `now`, when the backend has given an answer, or
    /// none.
    pub fn finish_at(&mut self, exchange: Exchange, answer: Option<Answer>, now: u64) -> (r: Ending)
        requires
            old(self).wf(),
            0 <= exchange@.balancer < old(self).lb_manager@.balancers.len(),
            relayable(old(self).domain_configs@, exchange@, answer_view(answer)),
        ensures
            final(self).wf(),
            final(self).rate_limiter == old(self).rate_limiter,
            final(self).security == old(self).security,
            final(self).timeout_secs == old(self).timeout_secs,
            final(self).domain_configs == old(self).domain_configs,
            final(self).static_servers == old(self).static_servers,
            final(self).lb_manager@ == old(self).lb_manager@.with_balancer(
                exchange@.balancer,
                ended_balancer(
                    old(self).lb_manager@.balancers[exchange@.balancer],
                    exchange@,
                    answer is Some,
                    now,
                ),
            ),
            r@ == ended(old(self).domain_configs@, exchange@, answer_view(answer)),
    {
        let ghost m = self.lb_manager@;
        let ghost x = exchange@;
        let ghost answered = answer is Some;
        let Exchange { passage, host, balancer, guard, url } = exchange;
        if answer.is_none() {
            self.lb_manager.failure_at(&balancer, url.as_str(), now);
        } else if passage == Passage::Http {
            self.lb_manager.success(&balancer, url.as_str());
        }
        self.lb_manager.release(&balancer, guard);
        assert(self.lb_manager@.balancers =~= m.with_balancer(
            x.balancer,
            ended_balancer(m.balancers[x.balancer], x, answered, now),
        ).balancers);
        match (passage, answer) {
            (Passage::Http, Some(mut a)) => {
                self.inject_extra_headers(&mut a.headers, host.as_str());
                Ending::Relay(a)
            },
            (Passage::WebSocket, Some(a)) => {
                if a.status == 101 {
                    let reply = Reply { status: 101, headers: a.headers, body: Vec::new() };
                    assert(reply@ =~= switched(fields(a.headers)));
                    Ending::Tunnel(reply)
                } else {
                    Ending::Failed(passage_failed(passage))
                }
            },
            (_, None) => Ending::Failed(passage_failed(passage)),
        }
    }

    /// Gives a request back that its client no longer waits for. Nothing is learnt of
    /// the backend.
    pub fn abandon(&mut self, exchange: Exchange)
        requires
            old(self).wf(),
            0 <= exchange@.balancer < old(self).lb_manager@.balancers.len(),
        ensures
            final(self).wf(),
            final(self).rate_limiter == old(self).rate_limiter,
            final(self).security == old(self).security,
            final(self).timeout_secs == old(self).timeout_secs,
            final(self).domain_configs == old(self).domain_configs,
            final(self).static_servers == old(self).static_servers,
            final(self).lb_manager@ == old(self).lb_manager@.with_balancer(
                exchange@.balancer,
                old(self).lb_manager@.balancers[exchange@.balancer].released(exchange@.backend),
            ),
    {
        self.lb_manager.release(&exchange.balancer, exchange.guard);
    }

    /// Whether the extra headers of a domain fit on a reply.
    pub fn room_for_extra_headers(&self, headers: &HeaderMap, host: &str) -> (r: bool)
        requires
            self.wf(),
        ensures
            r == extras_fit(self.domain_configs@, host@, fields(*headers)),
    {
        match self.domain_configs.get(host) {
            Some(cfg) => room_for(headers, cfg.headers.len()),
            None => room_for(headers, 0),
        }
    }

    /// Puts the extra headers of a domain on a reply.
    pub fn inject_extra_headers(&self, headers: &mut HeaderMap, host: &str)
        requires
            self.wf(),
            extras_fit(self.domain_configs@, host@, fields(*old(headers))),
        ensures
            fields(*final(headers)) == dressed(
                self.domain_configs@,
                host@,
                fields(*old(headers)),
            ),
    {
        if let Some(cfg) = self.domain_configs.get(host) {
            inject(headers, &cfg.headers);
        }
    }
}

/// The extra headers of a domain.
pub open spec fn extras_of(domains: Seq<(Seq<char>, DomainConfig)>, host: Seq<char>) -> Seq<
    ExtraHeader,
> {
    if has_domain(domains, host) {
        domain_config(domains, host).headers@
    } else {
        Seq::empty()
    }
}

/// Whether the extra headers of a domain fit on a reply with some fields.
pub open spec fn extras_fit(
    domains: Seq<(Seq<char>, DomainConfig)>,
    host: Seq<char>,
    f: Map<Seq<char>, Seq<Seq<u8>>>,
) -> bool {
    has_room(f, extras_of(domains, host).len())
}

/// Fields with the extra headers of a domain put over them.
pub open spec fn dressed(
    domains: Seq<(Seq<char>, DomainConfig)>,
    host: Seq<char>,
    f: Map<Seq<char>, Seq<Seq<u8>>>,
) -> Map<Seq<char>, Seq<Seq<u8>>> {
    injected(f, extras_of(domains, host), extras_of(domains, host).len())
}

/// Fields with the first `n` of some extra headers put over them. Those that are no
/// header fields are left out.
pub open spec fn injected(
    f: Map<Seq<char>, Seq<Seq<u8>>>,
    extras: Seq<ExtraHeader>,
    n: nat,
) -> Map<Seq<char>, Seq<Seq<u8>>>
    decreases n,
{
    if n == 0 {
        f
    } else {
        let rest = injected(f, extras, (n - 1) as nat);
        let h = extras[n - 1];
        if valid_name(h.name@) && valid_value(h.value@) {
            rest.insert(ascii_lower(h.name@), seq![encode_utf8(h.value@)])
        } else {
            rest
        }
    }
}

/// Puts extra headers over those that are there.
fn inject(headers: &mut HeaderMap, extras: &Vec<ExtraHeader>)
    requires
        has_room(fields(*old(headers)), extras@.len()),
    ensures
        fields(*final(headers)) == injected(fields(*old(headers)), extras@, extras@.len()),
{
    let mut i: usize = 0;
    let ghost f = fields(*headers);
    while i < extras.len()
        invariant
            0 <= i <= extras@.len(),
            fields(*headers) == injected(f, extras@, i as nat),
            has_room(fields(*headers), (extras@.len() - i) as nat),
        decreases extras@.len() - i,
    {
        let ghost before = fields(*headers);
        assert(has_room(before, ((extras@.len() - i - 1) as nat) + 1));
        if let Some(name) = to_name(extras[i].name.as_str()) {
            if is_value(extras[i].value.as_str()) {
                set_field(headers, name.as_str(), extras[i].value.as_str());
            }
        }
        assert(has_room(fields(*headers), (extras@.len() - i - 1) as nat));
        i += 1;
    }
}

/// Whether a reply is the error page for an objection, or there is none where there is
/// no objection.
pub open spec fn forbids(r: Option<Reply>, reason: Option<Seq<char>>) -> bool {
    match reason {
        Some(reason) => r matches Some(reply) && reply@ == page_error(
            403,
            "Forbidden"@,
            reason,
        ),
        None => r is None,
    }
}

/// Whether passing a request for `origin` on begins at `now` with the result `r`, and
/// leads from the balancers `m` to the balancers `after`.
pub open spec fn begins(
    m: ManagerView,
    after: ManagerView,
    r: BeginningView,
    passage: Passage,
    host: Seq<char>,
    client: ClientIp,
    origin: Seq<char>,
    now: u64,
) -> bool {
    let parts = match (picked(m, host, client, now), uri_parts(origin)) {
        (Some(at), Some(_)) => uri_parts(url_at(m, at)),
        _ => None,
    };
    &&& r == begun(m, passage, host, client, now, parts)
    &&& after == begun_balancers(m, host, client, now, parts)
    &&& r matches BeginningView::Connect(x, _) ==> 0 <= x.balancer < after.balancers.len()
}

/// What stands for a server that may be missing.
pub open spec fn server_view(s: Option<StaticFileServer>) -> Option<StaticView> {
    match s {
        Some(server) => Some(server@),
        None => None,
    }
}

/// The server of the static files of a configuration.
fn file_server(cfg: &DomainConfig) -> (r: Option<StaticFileServer>)
    ensures
        server_view(r) == files_in(*cfg),
{
    match &cfg.static_files {
        Some(sf) => {
            let index = copy_texts(&sf.index);
            let server = StaticFileServer::new(sf.root.clone(), index, sf.autoindex);
            assert(server@.index =~= Seq::new(sf.index@.len(), |i: int| sf.index@[i]@));
            Some(server)
        },
        None => None,
    }
}

/// A copy of texts.
fn copy_texts(v: &Vec<String>) -> (r: Vec<String>)
    ensures
        r@.len() == v@.len(),
        forall|i: int| 0 <= i < v@.len() ==> (#[trigger] r@[i])@ == v@[i]@,
{
    let mut r: Vec<String> = Vec::new();
    let mut i: usize = 0;
    while i < v.len()
        invariant
            0 <= i <= v@.len(),
            r@.len() == i,
            forall|j: int| 0 <= j < i ==> (#[trigger] r@[j])@ == v@[j]@,
        decreases v@.len() - i,
    {
        r.push(v[i].clone());
        i += 1;
    }
    r
}

/// The path and the query of a request, `/` if it has none. A request is sent to
/// its backend for these, without the scheme and the host.
pub fn origin_form(head: &RequestHead) -> (r: String)
    ensures
        r@ == origin(head@),
{
    match &head.path_and_query {
        Some(p) => p.clone(),
        None => "/".to_string(),
    }
}

/// A redirect to a location.
pub open spec fn moved(location: Seq<char>) -> ReplyView {
    ReplyView::bare(301).with("location"@, location)
}

/// Builds a redirect to a location.
pub fn redirect_reply(location: &str) -> (r: Reply)
    requires
        valid_value(location@),
    ensures
        r@ == moved(location@),
{
    proof {
        lemma_written_names();
    }
    let mut r = Reply::bare(301);
    r.set("location", location);
    r
}

/// A text as the value of a field, nothing if it is none.
pub open spec fn value_or_nothing(s: Seq<char>) -> Seq<char> {
    if valid_value(s) {
        s
    } else {
        ""@
    }
}

/// The addresses that a request has come by, the client's at the end.
pub open spec fn forwarded_for(f: Map<Seq<char>, Seq<Seq<u8>>>, ip: Seq<char>) -> Seq<char> {
    match text_field(f, "x-forwarded-for"@) {
        Some(existing) => existing + ", "@ + ip,
        None => ip,
    }
}

/// Fields with those that tell a backend where a request comes from.
pub open spec fn forwarding(
    f: Map<Seq<char>, Seq<Seq<u8>>>,
    ip: Seq<char>,
    host: Seq<char>,
) -> Map<Seq<char>, Seq<Seq<u8>>> {
    let g = f.insert(
        "x-forwarded-for"@,
        seq![encode_utf8(value_or_nothing(forwarded_for(f, ip)))],
    ).insert("x-real-ip"@, seq![encode_utf8(value_or_nothing(ip))]);
    if host.len() > 0 && valid_value(host) {
        g.insert("x-forwarded-host"@, seq![encode_utf8(host)])
    } else {
        g
    }
}

/// A text as the value of a field, nothing if it is none.
fn as_value(s: String) -> (r: String)
    ensures
        r@ == value_or_nothing(s@),
        valid_value(r@),
{
    if is_value(s.as_str()) {
        s
    } else {
        proof {
            reveal_strlit("");
        }
        "".to_string()
    }
}

/// Puts on a request the fields that tell a backend where it comes from: the
/// addresses that it has come by, that of the client, and the domain that it is
/// for.
pub fn add_forwarding_headers(headers: &mut HeaderMap, ip: &str, host: &str)
    requires
        has_room(fields(*old(headers)), 3),
    ensures
        fields(*final(headers)) == forwarding(fields(*old(headers)), ip@, host@),
{
    proof {
        lemma_written_names();
        reveal_strlit("");
    }
    let chain = match field_text(headers, "x-forwarded-for") {
        Some(existing) => {
            let mut s = existing;
            s.append(", ");
            s.append(ip);
            s
        },
        None => ip.to_string(),
    };
    let chain = as_value(chain);
    set_field(headers, "x-forwarded-for", chain.as_str());
    assert(has_room(fields(*headers), 2));
    let direct = as_value(ip.to_string());
    set_field(headers, "x-real-ip", direct.as_str());
    assert(has_room(fields(*headers), 1));
    if !same_text(host, "") && is_value(host) {
        set_field(headers, "x-forwarded-host", host);
    }
    assert(host@.len() == 0 ==> host@ =~= ""@);
}

}
