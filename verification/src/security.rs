//! Screening of clients and requests.
//!
//! Provides:
//!   - connection tracking per IP address (no single client exhausts the
//!     connections)
//!   - a basic WAF: blocks SQL injection, XSS and path traversal patterns in URLs
//!   - TLS abuse detection: blocks clients with too many failed handshakes
//!   - optionally, blocking of requests with no User-Agent
use crate::client::{ClientIp, IpKey};
use crate::config::SecurityFlags;
use crate::shared_map::{
    add_member, count_of, count_or_insert, counts, is_member, members, no_counts, no_members,
    set_count,
};
use crate::text::{ascii_lower, blank, chars_of, contains, is_blank, lowercase, occurs};
use dashmap::DashMap;
use vstd::prelude::*;
use vstd::string::*;
use vstd::utf8::*;

verus! {

/// What is known of the clients.
#[verifier::ext_equal]
pub struct SecurityView {
    /// Connections that one client may have
    pub limit: usize,
    /// What is switched on
    pub flags: SecurityFlags,
    /// The connections that each client has
    pub connections: Map<IpKey, u64>,
    /// The failed handshakes of each client
    pub tls_failures: Map<IpKey, u64>,
    /// The clients that are blocked
    pub blocked: Set<IpKey>,
}

/// The number in `m` under a client's key, 0 if there is none.
pub open spec fn number_of(m: Map<IpKey, u64>, ip: ClientIp) -> u64 {
    if m.contains_key(ip.spec_key()) {
        m[ip.spec_key()]
    } else {
        0
    }
}

impl SecurityView {
    /// Before any connection.
    pub open spec fn fresh(limit: usize, flags: SecurityFlags) -> Self {
        SecurityView {
            limit,
            flags,
            connections: Map::empty(),
            tls_failures: Map::empty(),
            blocked: Set::empty(),
        }
    }

    /// No client has more connections than it may have, and failures are counted
    /// in 32 bits.
    pub open spec fn wf(self) -> bool {
        &&& forall|k: IpKey| #[trigger]
            self.connections.contains_key(k) ==> self.connections[k] <= self.limit
        &&& forall|k: IpKey| #[trigger]
            self.tls_failures.contains_key(k) ==> self.tls_failures[k] <= u32::MAX
    }

    /// How many connections a client has.
    pub open spec fn open_connections(self, ip: ClientIp) -> u64 {
        number_of(self.connections, ip)
    }

    /// How often a client has failed to shake hands.
    pub open spec fn failures(self, ip: ClientIp) -> u64 {
        number_of(self.tls_failures, ip)
    }

    /// Whether a client is blocked.
    pub open spec fn blocks(self, ip: ClientIp) -> bool {
        self.blocked.contains(ip.spec_key())
    }

    /// Whether a client may have another connection.
    pub open spec fn admits(self, ip: ClientIp) -> bool {
        !self.blocks(ip) && self.open_connections(ip) < self.limit
    }

    /// Once a client has asked for a connection.
    pub open spec fn acquired(self, ip: ClientIp) -> Self {
        if self.blocks(ip) {
            self
        } else {
            let n = self.open_connections(ip);
            SecurityView {
                connections: self.connections.insert(
                    ip.spec_key(),
                    if n < self.limit {
                        (n + 1) as u64
                    } else {
                        n
                    },
                ),
                ..self
            }
        }
    }

    /// Once a connection of a client has ended.
    pub open spec fn released(self, ip: ClientIp) -> Self {
        let n = self.open_connections(ip);
        if n > 0 {
            SecurityView {
                connections: self.connections.insert(ip.spec_key(), (n - 1) as u64),
                ..self
            }
        } else {
            self
        }
    }

    /// Once a handshake with a client has failed.
    pub open spec fn tls_failed(self, ip: ClientIp) -> Self {
        if !self.flags.block_tls_abusers {
            self
        } else {
            let n = self.failures(ip);
            let count: u64 = if n == u32::MAX {
                0
            } else {
                (n + 1) as u64
            };
            SecurityView {
                tls_failures: self.tls_failures.insert(ip.spec_key(), count),
                blocked: if count >= self.flags.max_tls_failures {
                    self.blocked.insert(ip.spec_key())
                } else {
                    self.blocked
                },
                ..self
            }
        }
    }
}

/// Keeps track of the clients and screens their requests.
pub struct SecurityChecker {
    max_connections_per_ip: usize,
    connections: DashMap<IpKey, u64>,
    tls_failures: DashMap<IpKey, u64>,
    blocked_ips: DashMap<IpKey, ()>,
    flags: SecurityFlags,
}

impl SecurityChecker {
    /// What is known of the clients.
    pub closed spec fn view(&self) -> SecurityView {
        SecurityView {
            limit: self.max_connections_per_ip,
            flags: self.flags,
            connections: counts(self.connections),
            tls_failures: counts(self.tls_failures),
            blocked: members(self.blocked_ips),
        }
    }

    /// A checker that knows of no client.
    pub fn new(max_connections_per_ip: usize, flags: SecurityFlags) -> (r: Self)
        ensures
            r@ == SecurityView::fresh(max_connections_per_ip, flags),
            r@.wf(),
    {
        SecurityChecker {
            max_connections_per_ip,
            connections: no_counts(),
            tls_failures: no_counts(),
            blocked_ips: no_members(),
            flags,
        }
    }

    /// Counts a connection of a client. An error when the client is blocked or
    /// has as many connections as it may have.
    pub fn check_and_acquire_connection(&mut self, ip: ClientIp) -> (r: Result<(), ()>)
        requires
            old(self)@.wf(),
        ensures
            final(self)@.wf(),
            final(self)@ == old(self)@.acquired(ip),
            r is Ok <==> old(self)@.admits(ip),
    {
        let key = ip.key();
        if is_member(&self.blocked_ips, key) {
            return Err(());
        }
        let ghost start = self@;
        let count = count_or_insert(&mut self.connections, key, 0);
        assert(count <= start.limit) by {
            if start.connections.contains_key(key) {
            }
        }
        if count >= self.max_connections_per_ip as u64 {
            assert(self@ =~= start.acquired(ip));
            return Err(());
        }
        set_count(&mut self.connections, key, count + 1);
        assert(self@ =~= start.acquired(ip));
        Ok(())
    }

    /// Counts the end of a connection of a client.
    pub fn release_connection(&mut self, ip: ClientIp)
        requires
            old(self)@.wf(),
        ensures
            final(self)@.wf(),
            final(self)@ == old(self)@.released(ip),
    {
        let key = ip.key();
        let ghost start = self@;
        if let Some(count) = count_of(&self.connections, key) {
            if count > 0 {
                assert(start.connections.contains_key(key));
                set_count(&mut self.connections, key, count - 1);
                assert(self@ =~= start.released(ip));
            }
        }
    }

    /// Counts a failed handshake with a client, and blocks the client when there
    /// were too many.
    pub fn record_tls_failure(&mut self, ip: ClientIp)
        requires
            old(self)@.wf(),
        ensures
            final(self)@.wf(),
            final(self)@ == old(self)@.tls_failed(ip),
    {
        if !self.flags.block_tls_abusers {
            return ;
        }
        let key = ip.key();
        let ghost start = self@;
        let before = count_or_insert(&mut self.tls_failures, key, 0);
        assert(before <= u32::MAX) by {
            if start.tls_failures.contains_key(key) {
            }
        }
        let count: u64 = if before == u32::MAX as u64 {
            0
        } else {
            before + 1
        };
        set_count(&mut self.tls_failures, key, count);
        if count >= self.flags.max_tls_failures as u64 {
            add_member(&mut self.blocked_ips, key);
        }
        assert(self@ =~= start.tls_failed(ip));
    }

    /// Whether a client is blocked.
    pub fn is_blocked(&self, ip: ClientIp) -> (r: bool)
        ensures
            r == self@.blocks(ip),
    {
        is_member(&self.blocked_ips, ip.key())
    }

    /// Screens a request by its path, its query and its User-Agent. An error
    /// tells why it is to be refused.
    pub fn check_request(&self, path: &str, query: Option<&str>, user_agent: Option<&str>) -> (r:
        Result<(), &'static str>)
        ensures
            says(
                r,
                verdict(
                    self@.flags,
                    lowercase(target(path@, text_of(query))),
                    text_of(user_agent),
                ),
            ),
            is_ascii_chars(target(path@, text_of(query))) ==> says(
                r,
                verdict(
                    self@.flags,
                    ascii_lower(target(path@, text_of(query))),
                    text_of(user_agent),
                ),
            ),
    {
        let mut whole: String = path.to_string();
        if let Some(q) = query {
            whole.push('?');
            whole.append(q);
        }
        assert(whole@ =~= target(path@, text_of(query)));
        let lower = whole.as_str().to_lowercase();
        screen(&self.flags, lower.as_str(), user_agent)
    }
}

/// The characters of a text that may be missing.
pub open spec fn text_of(s: Option<&str>) -> Option<Seq<char>> {
    match s {
        Some(t) => Some(t@),
        None => None,
    }
}

/// What is searched for patterns: the path, and the query behind a question
/// mark.
pub open spec fn target(path: Seq<char>, query: Option<Seq<char>>) -> Seq<char> {
    match query {
        Some(q) => path.push('?') + q,
        None => path,
    }
}

/// Whether a text holds a path traversal.
pub open spec fn has_traversal(t: Seq<char>) -> bool {
    occurs(t, "../"@) || occurs(t, "..\\"@)
}

/// Whether a text holds a SQL injection pattern.
pub open spec fn has_sqli(t: Seq<char>) -> bool {
    ||| occurs(t, " or 1=1"@)
    ||| occurs(t, "' or '"@)
    ||| occurs(t, "' or 1"@)
    ||| occurs(t, "union select"@)
    ||| occurs(t, "union all select"@)
    ||| occurs(t, "select * from"@)
    ||| occurs(t, "drop table"@)
    ||| occurs(t, "insert into"@)
    ||| occurs(t, "delete from"@)
    ||| occurs(t, "--"@)
    ||| occurs(t, "xp_cmdshell"@)
    ||| occurs(t, "exec("@)
}

/// Whether a text holds an XSS pattern.
pub open spec fn has_xss(t: Seq<char>) -> bool {
    ||| occurs(t, "<script"@)
    ||| occurs(t, "javascript:"@)
    ||| occurs(t, "onerror="@)
    ||| occurs(t, "onload="@)
    ||| occurs(t, "onclick="@)
    ||| occurs(t, "alert("@)
    ||| occurs(t, "document.cookie"@)
    ||| occurs(t, "eval("@)
    ||| occurs(t, "<iframe"@)
    ||| occurs(t, "vbscript:"@)
}

/// Whether a User-Agent is missing, empty or made of white space.
pub open spec fn no_agent(user_agent: Option<Seq<char>>) -> bool {
    match user_agent {
        Some(ua) => blank(ua),
        None => true,
    }
}

/// Why a request whose lower-cased target is `lower` is refused, if it is.
pub open spec fn verdict(
    flags: SecurityFlags,
    lower: Seq<char>,
    user_agent: Option<Seq<char>>,
) -> Option<Seq<char>> {
    if flags.block_empty_user_agent && no_agent(user_agent) {
        Some("No User-Agent"@)
    } else if flags.waf_path_traversal && has_traversal(lower) {
        Some("Path traversal attempt"@)
    } else if flags.waf_sqli && has_sqli(lower) {
        Some("SQL injection pattern detected"@)
    } else if flags.waf_xss && has_xss(lower) {
        Some("XSS pattern detected"@)
    } else {
        None
    }
}

/// Whether a result is an error with the given text, or fine where there is
/// none.
pub open spec fn says(r: Result<(), &'static str>, reason: Option<Seq<char>>) -> bool {
    match reason {
        Some(text) => r matches Err(e) && e@ == text,
        None => r is Ok,
    }
}

/// Whether a text holds a SQL injection pattern.
fn finds_sqli(t: &Vec<char>) -> (r: bool)
    ensures
        r == has_sqli(t@),
{
    contains(t, " or 1=1") || contains(t, "' or '") || contains(t, "' or 1") || contains(
        t,
        "union select",
    ) || contains(t, "union all select") || contains(t, "select * from") || contains(
        t,
        "drop table",
    ) || contains(t, "insert into") || contains(t, "delete from") || contains(t, "--")
        || contains(t, "xp_cmdshell") || contains(t, "exec(")
}

/// Whether a text holds an XSS pattern.
fn finds_xss(t: &Vec<char>) -> (r: bool)
    ensures
        r == has_xss(t@),
{
    contains(t, "<script") || contains(t, "javascript:") || contains(t, "onerror=") || contains(
        t,
        "onload=",
    ) || contains(t, "onclick=") || contains(t, "alert(") || contains(t, "document.cookie")
        || contains(t, "eval(") || contains(t, "<iframe") || contains(t, "vbscript:")
}

/// Screens a request by its lower-cased target and its User-Agent.
pub fn screen(flags: &SecurityFlags, lower: &str, user_agent: Option<&str>) -> (r: Result<
    (),
    &'static str,
>)
    ensures
        says(r, verdict(*flags, lower@, text_of(user_agent))),
{
    if flags.block_empty_user_agent {
        let missing = match user_agent {
            Some(ua) => is_blank(ua),
            None => true,
        };
        if missing {
            return Err("No User-Agent");
        }
    }
    let t = chars_of(lower);
    if flags.waf_path_traversal && (contains(&t, "../") || contains(&t, "..\\")) {
        return Err("Path traversal attempt");
    }
    if flags.waf_sqli && finds_sqli(&t) {
        return Err("SQL injection pattern detected");
    }
    if flags.waf_xss && finds_xss(&t) {
        return Err("XSS pattern detected");
    }
    Ok(())
}

/// A result says a reason exactly if it is an error with that text, and says none exactly
/// if it is fine. A text that is there is taken as it is.
pub proof fn law_errors_tell_their_reason(
    r: Result<(), &'static str>,
    reason: Option<Seq<char>>,
    s: Option<&str>,
)
    ensures
        says(r, reason) <==> match r {
            Ok(_) => reason is None,
            Err(e) => reason == Some(e@),
        },
        match s {
            Some(t) => text_of(s) == Some(t@),
            None => text_of(s) is None,
        },
{
}

}
