//! What holds of the screening of clients and requests as a whole.
use crate::client::{law_keys_tell_clients_apart, ClientIp};
use crate::config::SecurityFlags;
use crate::security::{has_sqli, has_traversal, has_xss, target, verdict, SecurityView};
use crate::text::{ascii_lower, ascii_lower_char, occurs, white_space};
use crate::text_laws::{law_occurrence_is_a_part, law_parts_occur};
use vstd::prelude::*;
use vstd::string::*;

verus! {

/// The end of a connection takes back what its start has counted.
pub proof fn law_release_undoes_acquire(s: SecurityView, ip: ClientIp)
    requires
        s.wf(),
        s.admits(ip),
    ensures
        s.acquired(ip).open_connections(ip) == s.open_connections(ip) + 1,
        s.acquired(ip).released(ip).open_connections(ip) == s.open_connections(ip),
        s.acquired(ip).released(ip).admits(ip),
{
}

/// The number of connections never goes below zero: an end that no start
/// belongs to changes nothing.
pub proof fn law_release_never_underflows(s: SecurityView, ip: ClientIp)
    ensures
        s.open_connections(ip) == 0 ==> s.released(ip) == s,
        s.open_connections(ip) > 0 ==> s.released(ip).open_connections(ip) == s.open_connections(
            ip,
        ) - 1,
{
}

/// What one client does changes nothing for another.
pub proof fn law_clients_are_counted_apart(s: SecurityView, ip: ClientIp, other: ClientIp)
    requires
        ip != other,
    ensures
        s.acquired(ip).admits(other) == s.admits(other),
        s.released(ip).admits(other) == s.admits(other),
        s.tls_failed(ip).admits(other) == s.admits(other),
        s.tls_failed(ip).failures(other) == s.failures(other),
{
    law_keys_tell_clients_apart(ip, other);
}

/// A blocked client gets no connection, and nothing that happens later, to it or
/// to another, lifts the block.
pub proof fn law_blocked_stays_blocked(s: SecurityView, ip: ClientIp, other: ClientIp)
    requires
        s.blocks(ip),
    ensures
        !s.admits(ip),
        s.acquired(other).blocks(ip),
        s.released(other).blocks(ip),
        s.tls_failed(other).blocks(ip),
{
}

/// What is known of the clients after `n` failed handshakes with one of them.
pub open spec fn after_tls_failures(s: SecurityView, ip: ClientIp, n: nat) -> SecurityView
    decreases n,
{
    if n == 0 {
        s
    } else {
        after_tls_failures(s, ip, (n - 1) as nat).tls_failed(ip)
    }
}

/// A client is blocked with the failed handshake that makes `max_tls_failures`
/// of them, and not before. (The first failure blocks where the limit is 0.)
pub proof fn law_tls_abuse_is_blocked(s: SecurityView, ip: ClientIp, n: nat)
    requires
        s.flags.block_tls_abusers,
        s.failures(ip) == 0,
        !s.blocks(ip),
        n <= u32::MAX,
    ensures
        after_tls_failures(s, ip, n).failures(ip) == n,
        after_tls_failures(s, ip, n).flags == s.flags,
        after_tls_failures(s, ip, n).blocks(ip) <==> n >= 1 && n >= s.flags.max_tls_failures,
    decreases n,
{
    if n > 0 {
        law_tls_abuse_is_blocked(s, ip, (n - 1) as nat);
    }
}

/// With TLS abuse detection off, failed handshakes block nobody.
pub proof fn law_tls_abuse_may_be_ignored(s: SecurityView, ip: ClientIp, n: nat)
    requires
        !s.flags.block_tls_abusers,
    ensures
        after_tls_failures(s, ip, n) == s,
    decreases n,
{
    if n > 0 {
        law_tls_abuse_may_be_ignored(s, ip, (n - 1) as nat);
    }
}

/// Whether everything that `less` switches on is switched on by `more`.
pub open spec fn no_stricter(less: SecurityFlags, more: SecurityFlags) -> bool {
    &&& less.waf_sqli ==> more.waf_sqli
    &&& less.waf_xss ==> more.waf_xss
    &&& less.waf_path_traversal ==> more.waf_path_traversal
    &&& less.block_empty_user_agent ==> more.block_empty_user_agent
}

/// Switching something off never refuses a request that was let through before.
pub proof fn law_switching_off_refuses_no_more(
    less: SecurityFlags,
    more: SecurityFlags,
    lower: Seq<char>,
    user_agent: Option<Seq<char>>,
)
    requires
        no_stricter(less, more),
        verdict(more, lower, user_agent) is None,
    ensures
        verdict(less, lower, user_agent) is None,
{
}

/// With everything switched off, every request is let through.
pub proof fn law_all_off_refuses_nothing(
    flags: SecurityFlags,
    lower: Seq<char>,
    user_agent: Option<Seq<char>>,
)
    requires
        !flags.waf_sqli,
        !flags.waf_xss,
        !flags.waf_path_traversal,
        !flags.block_empty_user_agent,
    ensures
        verdict(flags, lower, user_agent) is None,
{
}

/// Writing letters of a target in the other case does not change the verdict.
pub proof fn law_case_does_not_matter(
    flags: SecurityFlags,
    a: Seq<char>,
    b: Seq<char>,
    user_agent: Option<Seq<char>>,
)
    requires
        a.len() == b.len(),
        forall|i: int|
            0 <= i < a.len() ==> ascii_lower_char(#[trigger] a[i]) == ascii_lower_char(b[i]),
    ensures
        verdict(flags, ascii_lower(a), user_agent) == verdict(flags, ascii_lower(b), user_agent),
{
    assert(ascii_lower(a) =~= ascii_lower(b));
}

/// What is known of the clients after one of them has asked for `n` connections.
pub open spec fn after_acquires(s: SecurityView, ip: ClientIp, n: nat) -> SecurityView
    decreases n,
{
    if n == 0 {
        s
    } else {
        after_acquires(s, ip, (n - 1) as nat).acquired(ip)
    }
}

/// A client that is not blocked gets exactly as many connections at once as it
/// may have.
pub proof fn law_connections_are_limited(s: SecurityView, ip: ClientIp, n: nat)
    requires
        s.open_connections(ip) == 0,
        !s.blocks(ip),
    ensures
        after_acquires(s, ip, n).admits(ip) <==> n < s.limit,
{
    lemma_acquires(s, ip, n);
}

proof fn lemma_acquires(s: SecurityView, ip: ClientIp, n: nat)
    requires
        s.open_connections(ip) == 0,
        !s.blocks(ip),
    ensures
        after_acquires(s, ip, n).limit == s.limit,
        !after_acquires(s, ip, n).blocks(ip),
        after_acquires(s, ip, n).open_connections(ip) == if n < s.limit {
            n as int
        } else {
            s.limit as int
        },
    decreases n,
{
    if n > 0 {
        lemma_acquires(s, ip, (n - 1) as nat);
    }
}

/// What in a target counts as SQL injection.
pub open spec fn sqli_patterns() -> Seq<Seq<char>> {
    seq![
        "' or '"@,
        "' or 1"@,
        " or 1=1"@,
        "--"@,
        "delete from"@,
        "drop table"@,
        "exec("@,
        "insert into"@,
        "select * from"@,
        "union all select"@,
        "union select"@,
        "xp_cmdshell"@,
    ]
}

/// What in a target counts as cross-site scripting.
pub open spec fn xss_patterns() -> Seq<Seq<char>> {
    seq![
        "<iframe"@,
        "<script"@,
        "alert("@,
        "document.cookie"@,
        "eval("@,
        "javascript:"@,
        "onclick="@,
        "onerror="@,
        "onload="@,
        "vbscript:"@,
    ]
}

/// What in a target counts as path traversal.
pub open spec fn traversal_patterns() -> Seq<Seq<char>> {
    seq!["../"@, "..\\"@]
}

/// Whether a text holds any of some patterns.
pub open spec fn holds_any(t: Seq<char>, patterns: Seq<Seq<char>>) -> bool {
    exists|i: int| 0 <= i < patterns.len() && occurs(t, #[trigger] patterns[i])
}

/// Whether a User-Agent tells anything: it is there, and some character of it is no
/// white space.
pub open spec fn tells_agent(user_agent: Option<Seq<char>>) -> bool {
    user_agent matches Some(ua) && exists|i: int|
        0 <= i < ua.len() && !white_space(#[trigger] ua[i])
}

proof fn lemma_patterns(t: Seq<char>)
    ensures
        has_sqli(t) == holds_any(t, sqli_patterns()),
        has_xss(t) == holds_any(t, xss_patterns()),
        has_traversal(t) == holds_any(t, traversal_patterns()),
{
    let q = sqli_patterns();
    let x = xss_patterns();
    let v = traversal_patterns();
    assert(forall|i: int| 0 <= i < 12 ==> (occurs(t, #[trigger] q[i]) ==> has_sqli(t)));
    assert(forall|i: int| 0 <= i < 10 ==> (occurs(t, #[trigger] x[i]) ==> has_xss(t)));
    assert(forall|i: int| 0 <= i < 2 ==> (occurs(t, #[trigger] v[i]) ==> has_traversal(t)));
    if has_sqli(t) {
        assert(occurs(t, q[0]) || occurs(t, q[1]) || occurs(t, q[2]) || occurs(t, q[3]) || occurs(
            t,
            q[4],
        ) || occurs(t, q[5]) || occurs(t, q[6]) || occurs(t, q[7]) || occurs(t, q[8]) || occurs(
            t,
            q[9],
        ) || occurs(t, q[10]) || occurs(t, q[11]));
    }
    if has_xss(t) {
        assert(occurs(t, x[0]) || occurs(t, x[1]) || occurs(t, x[2]) || occurs(t, x[3]) || occurs(
            t,
            x[4],
        ) || occurs(t, x[5]) || occurs(t, x[6]) || occurs(t, x[7]) || occurs(t, x[8]) || occurs(
            t,
            x[9],
        ));
    }
    if has_traversal(t) {
        assert(occurs(t, v[0]) || occurs(t, v[1]));
    }
}

/// A request is refused for SQL injection exactly if that is looked for, its target
/// holds one of the twelve patterns, and neither its User-Agent nor a path traversal is
/// objected to before.
pub proof fn law_sqli_is_refused(
    flags: SecurityFlags,
    lower: Seq<char>,
    user_agent: Option<Seq<char>>,
)
    ensures
        verdict(flags, lower, user_agent) == Some("SQL injection pattern detected"@) <==> {
            &&& flags.waf_sqli
            &&& holds_any(lower, sqli_patterns())
            &&& !(flags.block_empty_user_agent && !tells_agent(user_agent))
            &&& !(flags.waf_path_traversal && holds_any(lower, traversal_patterns()))
        },
{
    lemma_patterns(lower);
    lemma_reasons_differ();
}

/// A request is refused for cross-site scripting exactly if that is looked for, its
/// target holds one of the ten patterns, and nothing else is objected to before.
pub proof fn law_xss_is_refused(
    flags: SecurityFlags,
    lower: Seq<char>,
    user_agent: Option<Seq<char>>,
)
    ensures
        verdict(flags, lower, user_agent) == Some("XSS pattern detected"@) <==> {
            &&& flags.waf_xss
            &&& holds_any(lower, xss_patterns())
            &&& !(flags.block_empty_user_agent && !tells_agent(user_agent))
            &&& !(flags.waf_path_traversal && holds_any(lower, traversal_patterns()))
            &&& !(flags.waf_sqli && holds_any(lower, sqli_patterns()))
        },
{
    lemma_patterns(lower);
    lemma_reasons_differ();
}

/// A request is refused for path traversal exactly if that is looked for, its target
/// goes up by a slash or a backslash, and its User-Agent is not objected to before.
pub proof fn law_traversal_is_refused(
    flags: SecurityFlags,
    lower: Seq<char>,
    user_agent: Option<Seq<char>>,
)
    ensures
        verdict(flags, lower, user_agent) == Some("Path traversal attempt"@) <==> {
            &&& flags.waf_path_traversal
            &&& holds_any(lower, traversal_patterns())
            &&& !(flags.block_empty_user_agent && !tells_agent(user_agent))
        },
{
    lemma_patterns(lower);
    lemma_reasons_differ();
}

/// A request is refused for want of a User-Agent exactly if one is asked for and the
/// request tells none.
pub proof fn law_missing_agent_is_refused(
    flags: SecurityFlags,
    lower: Seq<char>,
    user_agent: Option<Seq<char>>,
)
    ensures
        verdict(flags, lower, user_agent) == Some("No User-Agent"@) <==> {
            &&& flags.block_empty_user_agent
            &&& !tells_agent(user_agent)
        },
{
    lemma_patterns(lower);
    lemma_reasons_differ();
}

/// A request is let through exactly if it holds none of the patterns that are looked
/// for, and tells a User-Agent where one is asked for.
pub proof fn law_harmless_requests_are_let_through(
    flags: SecurityFlags,
    lower: Seq<char>,
    user_agent: Option<Seq<char>>,
)
    ensures
        verdict(flags, lower, user_agent) is None <==> {
            &&& flags.block_empty_user_agent ==> tells_agent(user_agent)
            &&& flags.waf_path_traversal ==> !holds_any(lower, traversal_patterns())
            &&& flags.waf_sqli ==> !holds_any(lower, sqli_patterns())
            &&& flags.waf_xss ==> !holds_any(lower, xss_patterns())
        },
{
    lemma_patterns(lower);
}

/// The reasons for which requests are refused are different texts.
proof fn lemma_reasons_differ()
    ensures
        "No User-Agent"@.len() == 13,
        "Path traversal attempt"@.len() == 22,
        "SQL injection pattern detected"@.len() == 30,
        "XSS pattern detected"@.len() == 20,
{
    reveal_strlit("No User-Agent");
    reveal_strlit("Path traversal attempt");
    reveal_strlit("SQL injection pattern detected");
    reveal_strlit("XSS pattern detected");
}

/// What is searched for patterns is all of the path and all of the query, with a
/// question mark between them: no pattern in either goes unseen.
pub proof fn law_path_and_query_are_searched(
    path: Seq<char>,
    query: Seq<char>,
    pattern: Seq<char>,
)
    ensures
        target(path, None) == path,
        target(path, Some(query)) == path + seq!['?'] + query,
        occurs(path, pattern) ==> occurs(target(path, Some(query)), pattern),
        occurs(query, pattern) ==> occurs(target(path, Some(query)), pattern),
{
    let t = target(path, Some(query));
    assert(t =~= path + seq!['?'] + query);
    if occurs(path, pattern) {
        let (a, b) = law_occurrence_is_a_part(path, pattern);
        law_parts_occur(a, pattern, b + seq!['?'] + query);
        assert(t =~= a + pattern + (b + seq!['?'] + query));
    }
    if occurs(query, pattern) {
        let (a, b) = law_occurrence_is_a_part(query, pattern);
        law_parts_occur(path + seq!['?'] + a, pattern, b);
        assert(t =~= path + seq!['?'] + a + pattern + b);
    }
}

/// At first nobody has a connection, has failed or is blocked, and the limits are those
/// that were asked for.
pub proof fn law_nothing_is_held_against_new_clients(
    limit: usize,
    flags: SecurityFlags,
    ip: ClientIp,
)
    ensures
        SecurityView::fresh(limit, flags).limit == limit,
        SecurityView::fresh(limit, flags).flags == flags,
        SecurityView::fresh(limit, flags).open_connections(ip) == 0,
        SecurityView::fresh(limit, flags).failures(ip) == 0,
        !SecurityView::fresh(limit, flags).blocks(ip),
        SecurityView::fresh(limit, flags).admits(ip) <==> limit > 0,
{
}

/// A client gets another connection exactly if it is not blocked and has fewer than it
/// may have. One that is refused is left with those that it has.
pub proof fn law_admission_goes_by_the_count(s: SecurityView, ip: ClientIp)
    ensures
        s.admits(ip) <==> !s.blocks(ip) && s.open_connections(ip) < s.limit,
        s.admits(ip) ==> s.acquired(ip).open_connections(ip) == s.open_connections(ip) + 1,
        !s.admits(ip) ==> s.acquired(ip).open_connections(ip) == s.open_connections(ip),
{
}

/// Connections and handshakes change neither the limits nor what is switched on, and
/// connections change nothing about failures and blocks.
pub proof fn law_limits_stay(s: SecurityView, ip: ClientIp, other: ClientIp)
    ensures
        s.acquired(ip).limit == s.limit && s.acquired(ip).flags == s.flags,
        s.released(ip).limit == s.limit && s.released(ip).flags == s.flags,
        s.tls_failed(ip).limit == s.limit && s.tls_failed(ip).flags == s.flags,
        s.acquired(ip).failures(other) == s.failures(other),
        s.released(ip).failures(other) == s.failures(other),
        s.acquired(ip).blocks(other) == s.blocks(other),
        s.released(ip).blocks(other) == s.blocks(other),
        s.tls_failed(ip).open_connections(other) == s.open_connections(other),
        other != ip ==> s.acquired(ip).open_connections(other) == s.open_connections(other),
        other != ip ==> s.released(ip).open_connections(other) == s.open_connections(other),
        other != ip ==> s.tls_failed(ip).blocks(other) == s.blocks(other),
{
    law_keys_tell_clients_apart(ip, other);
}

/// Each failed handshake counts once, and blocks its client exactly if there were then
/// as many as the limit. A client that was blocked stays so.
pub proof fn law_each_failed_handshake_counts(s: SecurityView, ip: ClientIp)
    requires
        s.flags.block_tls_abusers,
        s.failures(ip) < u32::MAX,
    ensures
        s.tls_failed(ip).failures(ip) == s.failures(ip) + 1,
        s.tls_failed(ip).blocks(ip) <==> s.blocks(ip) || s.failures(ip) + 1
            >= s.flags.max_tls_failures,
{
}

}
