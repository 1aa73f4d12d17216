//! What holds of the health checks as a whole.
use crate::client::ClientIp;
use crate::config::DomainConfig;
use crate::health_check::{
    address, answer_text, ascii_text, check_target, checked, is_checked, is_well, probe_request,
    tasks_of, tasks_view, told_status, url_parts, HealthTask, UrlParts,
};
use crate::load_balancer::{first_with_url_at, lemma_first_with_url, LoadBalancerView};
use crate::load_balancer_laws::{after_failures_of, law_failed_backend_is_skipped};
use crate::text::{
    decimal, find_last, is_digit, occurs_at, read_u16, white_space,
};
use crate::text_laws::{
    all_white, law_cut_at_the_first, law_decimal_stands_for_its_number, law_ends_are_trimmed,
    law_last_is_found, law_numbers_are_read, law_second_word_is_found, repeated,
};
use vstd::prelude::*;
use vstd::string::*;
use vstd::utf8::*;

verus! {

/// Every backend of every domain that has health checks switched on is checked, as often
/// as its domain wants and for as long: there is a task for the domain with a check of
/// the backend.
pub proof fn law_every_backend_is_checked(
    table: Seq<(Seq<char>, DomainConfig)>,
    n: nat,
    i: int,
    b: int,
) -> (at: (int, int))
    requires
        0 <= i < n <= table.len(),
        table[i].1.health_check.enabled,
        0 <= b < table[i].1.backends@.len(),
    ensures
        0 <= at.0 < tasks_of(table, n).len(),
        tasks_of(table, n)[at.0].domain == table[i].0,
        tasks_of(table, n)[at.0].interval_secs == table[i].1.health_check.interval_secs,
        tasks_of(table, n)[at.0].timeout_secs == table[i].1.health_check.timeout_secs,
        0 <= at.1 < tasks_of(table, n)[at.0].checks.len(),
        tasks_of(table, n)[at.0].checks[at.1] == (
            table[i].1.backends@[b]@,
            check_target(table[i].1.backends@[b]@, table[i].1.health_check.path@),
        ),
    decreases n,
{
    let rest = tasks_of(table, (n - 1) as nat);
    if i == n - 1 {
        assert(is_checked(table[i].1));
        (rest.len() as int, b)
    } else {
        let at = law_every_backend_is_checked(table, (n - 1) as nat, i, b);
        assert(tasks_of(table, n)[at.0] == rest[at.0]);
        at
    }
}

/// Nothing else is checked: every task is that of a domain with health checks switched
/// on, and each of its checks that of a backend of the domain, none left out.
pub proof fn law_only_enabled_domains_are_checked(
    table: Seq<(Seq<char>, DomainConfig)>,
    n: nat,
    t: int,
) -> (i: int)
    requires
        n <= table.len(),
        0 <= t < tasks_of(table, n).len(),
    ensures
        t <= i < n,
        table[i].0 == tasks_of(table, n)[t].domain,
        table[i].1.health_check.enabled,
        tasks_of(table, n)[t].interval_secs == table[i].1.health_check.interval_secs,
        tasks_of(table, n)[t].timeout_secs == table[i].1.health_check.timeout_secs,
        tasks_of(table, n)[t].checks.len() == table[i].1.backends@.len(),
        tasks_of(table, n)[t].checks.len() > 0,
        forall|c: int|
            0 <= c < tasks_of(table, n)[t].checks.len() ==> #[trigger] tasks_of(
                table,
                n,
            )[t].checks[c] == (
                table[i].1.backends@[c]@,
                check_target(table[i].1.backends@[c]@, table[i].1.health_check.path@),
            ),
        tasks_of(table, n).len() <= n,
    decreases n,
{
    lemma_no_more_tasks_than_domains(table, n);
    lemma_no_more_tasks_than_domains(table, (n - 1) as nat);
    let rest = tasks_of(table, (n - 1) as nat);
    if t < rest.len() {
        let i = law_only_enabled_domains_are_checked(table, (n - 1) as nat, t);
        assert(tasks_of(table, n)[t] == rest[t]);
        i
    } else {
        n - 1
    }
}

proof fn lemma_no_more_tasks_than_domains(table: Seq<(Seq<char>, DomainConfig)>, n: nat)
    ensures
        tasks_of(table, n).len() <= n,
    decreases n,
{
    if n > 0 {
        lemma_no_more_tasks_than_domains(table, (n - 1) as nat);
    }
}

/// No domain has two tasks.
pub proof fn law_domains_are_checked_once(
    table: Seq<(Seq<char>, DomainConfig)>,
    n: nat,
    t: int,
    u: int,
)
    requires
        n <= table.len(),
        forall|i: int, j: int|
            0 <= i < j < table.len() ==> (#[trigger] table[i]).0 != (#[trigger] table[j]).0,
        0 <= t < u < tasks_of(table, n).len(),
    ensures
        tasks_of(table, n)[t].domain != tasks_of(table, n)[u].domain,
    decreases n,
{
    let rest = tasks_of(table, (n - 1) as nat);
    if u < rest.len() {
        law_domains_are_checked_once(table, (n - 1) as nat, t, u);
        assert(tasks_of(table, n)[t] == rest[t] && tasks_of(table, n)[u] == rest[u]);
    } else {
        let i = law_only_enabled_domains_are_checked(table, (n - 1) as nat, t);
        assert(tasks_of(table, n)[t] == rest[t]);
        assert(table[i].0 != table[n - 1].0);
    }
}

/// Between the URL of a backend and the path there is one slash, however many the URL
/// ends in, and whether or not the path begins with one.
pub proof fn law_check_url_has_one_slash(base: Seq<char>, slashes: nat, rest: Seq<char>)
    requires
        base.len() == 0 || base.last() != '/',
    ensures
        check_target(base + repeated('/', slashes), seq!['/'] + rest) == base + seq!['/'] + rest,
        rest.len() == 0 || rest[0] != '/' ==> check_target(base + repeated('/', slashes), rest)
            == base + seq!['/'] + rest,
{
    reveal_strlit("/");
    law_ends_are_trimmed(base, '/', slashes);
    assert("/"@ =~= seq!['/']);
    assert(base + (seq!['/'] + rest) =~= base + seq!['/'] + rest);
}

/// The parts of a URL with a given authority and path.
spec fn parts_with(authority: Seq<char>, path: Seq<char>) -> Option<UrlParts> {
    let colon = find_last(authority, ':');
    if colon >= 0 {
        Some(
            UrlParts {
                host: authority.take(colon),
                port: match read_u16(authority.skip(colon + 1)) {
                    Some(port) => port,
                    None => 80,
                },
                path,
            },
        )
    } else {
        Some(UrlParts { host: authority, port: 80, path })
    }
}

/// Where the authority of a URL ends.
proof fn lemma_url(authority: Seq<char>, rest: Seq<char>)
    requires
        !authority.contains('/'),
    ensures
        url_parts("http://"@ + authority + seq!['/'] + rest) == parts_with(
            authority,
            seq!['/'] + rest,
        ),
        url_parts("http://"@ + authority) == parts_with(authority, seq!['/']),
{
    reveal_strlit("http://");
    reveal_strlit("/");
    assert("/"@ =~= seq!['/']);
    let whole = "http://"@ + authority + seq!['/'] + rest;
    let short = "http://"@ + authority;
    assert(whole.subrange(0, 7) =~= "http://"@);
    assert(short.subrange(0, 7) =~= "http://"@);
    assert(occurs_at(whole, "http://"@, 0));
    assert(occurs_at(short, "http://"@, 0));
    let s = authority.push('/') + rest;
    assert(whole.skip(7) =~= s);
    assert(short.skip(7) =~= authority);
    law_cut_at_the_first(authority, '/', rest);
    assert(s.take(authority.len() as int) =~= authority);
    assert(s.skip(authority.len() as int) =~= seq!['/'] + rest);
    assert(authority.take(authority.len() as int) =~= authority);
}

/// What a colon and a word behind a host say.
proof fn lemma_authority(host: Seq<char>, word: Seq<char>, path: Seq<char>)
    requires
        !host.contains('/'),
        !word.contains('/'),
        !word.contains(':'),
    ensures
        !(host + seq![':'] + word).contains('/'),
        parts_with(host + seq![':'] + word, path) == Some(
            UrlParts {
                host,
                port: match read_u16(word) {
                    Some(port) => port,
                    None => 80,
                },
                path,
            },
        ),
{
    let authority = host + seq![':'] + word;
    assert forall|i: int| 0 <= i < authority.len() implies authority[i] != '/' by {
        if i < host.len() {
            assert(authority[i] == host[i]);
            assert(host.contains(host[i]));
        } else if i > host.len() {
            assert(authority[i] == word[i - host.len() - 1]);
            assert(word.contains(word[i - host.len() - 1]));
        }
    }
    law_last_is_found(host, ':', word);
    assert(host.push(':') + word =~= authority);
    assert(authority.take(host.len() as int) =~= host);
    assert(authority.skip(host.len() + 1int) =~= word);
}

/// The port of a backend is read from its URL: what stands behind the last colon before
/// the path. The host is what stands before it, and the path is kept as it is.
pub proof fn law_url_with_port_is_read(host: Seq<char>, port: u16, rest: Seq<char>)
    requires
        !host.contains('/'),
    ensures
        url_parts("http://"@ + host + seq![':'] + decimal(port as nat) + seq!['/'] + rest) == Some(
            UrlParts { host, port, path: seq!['/'] + rest },
        ),
        url_parts("http://"@ + host + seq![':'] + decimal(port as nat)) == Some(
            UrlParts { host, port, path: seq!['/'] },
        ),
{
    let digits = decimal(port as nat);
    let authority = host + seq![':'] + digits;
    law_decimal_stands_for_its_number(port as nat);
    law_numbers_are_read(port as nat, 0, false);
    assert(Seq::<char>::empty() + repeated('0', 0) + digits =~= digits);
    assert forall|i: int| 0 <= i < digits.len() implies digits[i] != ':' && digits[i] != '/' by {
        assert(is_digit(digits[i]));
    }
    lemma_authority(host, digits, seq!['/'] + rest);
    lemma_authority(host, digits, seq!['/']);
    lemma_url(authority, rest);
    assert("http://"@ + host + seq![':'] + digits + seq!['/'] + rest =~= "http://"@ + authority
        + seq!['/'] + rest);
    assert("http://"@ + host + seq![':'] + digits =~= "http://"@ + authority);
}

/// A URL without a port means port 80.
pub proof fn law_url_without_port_means_port_80(host: Seq<char>, rest: Seq<char>)
    requires
        !host.contains('/'),
        !host.contains(':'),
    ensures
        url_parts("http://"@ + host + seq!['/'] + rest) == Some(
            UrlParts { host, port: 80, path: seq!['/'] + rest },
        ),
        url_parts("http://"@ + host) == Some(UrlParts { host, port: 80, path: seq!['/'] }),
{
    lemma_url(host, rest);
    law_last_is_found(host, ':', host);
}

/// What stands behind the last colon and is no port means port 80 too.
pub proof fn law_no_number_means_port_80(host: Seq<char>, word: Seq<char>, rest: Seq<char>)
    requires
        !host.contains('/'),
        !word.contains('/'),
        !word.contains(':'),
        read_u16(word) is None,
    ensures
        url_parts("http://"@ + host + seq![':'] + word + seq!['/'] + rest) == Some(
            UrlParts { host, port: 80, path: seq!['/'] + rest },
        ),
{
    let authority = host + seq![':'] + word;
    lemma_authority(host, word, seq!['/'] + rest);
    lemma_url(authority, rest);
    assert("http://"@ + host + seq![':'] + word + seq!['/'] + rest =~= "http://"@ + authority
        + seq!['/'] + rest);
}

/// Only URLs that begin with `http://` are checked.
pub proof fn law_only_plain_http_is_checked(url: Seq<char>)
    ensures
        url_parts(url) is Some <==> "http://"@.is_prefix_of(url),
{
    reveal_strlit("http://");
    if url.len() >= 7 {
        assert(url.subrange(0, 7) =~= url.take(7));
    }
}

/// The address that is connected to is the host, a colon and the port: both are read
/// back from it.
pub proof fn law_address_is_read_back(host: Seq<char>, port: u16)
    ensures
        find_last(address(host, port), ':') == host.len(),
        address(host, port).take(host.len() as int) == host,
        read_u16(address(host, port).skip(host.len() + 1int)) == Some(port),
{
    reveal_strlit(":");
    let digits = decimal(port as nat);
    law_decimal_stands_for_its_number(port as nat);
    law_numbers_are_read(port as nat, 0, false);
    assert(Seq::<char>::empty() + repeated('0', 0) + digits =~= digits);
    assert(!digits.contains(':')) by {
        assert forall|i: int| 0 <= i < digits.len() implies digits[i] != ':' by {
            assert(is_digit(digits[i]));
        }
    }
    law_last_is_found(host, ':', digits);
    assert(address(host, port) =~= host.push(':') + digits);
    assert(address(host, port).take(host.len() as int) =~= host);
    assert(address(host, port).skip(host.len() + 1int) =~= digits);
}

/// The request asks for the path, then names the host, and ends with an empty line.
pub proof fn law_request_asks_for_the_path(path: Seq<char>, host: Seq<char>)
    ensures
        ("GET "@ + path + " HTTP/1.0\r\nHost: "@ + host + "\r\n"@).is_prefix_of(
            probe_request(path, host),
        ),
        "\r\nConnection: close\r\n\r\n"@.is_suffix_of(probe_request(path, host)),
{
    let r = probe_request(path, host);
    reveal_strlit("\r\n");
    reveal_strlit("\r\nConnection: close\r\n\r\n");
    reveal_strlit("\r\nUser-Agent: curf-healthcheck/0.1\r\nConnection: close\r\n\r\n");
    let end = "\r\nUser-Agent: curf-healthcheck/0.1\r\nConnection: close\r\n\r\n"@;
    let start = "GET "@ + path + " HTTP/1.0\r\nHost: "@ + host;
    assert(r =~= start + end);
    assert(r.take((start + "\r\n"@).len() as int) =~= start + "\r\n"@);
    let tail = "\r\nConnection: close\r\n\r\n"@;
    assert(r.skip(r.len() - tail.len()) =~= tail) by {
        assert forall|i: int| 0 <= i < tail.len() implies tail[i] == #[trigger] end[end.len()
            - tail.len() + i] by {}
    }
}

/// A status of success is one from 200 to 299. A backend that tells another, or
/// nothing, is not well.
pub proof fn law_two_hundreds_are_well(s: u16)
    ensures
        is_well(Some(s)) <==> s / 100 == 2,
        !is_well(None),
{
}

proof fn lemma_status_word(version: Seq<char>, gap: Seq<char>, status: u16, tail: Seq<char>)
    requires
        version.len() > 0,
        all_white(version, false),
        gap.len() > 0,
        all_white(gap, true),
        tail.len() == 0 || white_space(tail[0]),
    ensures
        crate::text::second_word(version + gap + decimal(status as nat) + tail) == Some(
            decimal(status as nat),
        ),
        read_u16(decimal(status as nat)) == Some(status),
{
    let digits = decimal(status as nat);
    let none = Seq::<char>::empty();
    law_decimal_stands_for_its_number(status as nat);
    law_numbers_are_read(status as nat, 0, false);
    assert(none + repeated('0', 0) + digits =~= digits);
    assert(all_white(digits, false)) by {
        assert forall|i: int| 0 <= i < digits.len() implies !white_space(#[trigger] digits[i]) by {
            assert(is_digit(digits[i]));
        }
    }
    law_second_word_is_found(none, version, gap, digits, tail);
    assert(none + version + gap + digits + tail =~= version + gap + digits + tail);
}

/// The status is read from an answer that is text: the number behind the first word,
/// whatever the white space between them, and whatever stands behind it.
pub proof fn law_status_is_read(
    version: Seq<char>,
    gap: Seq<char>,
    status: u16,
    tail: Seq<char>,
)
    requires
        version.len() > 0,
        all_white(version, false),
        gap.len() > 0,
        all_white(gap, true),
        tail.len() == 0 || white_space(tail[0]),
    ensures
        told_status(encode_utf8(version + gap + decimal(status as nat) + tail)) == status,
{
    let s = version + gap + decimal(status as nat) + tail;
    encode_utf8_valid_utf8(s);
    encode_utf8_decode_utf8(s);
    lemma_status_word(version, gap, status, tail);
}

/// What stands before the garbage of an answer is read as it is.
proof fn lemma_before_garbage(s: Seq<char>, garbage: Seq<u8>)
    requires
        is_ascii_chars(s),
    ensures
        s.is_prefix_of(answer_text(encode_utf8(s) + garbage)),
    decreases s.len(),
{
    let bytes = encode_utf8(s) + garbage;
    is_ascii_chars_encode_utf8(s);
    if valid_utf8(bytes) {
        if s.len() > 0 {
            let rest = s.drop_first();
            assert(is_ascii_chars(rest)) by {
                assert forall|i: int| 0 <= i < rest.len() implies '\0' <= #[trigger] rest[i]
                    <= '\u{7f}' by {
                    assert(rest[i] == s[i + 1]);
                }
            }
            let b = bytes[0];
            assert(b == s[0] as u8);
            assert(b & 0x7f == b) by (bit_vector)
                requires
                    b < 128,
            ;
            is_ascii_chars_encode_utf8(rest);
            assert(encode_utf8(s).skip(1) =~= encode_utf8(rest));
            assert(pop_first_scalar(bytes) =~= encode_utf8(rest) + garbage);
            lemma_before_garbage(rest, garbage);
            let text = decode_utf8(bytes);
            assert(text =~= seq![s[0]] + decode_utf8(encode_utf8(rest) + garbage));
            assert(text.take(s.len() as int) =~= s) by {
                let t = decode_utf8(encode_utf8(rest) + garbage);
                assert(t.take(rest.len() as int) == rest);
                assert forall|i: int| 0 < i < s.len() implies text[i] == s[i] by {
                    assert(t.take(rest.len() as int)[i - 1] == rest[i - 1]);
                }
            }
        } else {
            assert(decode_utf8(bytes).take(0) =~= s);
        }
    } else {
        let text = ascii_text(bytes);
        assert(text.take(s.len() as int) =~= s) by {
            assert forall|i: int| 0 <= i < s.len() implies text[i] == s[i] by {
                assert(bytes[i] == s[i] as u8);
            }
        }
    }
}

/// The status is read from an answer that begins as text, whatever bytes come then.
pub proof fn law_status_is_read_before_garbage(version: Seq<char>, status: u16, garbage: Seq<u8>)
    requires
        version.len() > 0,
        all_white(version, false),
        is_ascii_chars(version),
    ensures
        told_status(
            encode_utf8(version + seq![' '] + decimal(status as nat) + seq![' ']) + garbage,
        ) == status,
{
    let digits = decimal(status as nat);
    let s = version + seq![' '] + digits + seq![' '];
    let bytes = encode_utf8(s) + garbage;
    law_decimal_stands_for_its_number(status as nat);
    assert(is_ascii_chars(s)) by {
        assert forall|i: int| 0 <= i < s.len() implies '\0' <= #[trigger] s[i] <= '\u{7f}' by {
            if i < version.len() {
                assert(s[i] == version[i]);
            } else if i > version.len() && i < s.len() - 1 {
                assert(s[i] == digits[i - version.len() - 1]);
                assert(is_digit(digits[i - version.len() - 1]));
            }
        }
    }
    lemma_before_garbage(s, garbage);
    let text = answer_text(bytes);
    let tail = text.skip(s.len() - 1);
    assert(text.take(s.len() as int) == s);
    assert(tail[0] == s[s.len() - 1]);
    assert(text =~= version + seq![' '] + digits + tail) by {
        let t = version + seq![' '] + digits + tail;
        assert forall|i: int| 0 <= i < text.len() implies text[i] == t[i] by {
            if i < s.len() {
                assert(text.take(s.len() as int)[i] == s[i]);
            }
        }
    }
    lemma_status_word(version, seq![' '], status, tail);
}

/// An answer whose second word is no number tells no status: 0 is no status of success.
pub proof fn law_no_number_is_no_success(bytes: Seq<u8>)
    requires
        crate::text::second_word(answer_text(bytes)) matches Some(word) ==> read_u16(
            word,
        ) is None,
    ensures
        told_status(bytes) == 0,
        !is_well(Some(told_status(bytes))),
{
}

/// The backends after the checks of one of them have failed at each of `times`.
pub open spec fn after_failed_checks(
    lb: LoadBalancerView,
    backend: Seq<char>,
    times: Seq<u64>,
) -> LoadBalancerView
    decreases times.len(),
{
    if times.len() == 0 {
        lb
    } else {
        checked(
            after_failed_checks(lb, backend, times.drop_last()),
            backend,
            false,
            times.last(),
        )
    }
}

proof fn lemma_failed_checks(lb: LoadBalancerView, backend: Seq<char>, times: Seq<u64>)
    ensures
        after_failed_checks(lb, backend, times) == after_failures_of(lb, backend, times),
    decreases times.len(),
{
    if times.len() > 0 {
        lemma_failed_checks(lb, backend, times.drop_last());
    }
}

/// A backend that fails five checks in a row gets no request until 30 seconds after the
/// last of them.
pub proof fn law_failed_checks_keep_traffic_away(
    lb: LoadBalancerView,
    backend: Seq<char>,
    j: int,
    times: Seq<u64>,
    now: u64,
    client: Option<ClientIp>,
)
    requires
        first_with_url_at(lb.backends, backend, j),
        lb.backends[j].failures == 0,
        !lb.backends[j].circuit_open,
        times.len() >= 5,
        now < times.last() + 30,
    ensures
        after_failed_checks(lb, backend, times).choice(now, client) != Some(j),
{
    lemma_failed_checks(lb, backend, times);
    law_failed_backend_is_skipped(lb, backend, j, times, now, client);
}

/// A check that succeeds makes a backend well again at once, whatever it had failed
/// before, and tells nothing of the others.
pub proof fn law_passed_checks_bring_traffic_back(
    lb: LoadBalancerView,
    backend: Seq<char>,
    j: int,
    then: u64,
    now: u64,
    k: int,
)
    requires
        first_with_url_at(lb.backends, backend, j),
        0 <= k < lb.backends.len(),
    ensures
        checked(lb, backend, true, then).backends[j].healthy(now),
        checked(lb, backend, true, then).backends[j].failures == 0,
        k != j ==> checked(lb, backend, true, then).backends[k] == lb.backends[k],
        k != j ==> checked(lb, backend, false, then).backends[k] == lb.backends[k],
{
    lemma_first_with_url(lb.backends, backend, j);
}

/// All tasks are taken, in their order, with all their checks.
pub proof fn law_tasks_are_taken_whole(tasks: Seq<HealthTask>, t: int, c: int)
    requires
        0 <= t < tasks.len(),
    ensures
        tasks_view(tasks).len() == tasks.len(),
        tasks_view(tasks)[t].domain == tasks[t].domain@,
        tasks_view(tasks)[t].interval_secs == tasks[t].interval_secs,
        tasks_view(tasks)[t].timeout_secs == tasks[t].timeout_secs,
        tasks_view(tasks)[t].checks.len() == tasks[t].checks@.len(),
        0 <= c < tasks[t].checks@.len() ==> tasks_view(tasks)[t].checks[c] == (
            tasks[t].checks@[c].backend@,
            tasks[t].checks@[c].url@,
        ),
{
}

}
