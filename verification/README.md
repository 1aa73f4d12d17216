# curf

A simple, fast reverse proxy and web server whose decisions are verified with
[Verus](https://github.com/verus-lang/verus).

- `src/` is the library. It decides: which backend serves a request, whether a
  request is allowed, which file a URL stands for, what a reply says. What its
  functions do is stated in contracts that Verus has proved. Two kinds of function are
  the exception: the few that wrap a call of other code, whose contracts are stated next
  to the call and taken as true, and the two that read a clock, of whose readings nothing
  is claimed.
- `app/` is the program around it. It reads the configuration, accepts connections,
  reads files and talks to backends, and does what the library decides.
- `tests/` runs the library.

| Module | What it is about |
| --- | --- |
| `load_balancer`, `load_balancer_laws` | round robin, least connections, ip hash, circuit breakers |
| `health_check` | what is checked, and what an answer means |
| `rate_limit` | token buckets |
| `security`, `security_laws` | connections per client, TLS abuse, request patterns |
| `listener` | what becomes of a connection |
| `proxy`, `proxy_laws` | what becomes of a request |
| `static_files`, `paths`, `dates` | files, directories, caching |
| `ssl` | certificates and keys |
| `headers`, `request`, `reply`, `error` | HTTP messages |
| `config`, `client`, `clock`, `shared_map`, `text` | what the others are built from |

Functions whose name begins with `law_` state what is true of the library as a whole.
Some stand in modules of their own, such as that round robin is even among the healthy
backends (`load_balancer_laws`), others beside what they speak of: that no client gets
more requests through than its rate allows (`rate_limit`), that no URL leads out of the
directory that is served (`paths`).
