# palisade

An HTTP reverse proxy whose decisions are verified with Verus.

- `src/` is the library. It screens requests, balances them over weighted
  backends, tracks the health of each backend, rewrites URIs and headers in
  both directions, decides which response bodies are masked, keeps the metrics
  and answers the administrative listener. Verus proves the contract of every
  function but the trusted ones below.
- `app/` puts the library on the network with `hyper`, `tokio` and `rustls`.
- `tests/` runs the library on concrete values.

## Modules

| Module        | What it holds                                                    |
|---------------|------------------------------------------------------------------|
| `round_robin` | Smooth weighted round-robin over integers, and its laws.         |
| `balancer`    | The balancer over a pool of backends.                            |
| `upstream`    | The health record of a backend: ejection, cooldown, readmission. |
| `headers`     | Connection headers, forwarding headers, framing checks.          |
| `proxy`       | The request path from screening to the completed response.       |
| `sequence`    | The sequence numbers of requests.                                |
| `metrics`     | What is counted, and how a scrape shows it.                      |
| `admin`       | Metrics, liveness and readiness answers.                         |
| `tls`         | Certificates, the TLS acceptor and the upstream connectors.      |
| `uri`, `text` | URIs, and the short ASCII texts in header values.                |
| `config`, `error` | Settings of the request path, and reasons for not answering. |
| `header_map`, `prometheus` | Contracts for the outside crates' collections.      |

## What is trusted

Calls into other crates stand in small functions marked
`#[verifier::external_body]`, in `header_map`, `prometheus`, `uri`, `tls`,
`upstream` and `proxy`. The comment above each names the function that it
calls and says what its contract claims of it.

Time is told to the library: an operation that reads the clock has a twin with
the suffix `_at` that takes the time, and the contract of the one that reads it
says that the time of some reading was used. Of floating-point numbers, in the
latency histogram, the contracts say which observations they were made of and
not what they come to.

State that requests share is changed through `&mut`. Whoever shares it between
threads puts a lock around it.
