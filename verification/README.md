# aerosuite

The decisions of an FTP fleet and of its load test, as a library whose behaviour
is stated in contracts and proved by Verus.

## Layout

| Path        | What it holds                                                        |
|-------------|----------------------------------------------------------------------|
| `src/infra` | Signed AWS requests, Auto Scaling answers, Redis keys, slot addresses |
| `src/scale` | Snapshot of the backends, cleanup, scaling, weights, metrics          |
| `src/coach` | Load-test controller: plans, agents, slice clock, dashboard, records  |
| `src/gym`   | Load-test agent: plan, rate limit, files, session                     |
| `src/pulse.rs` | keepalived configuration and scripts                               |
| `src/plug.rs`  | ENI lookup, attachment and takeover                                |
| `src/scrape.rs` | Endpoint discovery, credentials, recorded samples                 |
| `src/ftp.rs`   | Session users, upload results, data events                         |
| `src/proto.rs` | Messages between the controller and its agents                     |
| `src/text.rs`, `src/order.rs`, `src/template.rs`, `src/json.rs` | Texts, sorting, templates, JSON objects |
| `tests`     | What the library does on given values                                |
| `app`       | The programs: arguments, network, files, timers                      |

## How the parts meet

Every decision is a function from plain values to plain values. The programs in
`app` read files, sockets and clocks, hand the library what they found, and carry
out what it decides. Where a function needs the time or a random number, a second
function takes it as an argument and has the exact contract.

Numbers with a fraction (rates, averages, percentages) are computed in `app`. The
library takes them as comparisons that were already made, as text, or as bits.

Calls into other crates stand behind functions marked
`#[verifier::external_body]`; the comment above each says what is taken on trust.
Laws that relate several functions are proof functions whose names begin with
`law_`.
