# patchbay

The decision logic of an OpenAI-compatible LLM gateway, written in
[Verus](https://github.com/verus-lang/verus): routing with type-enforced
privacy, Bearer-token authentication, configuration resolution, a byte-faithful
SSE relay with usage interception, and Prometheus metrics. Every function of the
library carries a contract, and what the gateway promises as a whole is stated
and proved.

## Layout

- `src/`: the verified library.
  - `config/`: what a raw configuration resolves to (`model.rs`), the code that
    resolves it (`resolve.rs`), and what holds of every configuration that
    resolves (`laws.rs`).
  - `auth.rs`: the key table, the `Authorization` header, and who gets in.
  - `router.rs`, `router_laws.rs`: candidates, policies and selection; no private
    request reaches an `External` backend, whatever the policy.
  - `upstream/`: the incremental SSE scanner (`sse.rs`), the relay (`relay.rs`)
    and the requests sent upstream (`client.rs`), with their laws.
  - `metrics.rs`, `metrics_laws.rs`, `metrics_history.rs`: counters, their
    exposition, and what they tell of any history of records.
  - `text.rs`, `text_order.rs`, `binary64.rs`: strings and their order, and `f64`
    bit patterns.
- `app/`: the binary around it: files, environment, HTTP, timers, JSON and TOML.
- `tests/`: tests of the library.

## What is not proved

Verus takes the contracts of three outside functions on trust: `String::push`
appends a character, a clone of an `Arc` points to the same value, and
`<bytes::Bytes as AsRef<[u8]>>::as_ref` gives the held bytes. Floating-point arithmetic, parsing of TOML and JSON, and everything that
reads or sends stand in `app/`.
