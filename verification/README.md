# distributed-api-layer

A telemetry ingestion service (HTTP and gRPC front-ends, a Redis caching tier for
event deduplication and counters, a Kafka event bus) whose decisions are verified
with Verus.

- `src/` — the verified library:
  - `text`: `str::split`-style pieces, Unicode trimming, comma-separated lists;
  - `config`: resolution of the environment into a `Config`, decimal parsing;
  - `tiers`: how the cache tier and event bus are reached, cache keys, how a
    cache answer decides whether an event is new;
  - `framing`: splitting a newline-delimited body into frames as chunks arrive;
  - `ingest`: the step machine that drives one frame's ingestion, stream totals.
- `app/` — the program: environment, sockets, Redis, Kafka, axum and tonic, which
  perform the actions that the library decides.
- `tests/` — tests of the library on concrete values.
