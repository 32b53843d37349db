# EventfoldDB

A lightweight, single-node event store for event sourcing and CQRS: an
append-only log of domain events with optimistic concurrency, ordered reads by
stream and globally, catch-up-then-live subscriptions, and an interactive
terminal console.

## Layout

- `src/` is the library, verified with Verus:
  - `types`, `error`: domain types and the error type with its messages.
  - `codec`, `crc`: the binary log format (file header, batch envelopes,
    checksummed records) with encoders, decoders and round-trip lemmas.
  - `log`, `append`: the in-memory index, its reads, and the planning and
    committing of appends (expected-version check, event validation, batch
    encoding).
  - `recovery`: rebuilding the index from a log file (a damaged tail is
    truncated, damage followed by a valid batch is refused), with the laws
    that any sequence of appends survives a restart and that a truncated
    tail recovers cleanly.
  - `dedup`, `writer`: the LRU idempotency cache and the single writer's
    decisions, with the laws that a retried batch is answered with the events
    it recorded and that an id keeps its batch until it is evicted.
  - `broker`: the catch-up and live-forwarding decisions of subscriptions,
    with the law that replay then live delivers every position once.
  - `proto`, `service`, `ids`, `text`: protocol messages and conversions,
    status codes, UUID and decimal text.
  - `console`: the console's state machine, key mapping, stream summaries
    and display helpers; `lex` orders strings as Rust does.
- `app/` is the program around it: the log file, the writer task, the
  broadcast channel, the gRPC binding, the metrics endpoint and the terminal
  user interface. Run as `eventfold-console` it starts the console.
- `tests/` exercises the library.

## Running

```sh
EVENTFOLD_DATA=/path/to/log.bin \
EVENTFOLD_LISTEN=[::]:2113 \
EVENTFOLD_BROKER_CAPACITY=4096 \
EVENTFOLD_METRICS_LISTEN=[::]:9090 \
eventfold
```

The console (`eventfold-console --addr http://[::1]:2113`) also takes
`--tls`, `--tls-ca`, `--tls-client-cert` and `--tls-client-key`. The
certificate and key must be given together; the gRPC transport built here has
no TLS support, so a TLS connection is refused with an error.
