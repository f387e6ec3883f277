# bitdex

The core of a bitmap index service, written in Verus: what the service decides and computes is
executable Rust whose behaviour is stated in contracts and proved.

## Layout

- `src/query.rs`, `src/query_metrics.rs`, `src/planner.rs`, `src/prefilter.rs`: queries, their
  texts and traces, the order in which clauses are evaluated, and prefilters that stand for common
  clauses.
- `src/radix_sort.rs`, `src/filter.rs`, `src/bitmap.rs`, `src/time_buckets.rs`: bitmaps and what is
  built from them.
- `src/config.rs`, `src/preset.rs`: settings and overlays of settings.
- `src/pg_sync/`: SQL of the triggers that record changes of a database.
- `src/relay/`: a relay from HTTP requests to event streams: its settings, who may use it, what it
  emits, and which capture files it keeps.
- `src/server/`: the HTTP service: documents, tasks, dictionaries, fields, changes of settings,
  dumps, the operations log, memory and metrics.
- `src/text.rs`, `src/pairs.rs`, `src/json.rs`, `src/calendar.rs`: texts, named lists, JSON values
  and dates.
- `tests/`: the library on concrete values.
- `app/`: ordinary Rust around the library: HTTP handlers, files, clocks, metrics.

## Conventions

A type has a view where its contracts speak of it as a mathematical value. Named lists of pairs
(`Vec<(String, _)>`) are read as maps by `pairs::pairs_map`. Public proof functions whose names
begin with `law_` state what holds of several functions together.

What is taken from outside crates and from the standard library without proof stands in functions
marked `external_body` and in `assume_specification` items. The comment above each says what is
claimed.
