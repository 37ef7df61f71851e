# http-replay-bench

A load generator for benchmarking distributed storage over HTTP. It replays
recorded access patterns, or requests random ranges, against many URLs at once.

- `src/` is the library: traces and the range requests that replay them, the
  checks on responses, the pool of URLs, the clients, the search for bearer
  tokens and the tallies of the heads-up display. Verus proves the contracts of
  its functions, all but what is named next. The library does no input or
  output: it says what to do next and is told what came of it.
- `src/gzip.rs`, `src/header.rs`, `src/random.rs` and `src/user.rs` hold the
  wrappers around, and the specifications of, functions of `flate2`, `http`,
  `rand`, `sha2` and `nix`. Their contracts are believed, not proved. Of the
  results of `random_seed`, `entropy_generator` and `current_uid` nothing is
  promised.
- `tests/` runs the library on concrete values.
- `app/` is the program: command line, files, HTTP, threads, terminal.
