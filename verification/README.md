# rust_demo

A verified library of trading-system and blockchain building blocks, written in Verus:
order books, a Merkle Patricia trie with an account database, a bundle simulator,
inline caches, guard and range classifiers, iterator pipelines, lifetime-bound views,
interior-mutability patterns, file-format and journal logic, and the checks around
foreign calls. Each public function carries a `requires`/`ensures` contract proved by
Verus, and the laws that relate several calls (round trips, invariants, counts after
many calls) stand as public proof functions next to the code they speak of.

## Layout

- `src/` — the verified library, one module per topic (`orderbook`, `merkle_patricia`,
  `mev_simulator`, `inline_caching`, `guards_ranges`, `iterators`, `lifetimes`,
  `interior_mutability`, `generics`, `file_io`, `ffi`, `macros`) and shared helpers
  (`bytes`, `decimal`, `text`, `assoc`, `arith`). Calls into outside crates (sha3,
  rayon, bumpalo) and into std where vstd gives no specification sit behind small
  trusted wrappers whose doc comments say what is assumed.
- `tests/` — tests run against the compiled library with the real outside crates.
- `app/` — a command-line runner: file and kernel I/O (libc, memmap2), threads,
  foreign-function entry points and floating-point ratios, around the library's logic.
  Run it with a topic name (`orderbook`, `merkle`, `mev`, `file-io`, ...) or with none
  to run every topic.
