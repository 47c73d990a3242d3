# celld_storage

The storage rules of a cell host, verified with Verus.

A cell is an actor with a SQLite database of its own. Its WAL is captured into LTX
files, which are uploaded to an object store; ownership of a cell is decided by
conditional writes to the same store. This crate holds what is decided along the
way. It opens no file and sends no request: it is handed what SQLite, the file
system and the store answered, and says what follows.

## Layout

- `src/storage/`: a cell's storage. Key-value reads and writes, alarms, positions of
  the output gate, SQL cursors with their statement cache, the SQL authorizer,
  transactions with the facet images that wait for them, and D1 requests.
- `src/ltx/`: replication. The check of a WAL against the last LTX file, what a
  capture writes, checkpoints, snapshots, restore plans and images, uploads, and the
  client's configuration.
- `src/bucket/`: one bucket. Addresses and credentials, conditional writes, blobs,
  listings, and the probes of a store.
- `src/local_*.rs`: the development store on one machine.
- `src/text.rs`, `src/numbers.rs`, `src/text_map.rs`: texts, numbers, and maps keyed by
  text.
- `tests/`: what the functions answer on given values.
- `app/`: the node around the library. SQLite, files, HTTP and async code.

## Reading the contracts

A function's contract speaks of spec functions that stand above it. Where a rule
spans several functions, a `law_` proof function states it; the functions' own
contracts use the same spec functions. Where an outside crate decides, its result is
named by a spec function without a body, and the wrapper beside it says which call it
names.
