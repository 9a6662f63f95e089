# practice

A collection of small Rust programs, with their logic in a library that
Verus verifies.

- `src/` is the library. Each module states in contracts what its
  functions return, and proves laws that relate them:
  - `chain`: plugs run in turn over a context, with reruns, replacement and
    early stops;
  - `channel`: the state and decisions of a bounded multi-producer channel;
  - `kv`: a key-value service: its messages, the framing of messages on the
    wire (with gzip for large payloads), its store and how it answers;
  - `counter`: metrics kept in memory and their mean;
  - `grep`, `httpie`, `text`, `fetcher`, `loader`, `thumber`: the decisions of a
    grep tool, an HTTP client, a query engine's data sources and an image
    service;
  - `hashing`: the hash a line server answers with, also the key of the
    image cache;
  - `abc`, `lock`, `routeguide`: small pieces of the other programs.
- `app/` holds what does I/O: the threaded channel, servers, command-line
  tools, the protobuf encoding of the key-value messages.
- `tests/` runs the library.
