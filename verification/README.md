# async_proto

A library for simple binary network protocols: values are written to and read from
byte streams in a compact, self-delimiting binary representation.

The library in `src/` is verified with Verus. Each type's representation is given by the
`Protocol` trait as a pair of specifications, `spec_encode` and `spec_decode`, over a
mathematical model of the value, and `spec_error_consumed` says how far a failed read
gets before it stops; `read_sync` and `write_sync` are proved to follow them,
and the laws in `src/protocol.rs` (reading what was written gives it back, representations
are unambiguous and self-delimiting, a partial representation reads as an early end of
input) are proved for every implementation.

Layout:

- `src/protocol.rs`: the `Protocol` and `Canonical` traits and the laws over them.
- `src/stream.rs`: the in-memory byte stream that values are read from.
- `src/error.rs`: read and write errors, their contexts and their I/O error kinds.
- `src/endian.rs`, `src/impls/`: the representations of integers, `bool`, tuples, arrays,
  vectors, strings, options, results, ranges, and of types from other crates.
- `src/derived.rs`: the derived representation of structs and enums (discriminants,
  field errors, proxies).
- `src/length_prefixed.rs`, `src/nonempty.rs`: length prefixes with a maximum, and
  non-empty collections.
- `src/buffered.rs`: reading from a buffer fed by a possibly non-blocking stream.
- `src/websocket.rs`: values carried in WebSocket messages.
- `app/`: the unverified adapters: blocking and asynchronous I/O, WebSocket connections,
  error types with `std::error::Error`, floats, and the collections whose contents follow
  the `Ord`, `Eq` or `Hash` impls of their elements.

What is not here:

- There is no `derive(Protocol)` macro. The derived representation of structs and enums
  is given by its parts in `src/derived.rs`: discriminants of the width the variant count
  needs, fields held in `NamedField` or `IndexedField` and read as tuples, proxies
  (`read_via`, `write_via`), strings (`read_as_string`) and flag bits.
- The representations of types from `serde_json`, `chrono-tz`, `enumset`,
  `noisy_float`, `url`, `os_info`, `doubloon` and `serenity` are not provided, nor a
  representation of `Cow<B>` for borrowed types other than `str`.
- Non-empty vectors are read and written as the library's `NonEmptyVec` (a vector with
  an element, whose contents the contracts state); `app/` converts them to and from
  `nonempty_collections::NEVec`.
- A blob whose compressed bytes hold an array or list of negative length is not read: the
  NBT decoder panics on it, and `read_blob` requires that the decoder returns.
