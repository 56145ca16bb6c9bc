# armonik_api

The verified core of the ArmoniK API tooling: the logic the protobuf-driven macros decide with,
and the configuration and error handling of the legacy .NET client's C ABI, proved with Verus.

## Layout

- `src/` — the library, every function verified against its contract.
  - `descriptor`, `index`, `indexer`: the descriptor set's files flattened into an index of
    messages, enums and services, with cleaned-up proto comments (`comment`) and the
    fingerprint of the bytes the files came from.
  - `matcher`, `shape`, `oneof`, `enumeration`, `expect`, `item`: resolving an annotated Rust
    item against the index into a plan, with every diagnostic and where it points.
  - `emit`: what the plans emit, as plain values — slots and arms in tag order, the checks each
    is asserted with, the enumeration's value-level items and wire form.
  - `grammar`, `service`, `client`: the `service!` grammar over its tokens, the lines checked
    against the service's methods, what an invocation emits, the client convenience methods
    (projection and the widening of each request field by its sugar class), and the
    hand-written client methods' docs and claims.
  - `names`, `text`, `order`: identifier case conversion, string helpers, stable sorts.
  - `buffer`, `config`, `error`: the byte buffers, the connection settings and the error
    reporting of the C ABI.
- `tests/` — tests on concrete values.
- `app/` — the unverified boundary: the C ABI's raw buffers and panic guard, reading and
  decoding `descriptor.bin` with `prost` (a field's type is prost's raw identifier `r#type`,
  which the Verus sources cannot name, so the conversion to the library's `FileProto` is made
  there), the `service!` tokens (flattening its input, spelling
  its emission) and the tokens of an enumeration's expansion.

Not here: the `#[proc_macro]` entry points themselves (only a proc-macro crate can define them),
the token spelling of the message and oneof emissions (their models are in `emit`), the
`#[armonik(...)]` attribute parsing, which is `darling`'s derive, and the client connection
(`ak_client_create`), whose transport crate is the project's own.
