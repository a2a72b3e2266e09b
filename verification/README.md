# rustle

A toolkit for OpenSSL 3 loadable providers whose logic is verified with
Verus: digest output bounds, parameter cells and descriptor tables, dispatch
tables, the adapters behind OpenSSL's digest callbacks, SHAKE's length and
phase rules, the provider's identity parameters and algorithm tables, and
the `#[vtable]` presence metadata.

Layout:

- `src/` — the verified library.
  - `params.rs`: parameter cells, read-only and writable views over
    parameter arrays, validated descriptor tables.
  - `digest.rs`: bounded output storage, the `Digest` interface, the
    dispatch table of a digest and the adapters serving its callbacks.
  - `bindings.rs`: dispatch entries, algorithm entries, the core handle.
  - `digests.rs`, `shakes.rs`: fixed-length digests and SHAKE over a hash
    or sponge supplied through a small trait.
  - `provider.rs`: a provider's identity parameters and per-operation tables.
  - `vtable.rs`: which presence constants `#[vtable]` generates, and when it
    refuses an item.
- `tests/` — tests of the library.
- `app/` — the C side: callbacks over raw pointers, context boxes, static
  C tables, the bc-rust hashes behind the library's traits, and the syntax
  side of `#[vtable]`.
