# compact_str

A string type that keeps strings of up to 24 bytes in place, in a fixed buffer inside the value
itself, and moves longer ones to a heap buffer; it can also refer to `'static` text without
copying it. The value is an enum of these three kinds, so it is larger than a `String`. Every
operation is written in Verus and proved against a contract stated over the characters the string holds (`decode_utf8` of its
bytes) and, where it matters, over its storage (inline, heap or `'static` text, and capacity).

Layout:

- `src/lib.rs` — `CompactString` and its operations (construction, push/pop, insert/remove,
  ranges, draining, capacity management, retaining).
- `src/impls.rs`, `src/ordering.rs` — equality, ordering, conversions and `+`.
- `src/repr/` — the representations: the inline buffer, the boxed heap buffer and its packed
  capacity word, `'static` text, shared (`Arc`) buffers, decimal formatting of integers, and
  building from characters, slices or chunked buffers.
- `src/unicode.rs`, `src/utf16.rs`, `src/buffer.rs` — UTF-8 and UTF-16 facts and byte copies.
- `src/laws.rs` — properties that span several operations.
- `src/modify.rs` — replaying edits on a `String` and a `CompactString`, proved to keep them
  equal.
- `src/std_calls.rs` — the few standard-library calls whose behaviour is taken on trust.
- `app/` — unverified glue: reading `bytes::Buf`, formatting floats with `ryu`, `format!`.
