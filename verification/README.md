# tapline

Steam's protobuf messages with a verified wire codec, and the verified decisions of the
client runtime that carries them.

## Layout

- `src/wire/` — the protobuf wire format: varints, fixed-width values, keys and whole
  records, each with a byte-level specification and a proof that what is written reads back.
- `src/codec.rs` — how each kind of declared field becomes records and back, the fold
  that turns a run of records into a message, and the record-by-record reading that `merge`
  performs (which keeps what was read when a bad record stops it).
- `src/steammessages_*`, `src/content_manifest*`, `src/enums_productinfo.rs` — the message
  types of Valve's schemas. Each message has a mathematical view; `decode`, `merge` and
  `encode_to_vec` are specified over it, and `lemma_decode_encode` proves that decoding an
  encoding gives the message back, `lemma_unknown_field` that records the message does not
  declare are passed over.
- `src/rpc.rs` — the binding of a unified-service request to its response and target.
- `src/text.rs` — searching text, trimming, case folding and the standard library's number
  syntax, specified.
- `src/directory.rs` — reading the connection-manager directory's answer and ordering its
  servers by load; the order is proved sorted, stable and a permutation.
- `src/http.rs` — URLs, response heads, body framing, chunked bodies and request heads.
- `src/tls.rs` — endpoints, base64 and the WebSocket upgrade handshake.
- `src/ws.rs` — WebSocket frame heads, masking (proved self-inverse) and message assembly.
- `app/` — the sockets, TLS, pooling, files and async loops around the library.
