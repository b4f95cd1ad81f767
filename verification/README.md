# senders

End-to-end encrypted file sharing, as a verified library.

A 32-byte secret travels only in the URL fragment of a share link. The
client derives three keys from it (content, metadata, download auth),
seals the file in 64 KiB AES-256-GCM records under a STREAM nonce layout,
and uploads ciphertext plus a sealed metadata blob. The server keeps only
ciphertext, the metadata blob and SHA-256 digests of the download key and
of an owner token; it enforces the download budget and expiry.

## Layout

- `src/` — the library, verified with Verus.
  - `wire.rs`, `stream.rs`, `header.rs` — wire types, the record length
    arithmetic and the nonce layout.
  - `b64.rs`, `link.rs`, `passphrase.rs`, `text.rs` — encodings, share
    links, passphrases and the character-level helpers underneath.
  - `primitives.rs` — the trusted boundary to the cryptography, encoding,
    randomness and clock crates.
  - `server/` — metadata store, request rules, sessions and login
    decisions, page and policy rendering, storage decisions.
  - `client/` — key derivation, record sealing and the streaming
    sealer/opener, link parsing, command decisions, localisation.
- `tests/` — tests of the library on concrete values.
- `app/` — the server and command-line binaries around the library:
  HTTP, storage I/O, Redis, OpenID Connect and terminal output.
