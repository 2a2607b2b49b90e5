# titan

A verified core for a rule-based local proxy toolkit, written in Verus.

- `src/` is the library. Every function in it carries a contract that Verus
  proves: configuration and subscription parsing (share links, base64
  bundles, provider headers), proxy-group resolution with health tracking,
  session bookkeeping, DNS queries and responses, the TUN bridge's TCP state
  machine, and the wire formats of SOCKS5, HTTP CONNECT, VLESS and VMess,
  down to the sealed VMess request (MD5 instruction key, nested HMAC key
  derivation, AES-128-GCM sealing). Calls into outside crates (base64, url,
  urlencoding, serde_json, uuid, crc32c, aes, aws-lc-rs, rand, chrono) and into std's path and hashing functions go
  through small trusted wrappers whose contracts name what they return.
- `app/` is the command-line tool around it: argument parsing, files, HTTP
  requests to subscription providers and to the running API, YAML and JSON
  through serde, and printing.
- `tests/` runs the library on concrete values, including the byte layouts
  that the protocol handshakes put on the wire.
