# fips_browser

A FIPS mesh node for the browser, verified with Verus: the link protocol (Noise IK, FMP framing,
replay protection, tree and filter announces, link measurements), the end-to-end session protocol
(Noise XK, FSP framing), IPv6 over sessions, local `.fips` name resolution, and the state machines
behind the WebSocket and WebTransport carriers.

## Layout

| Path | What it holds |
|------|---------------|
| `src/bytes.rs`, `src/text.rs` | integers in bytes, numbers and names in text |
| `src/crypto.rs` | what is taken from cryptographic crates, as trusted functions |
| `src/identity.rs` | keys, node addresses, npub and nsec |
| `src/cipher.rs`, `src/replay.rs` | cipher states and the replay window |
| `src/noise.rs`, `src/noise_xk.rs` | the IK and XK handshakes |
| `src/wire.rs`, `src/fmp.rs` | link and session framing |
| `src/tree.rs`, `src/bloom.rs`, `src/mmp.rs` | announces, filters and receiver reports |
| `src/ipv6.rs`, `src/dns.rs` | IPv6 shim, ICMPv6 echo, `.fips` names |
| `src/session.rs`, `src/node.rs` | sessions, and the node that ties it all together |
| `src/transport/` | carriers: life cycle, connections, statistics, receive loops |
| `src/echo.rs` | the datagram echo service of the demo server |
| `tests/` | tests on concrete values |
| `app/` | JavaScript bindings, sockets and tasks, and the demo server |

## How to read the contracts

Each stateful type has a model, a plain value that its view (`@`) gives: `FipsNode` has
`NodeModel`, `SessionManager` has `SessionsModel`, and so on. Each step is a spec function from a
model to the next model and a result (`node_incoming`, `sessions_send`, `links_poll`), and the
executable method is proved to take exactly that step.

Time and randomness come in as arguments: `process_incoming` reads the clock and draws keys, and
`process_incoming_at` takes both. Functions named `law_...` state what holds across steps, such as
that a handshake leaves both ends with each other's ciphers, that what one end sends the other end
reads, and that nothing is accepted twice.

What is believed without proof is marked `#[verifier::external_body]` and says so in its comment:
`src/crypto.rs` for hashing, AEAD, secp256k1, randomness, bech32 and hex; two functions in
`src/dns.rs` for DNS wire format; two in `src/text.rs` for UTF-8; and the system clock in
`src/wire.rs`.
