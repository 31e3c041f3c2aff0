# AetherLink

The logic of a VPN with a userspace network stack, written and verified in
[Verus](https://github.com/verus-lang/verus).

- `src/` is the library. Every item in it is verified: cryptographic framing, the
  multiplexer, IPv4/TCP/UDP packets, the packet pump, routing rules,
  configuration, the steps that bring a tunnel up and undo them, and the decisions
  behind the C interface. Calls into other crates stand behind small functions
  whose contracts say what is relied on.
- `tests/` runs the library on concrete values.
- `app/` is ordinary Rust around it: TLS, sockets, threads, files, the operating
  system's commands, and the C and JNI entry points.

| module | what it holds |
| --- | --- |
| `buf`, `text`, `table`, `net` | byte buffers, text, text tables, IPv4 addresses |
| `protocol` | frame types and address types |
| `crypto` | AEAD, tokens and replay protection, key derivation |
| `frame` | headers, payloads, padding, the replay window |
| `mux` | streams, flows and sealed frames |
| `netstack` | packets, the TUN device, snapshots and rollback, socket events |
| `engine` | configuration documents and the handshake |
| `client` | configuration, routing, platform, lifecycle and its rehearsal in memory, pump |
| `ffi` | handles, calls by handle, staged values, result codes |

Laws that span several functions are public proof functions beside them.
