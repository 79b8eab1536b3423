# snowpack

An authenticated, encrypted transport for long-lived connections between the nodes of a
cluster, built on the Noise protocol framework (XX pattern, X25519 + AES-GCM + BLAKE2b).

- `src/` is the library, verified with Verus. It performs no input or output: handshakes,
  sending, receiving and reconnecting are state machines that hand out the frames to write
  and take the frames that were read.
- `app/` runs those machines over tokio streams and tasks, and gives the library's types
  their serde and `std::error::Error` faces.
- `tests/` runs the library with the real cryptography.

## Modules

| Module | What it holds |
|---|---|
| `node_id`, `noise`, `sign`, `auth` | identities, keys, signatures, auth headers |
| `handshake` | the XX handshake and the authentication that it carries |
| `packet_state`, `packets`, `messages`, `transport` | from payloads to wire bytes and back |
| `delivery` | what sending and receiving add up to |
| `pool` | the decisions of the connection pool |
| `bytes`, `hex_text`, `tlv` | big-endian numbers, hexadecimal text, tagged fields |
| `secret`, `snow_state`, `show` | what is relied on of `secrecy`, `snow` and `core::fmt` |

## On the wire

A frame is a 2-byte big-endian length and that many bytes. During the handshake these are
the three Noise messages; the second and third carry a signed auth header each. Afterwards
they are one encrypted packet each: 2 bytes of header (4 bits of packet kind, 12 bits of
message type) and up to 65517 bytes of payload.

A signed auth header is a frame of tagged fields (1 is the node id, 2 the X25519 public
key, 3 the optional role) followed by the cluster's 64-byte ED25519 signature on it.
