# peeroxide

Rules of a peer-to-peer node, written in Rust and proved with Verus: the blind-relay protocol and
its pairing engine, the analysis of the NAT in front of a node, the bookkeeping of a swarm that
joins topics and dials peers, and the compact binary encoding of their messages.

## Layout

`src/` is the library. Every function states what it does in `requires` and `ensures`, and none of
them panics on an input that its `requires` admits. Nothing in it waits, sends or reads a clock:
time and what came of outside work are arguments, and what has to be done is returned. A function
that draws at random hands its draw to one that takes it as an argument, and that one says exactly
what comes of it.

| Module | What it holds |
|---|---|
| `compact_encoding` | Cursor over a buffer, scalars, arrays, IP addresses; `laws` has the round trips |
| `messages`, `hyperdht_messages` | Responses of DHT nodes, handshake and holepunch messages |
| `blind_relay` | Messages of the relay protocol (`codec`), the pairing engine (`server`, `bridging`), its sessions (`session`), the client (`client`), and what holds across operations (`laws`) and after any run of them (`history`) |
| `relay_service` | Handshakes of a relay, bridges of matched pairings, the periodic sweep |
| `relay_command` | Options of the relay command |
| `nat_analysis` | Verdict on the NAT from the addresses that other nodes report |
| `socket_pool` | What arrives on a hole punching socket, and what is sent on it |
| `peer_discovery`, `peer_info` | Refreshes of a topic, what is known of a peer |
| `swarm` | Retry delays and tie breaks; `state`, `handshake`, `holepunch` and their `laws` |
| `ip`, `ip6`, `ascii`, `le`, `bytes`, `counter`, `table` | Text forms of addresses, numbers and keys, a keyed table |
| `outside` | The calls into `rand`, `hex` and the standard library whose contracts are taken on trust |

Statements about several operations, or about every state, are public proof functions whose names
begin with `law_`.

`tests/` runs the library on concrete values. `app/` is ordinary Rust around it: the loops that wait
for sockets, timers and channels, the command line, and the error types with their standard traits.
The transport, the handshake cipher, the multiplexer and the DHT node are traits there.
