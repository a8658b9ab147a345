# mcanbus

SocketCAN for Linux, with its logic proved in [Verus](https://github.com/verus-lang/verus).

| Directory | What it holds |
| --------- | ------------- |
| `src/`    | The library: frames, sockets, interfaces, ISO-TP, fan-out, and the rules of the server. Verus checks all of it against its contracts. |
| `app/`    | `socketcan-mcp`, a [Model Context Protocol](https://modelcontextprotocol.io) server on top of the library, with the system calls, threads and files. |
| `tests/`  | Tests of the library. |

## The library

The library does no I/O. Where something is to be done with the outside world it
says what, and is told what came of it:

| Module    | Says                                  | Is told                               |
| --------- | ------------------------------------- | ------------------------------------- |
| `isotp`   | send this frame, pause, receive       | sent, paused, a frame, time is up     |
| `iface`   | look up, exchange these bytes, sleep  | an index, a reply, an error number    |
| `socket`  | the next stage of opening a socket    | granted, refused                      |
| `reader`  | pause, try again, fan out             | what a reception brought              |
| `server`  | a plan for a tool, or why it refuses  | frames, for a capture                 |

Besides what each function does, laws are proved that span several of them
(`law_...`): a frame survives the wire, a segmented response is reassembled, a
refusal of something optional never fails the opening of a socket, every frame
of every batch is offered exactly once and in order to a subscriber that stays, and
is either received or dropped (never dropped where the queue is unbounded), no bus
is touched that is not on the allowlist.

Integers in kernel structures stand in the byte order of the machine. Functions
that read or write them take that order; `bytes::native_order` finds it out.

## What is taken on trust

The queues of subscribers are channels of `crossbeam-channel`. What is believed of
them stands in `reader.rs`, next to the calls. Of the standard library, the
contracts of `String::push`, `Arc::clone` and `u16::to_ne_bytes` are believed.

The counts that a subscriber reads go through atomics. It is proved which numbers
the reader writes there, and nothing of what a read gives back.

## The server

The server is configured by environment variables:

| Variable                   | Effect                                                                      |
| -------------------------- | --------------------------------------------------------------------------- |
| `SOCKETCAN_MCP_INTERFACES` | Comma-separated allowlist (`vcan0,can0`). If unset, every send/capture call fails. |
| `SOCKETCAN_MCP_READONLY`   | When `1`/`true`/`yes`/`on`, send-side tools refuse.                         |
| `RUST_LOG`                 | Standard `tracing` filter; defaults to `info` on stderr.                    |

| Tool               | Description                                              | Gated by             |
| ------------------ | -------------------------------------------------------- | -------------------- |
| `list_interfaces`  | Every CAN-class interface with state and bitrate.        |                      |
| `iface_state`      | Status of one interface.                                 |                      |
| `capture`          | Listen, and return up to `max_frames` matching frames.   | allowlist            |
| `send_frame`       | Transmit a single frame.                                 | allowlist + writable |
| `send_and_capture` | Transmit and capture replies in the same call.           | allowlist + writable |
| `isotp_request`    | ISO 15765-2 request/response.                            | allowlist + writable |

It cannot bring interfaces up or down, or change their bitrate.

MIT license.
