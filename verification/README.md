# shellglass

Mirrors an interactive terminal command to any number of viewers. The library holds what the mirror
decides. Its functions are verified with Verus, but for the few that call other crates and are
believed (see below).

## Layout

- `src/vt/` is the terminal: cells, rows, grids and the screen, the control functions that act on
  them (`dispatch`, `osc`), the text and the escape sequences that a screen is written out as
  (`contents`, `format`, `state`), and what holds of all that (`laws`, `replay`).
- `src/diff/` is the wire: the messages that carry a screen and its changes as JSON, their reading
  and applying, the store of image payloads, and the stream that viewers follow.
- `src/pty/` is a session in a pseudo-terminal: what the terminal can do, when a frame is published,
  how images are tracked, what the screen did not know.
- `src/session.rs` is a session without a terminal of its own, and the protocol by which terminals
  attach to it.
- `src/client.rs` is the push to a hub, `src/cli.rs` and `src/api.rs` are the options, `src/model.rs`
  is the frame that viewers see, and `src/json.rs`, `src/number.rs` and `src/text.rs` are what the
  rest is built on.
- `app/` is the program around the library: the terminal, the pseudo-terminal, sockets, threads and
  the network.

## What is trusted

Calls into other crates stand behind declarations whose contracts Verus believes: `serde_json` for
reading and writing JSON texts, `unicode-width` for the width of characters, `bytes` for shared
payloads, `base64` and `getrandom` for keys and payloads. Each says in its doc comment what it
claims.
