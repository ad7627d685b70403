# crypted_messages

A console chat whose messages travel AES-256-GCM encrypted between a server
and its clients. The logic is a Verus-verified library; the program around
it is ordinary Rust.

- `src/` — the verified library:
  - `text` — string helpers (trim, split on whitespace, decimal text, port parsing)
  - `hexcodec` — hex key text and the `hex` crate calls
  - `cipher` — nonce + AES-256-GCM frames, random keys
  - `color`, `message`, `command` — what travels and what users type
  - `timestamp` — `YYYY-MM-DD HH:MM:SS` local time
  - `address` — prompts and defaults for the address and port
  - `server` — users, names, colors, sudo, commands, history, broadcast
  - `client` — handshake, input chunking, outgoing lines, incoming messages
- `app/` — the program: menus, sockets, tasks, JSON, terminal colors.
- `tests/` — tests of the library.
