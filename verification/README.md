# mpc_rooms

The room server behind a browser REPL for two-party computation, and the
framed TCP connection its parties use, as a verified library.

- `src/room.rs` — the protocol's messages (`Action`, `RoomAction`, `RoomError`,
  `RoomResponse`, `DirectMessage`) and `User`.
- `src/members.rs`, `src/registry.rs` — rooms and their members, modelled as a
  map from room id to the ordered members; create, join, leave, list, direct
  messages and broadcasts, with the laws that relate them. Rooms and members
  are kept in vectors with distinct ids: vstd's `HashMap` with `String` keys
  gives no usable specification (an `insert` followed by `contains` or `get`
  of the same key is not provable).
- `src/room_ids.rs` — counted version-4 room ids, the fallback that lets room
  creation always succeed when random draws keep hitting ids in use.
- `src/session.rs` — one step of a client connection: command in, new room
  state, messages to deliver and reply out.
- `src/text.rs` — the `"<target>:<text>"` payload of direct messages.
- `src/framing.rs` — length-prefixed framing (four big-endian bytes, then the
  message) with its round-trip laws, and the steps of the read and write loops:
  what a read or a (possibly short) write does to the buffers, and what the
  loop does next.
- `src/external.rs` — the calls into `uuid`, `serde_json` and `bytes`.
- `app/` — the warp websocket server, the tokio socket I/O and the JSON
  encoding of the messages.
