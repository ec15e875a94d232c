# telepipe

A proxy for _Phantasy Star Online_ on the GameCube, with its core written in
Verus and proved correct.

## Layout

- `src/` — the verified library.
  - `crypto.rs`: the game's stream cipher. The key schedule, the mixing of the
    key table and the key stream are spec functions; `Cipher::new`,
    `next_key`, `encode_word` and `codec` are proved against them. Laws:
    coding twice restores the data, and coding in pieces equals coding at once.
  - `serial/`: the `Serial` trait (wire bytes, reading, and a proved
    read-after-write law), little-endian integers through `byteorder`, and
    fixed-length ASCII text fields through `encoding`.
  - `msg/`: the messages (welcomes, redirects, license check, anything else),
    framed with a header whose size counts header and padding.
  - `client/`: the decisions of a proxy session (`SessionState::step`) and the
    framing of encrypted connections (`FrameReader`, `FrameWriter`), with the
    law that a reader gets back what a writer wrote.
  - `dns.rs`: the answer of the DNS responder.
  - `config.rs`, `array.rs`: the configuration and a fixed-length array.
- `tests/` — tests of the library.
- `app/` — the program: command line, configuration file, sockets, threads and
  the DNS socket, driving the library.
