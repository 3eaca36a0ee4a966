# thecurse

The logic of the game "The Curse", verified with Verus.

- `src/networking`: wrapping `u16` sequence numbers (`utils::wrapping`), a ring
  buffer of 32 slots addressed by such numbers, the byte representation of
  messages, acknowledgements and packets (with a CRC-32 checksum from the `crc`
  crate), the reliable-delivery state of a UDP communicator, and the
  length-prefixed framing of TCP messages.
- `src/character_controller`, `src/creatures`, `src/items`,
  `src/action_controller`, `src/shared`: what the game decides for its
  characters, creatures and items, taken from plain values (keys held, time
  passed, how far a target is) so that the engine only carries it out.
- `tests`: the scenarios, run against the compiled library.
- `app`: the I/O around the library: a UDP socket that carries a communicator's
  datagrams, and the serde forms of the TCP messages on async streams.
