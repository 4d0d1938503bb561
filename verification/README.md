# sacn

Streaming ACN (ANSI E1.31-2018) for sending and receiving DMX512 data over IP,
with its protocol logic verified by Verus.

## Layout

- `src/` — the verified library.
  - `packet.rs`: parsing and packing of data, synchronisation and universe
    discovery packets, byte for byte; `packet_laws.rs`: what parsing gives back
    of what packing writes.
  - `receive.rs`: the receiver state machine (universe synchronisation, HTP
    merge, universe discovery, source timeouts); `receive_laws.rs`: what its
    steps keep and release; `discovery_laws.rs`: a source whose pages have all
    come, in any order, is discovered with its universes in page order.
  - `source.rs`: the source state machine (registered universes, sequence
    numbers, the packets a send produces, discovery adverts);
    `source_laws.rs`: how sends split data and number packets.
  - `universe_set.rs`: sorted sets of universes.
  - `codec.rs`: network byte order reads and writes (through `byteorder`) and
    UTF-8 decoding.
  - `console.rs`, `commands.rs`: the console commands of the demo source and
    receiver, read word by word.
- `app/` — sockets, clocks, the source's update thread and the two demo
  programs, around the library.
- `tests/` — tests of the library, run against the compiled crate.
