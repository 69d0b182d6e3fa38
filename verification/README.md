# lib

The verified core of a set of data-viewing plugins: checksums (CRC-32,
CRC-16/XMODEM, CRC-16/MODBUS, the Internet checksum), a declarative
frame format that builds and inspects framed byte payloads, parsers for
value-change dumps, invariant reports, cellular-automaton patterns and
analog captures, a totalistic cellular automaton, and the state codecs
and table layouts of the view plugins.

## Layout

- `src/` — the library, written in Verus. Every parser is a function on
  characters whose contract is a specification of the accepted text and
  of each error message; every state codec comes with a round-trip law.
- `tests/` — ordinary Rust tests against the compiled library.
- `app/` — the plugin glue the verifier does not see: host calls, file
  and timer I/O, the emulators that append to capture files, and the
  views whose arithmetic is floating point.
