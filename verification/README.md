# ractor_actors

TCP sessions for actors. A session reads packets from a socket, hands them to a packet receiver,
and writes the packets that it is told to send. Two receivers are here: one cuts the stream into
lines of text, the other into frames of bytes.

- `src/` decides and computes, and is verified with Verus. `net::tcp::line_reader` and
  `net::tcp::frame_reader` are the receivers, `net::tcp::session` says what a session, its reader
  and its writer do on each event, and `net::tcp::stream` sorts the kinds of network streams. What
  holds of several calls together is proved in `line_laws`, `frame_laws` and `session_laws`.
  `buffer` states what is used of the `bytes` crate without proof.
- `app/` carries the decisions out, with `ractor` actors and `tokio` sockets.
- `tests/` runs the library.

A line ends with `\n` or `\r\n`. A `\r` ends its line at once, and a `\n` right behind it is
skipped.

Each frame comes behind a header of eight bytes, its length in big-endian order. A frame may be
empty.

A read that brings nothing and a read that fails both end the reader, and with it the session.
