# rust_ping

A minimal IPv4 `ping` and echo responder, with the packet logic verified in
Verus.

- `src/icmp.rs` builds and parses ICMP echo messages (bare or behind an IPv4
  header) and computes the Internet checksum; its laws state that a built
  packet checks to zero, reads back as what it was built from, and that the
  reply to a parsed request carries the request's payload.
- `src/cli.rs` reads the command lines of `rust_ping` and `ping_reply`.
- `src/bytes.rs` formats hex dumps.
- `src/stats.rs` keeps reply counters and round-trip times (in nanoseconds).
- `src/session.rs` makes the decisions of a ping run: which request goes out
  next, how each outcome enters the statistics, and when to pause.
- `src/socket.rs` decides which received packet answers a request, which
  socket errors are timeouts, and what the responder answers.
- `app/` holds the raw-socket I/O, name resolution, the clock, the pauses and
  printing. The binary runs the responder when started under the name
  `ping_reply`.

Raw ICMP sockets usually need root.
