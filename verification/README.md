# p2p_frame

A verified core of the p2p frame networking stack, written in Verus.

- `src/` is the library: the SN package header, the extension envelopes and
  the byte codecs of the SN messages (report, call, relayed call, query,
  rendezvous and their answers), each with a law that a message reads back
  from its own bytes; the SN service's bookkeeping
  and decisions (call dedup, peer cache, NAT-probe scheduling, rendezvous
  admission, report admission, call and query handling), the TTP tunnel
  caches and tunnel attachment, listener planning, QUIC connection pooling,
  the TLS certificate checks and server identity cache, and the stack
  configuration. Verus proves every function's contract
  except those of the few functions marked `#[verifier::external_body]`,
  which call the outside crates (`bucky_raw_codec`, `bucky_time`, `rustls`)
  or std and whose contracts are taken on trust; laws that relate several
  functions are public proof functions beside them.
- `tests/` runs the library on concrete values.
- `app/` is the runtime glue around it: channels, timers and the calls that
  wait on the network. It takes no decision of its own.
