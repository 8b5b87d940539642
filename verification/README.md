# scaproust

The decision logic of the nanomsg "Scalability Protocols" (PAIR, BUS,
REQ/REP, PUB, PUSH/PULL, SURVEYOR/RESPONDENT), with its contracts checked by
Verus.

A protocol never touches a pipe or a timer itself: each operation takes a
`Context` and records in it what it asks for (send on a pipe, receive from a
pipe, open, poll again or close a pipe, give up a pipe's send or receive,
answer the user, start or cancel a timer, tell the socket that its readiness
changed). The contracts say, for every operation, the new
state of the protocol and the exact actions it records.

Layout of `src/`:

- `common`, `context`: the values exchanged with the socket, and the record
  of actions.
- `proto`: the protocols, the pipes they hold, the priority list that picks
  the next pipe, the policies built on it (load balancing, fair queuing,
  broadcast), the routes of requests and the big-endian codec.
- `protocol`: the priority lists and the exclusive pipe holder of the
  event-loop layer, the `WithBacktrace` trait, and the REQ and REP sockets
  of that layer.
- `send`, `send_win`, `recv`, `transport`: the framing of a message on a
  connection (its length as eight big-endian bytes, then its bytes), sent
  and received piece by piece.
- `sync`: the one-slot mailbox between two threads.
- `sequence`, `reactor`: identifiers, and the decisions of the event loop.

`app/` holds the mio event loop and the hand-over of recorded actions to the
code that owns the pipes and the timers.
