# phantasma-link-relay

A small, end-to-end-blind publish/subscribe relay over WebSocket, with its routing,
mailboxes, limits and wire frames verified in Verus.

- `src/` is the verified library. `protocol` holds the wire frames, `json` how JSON is
  read, `model` what the hub holds as mathematics, `topic` and `hub` the routing, `conn` the decisions of one
  connection, `admission` and `state` what connections share. `laws` states what holds of
  the relay as a whole. `sender`, `clock` and `protocol` hold the few calls into tokio, std
  and serde_json whose contracts are trusted.
- `app/` is the server around it: HTTP, sockets, JSON and TOML input, the rate limiter.
- `tests/` runs the library against real queues and real JSON.

A client sends `subscribe`, `unsubscribe` and `publish` frames. A publish is forwarded to
every other subscriber of the topic and acknowledged; with nobody else listening it is held,
up to a time to live and a depth, and flushed to the next subscriber. A subscriber whose
queue refuses a published frame has stopped reading and is disconnected.
