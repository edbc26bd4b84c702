# traffic-director

A reverse proxy for MQTT 3.1.1 and 5.0 that survives its own upgrades and the
restarts of the broker behind it without dropping a client connection.

`src/` is the verified library: what a session does with every packet, what it
keeps for a message in flight, how it serves its client while the broker is
away, how it catches up with a fresh broker connection, and how sessions are
frozen, handed to a new process and thawed there. It performs no I/O.

- `types`, `v3`, `v5`, `packet` — packets as far as a session reads or writes
  them.
- `frame` — what the first bytes of a frame announce.
- `window` — QoS1/2 messages forwarded and not yet acknowledged end-to-end.
- `session::handshake` — the client's CONNECT packet.
- `session::subscriptions` — the subscription table.
- `session::keepalive` — how long a client may be silent.
- `session::outage` — serving a client while the broker is away.
- `session::forward` — the session as a state machine, replay, freeze and thaw.
- `session::laws` — what holds of a session as a whole.
- `registry`, `migrate`, `server` — live sessions, handing them over, draining.
- `args`, `init` — command lines, and the PID 1 that goes with the proxy.
- `error` — why a session or a handoff ends.

Encoding and decoding is left to the `rmqtt-codec` crate; the calls into it are
the trusted part of the library and stand in `src/codec.rs`.

`app/` is the program around the library: sockets, tasks, signals and JSON.
