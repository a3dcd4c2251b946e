# EtherTunnel

A self-hosted reverse tunnel: a relay with a public address, and a daemon that
exposes local services through it.

- `src/` is the library, verified with Verus. `proto` holds the frames, the
  framing codec and the byte transport; `relay` the ownership registry, router,
  sessions, licence checks, HTTP forwarding and configuration; `client` the
  configuration, commands and the connection supervisor.
- `app/` is the program around it: sockets, TLS, files, SQLite and the command
  line.
- `tests/` runs the library on concrete values.

The library decides and `app/` performs: a loop that waits on the network hands
each event to a step function of the library and carries out the action that
comes back. Calls into other crates that only compute stand in the library
behind small wrappers, each with a comment that says what is believed of the
call.
