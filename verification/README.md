# wormhole

A fast, minimal, stateless TCP tunnel for NAT traversal. A client behind a NAT
declares the services that it wants exposed; a generic server binds their public
ports and forwards each connection to the client over N parallel data channels.

## Layout

- `src/` is the verified library: everything that decides.
  - `text`: trimming, splitting, decimal numbers, ports in text
  - `buffer`: byte buffers and the calls into the `bytes` crate
  - `protocol`: frames and their wire format
  - `config`: the config model, its expansion and validation
  - `tunnel`: connection table, routing, chunking, batching, partial writes
  - `server`, `client`: handshakes, public-port planning, channel slots, the
    proxy list, backoff
  - `cli`: which config is used and what `check` reports
  - `wire_laws`, `config_laws`, `tunnel_laws`, `server_laws`, `client_laws`,
    `setup_laws`: what holds of these together
- `tests/` runs the library on concrete values.
- `app/` is the `wormhole` program: the command line, the TOML format, sockets
  and tasks.

## What is proved

- What was encoded is parsed back, whatever the read boundaries.
- A connection gets exactly the bytes that were read at the other end, in
  order, whatever else is on its channel.
- Frames queued for a channel come out all, in order, each once, over however
  many attaches, as long as no write fails; a write that fails costs the batch
  in hand at most.
- A partial write loses no byte and repeats none.
- A session starts only for a client that proves the secret.
- No public port is bound against the policy or twice, and a setup that `check`
  calls consistent is served in full.

What the library takes on trust is named where it stands: the items marked
`external_body`, the `assume_specification`s and the `uninterp` names in
`buffer`, `text`, `protocol` and `client`.
