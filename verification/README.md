# shardnet

The logic of a small sharded multiplayer game, verified with Verus: the world
is cut into vertical bands, each simulated by a shard; a broker relays what
each peer publishes to the peers subscribed to it; a spatial service follows
players across bands; a gatekeeper logs players in; an orchestrator restarts
shards that stop sending heartbeats.

- `src/` is the verified library: the wire formats (`wire`, `serializer`,
  `netmessage`, `gameplay`), the broker (`broker`), the sessions of peers with
  the broker (`session`), the spatial routing (`routing`), a shard's rules
  (`shard`), the client's view of the world (`client_view`), logging in
  (`login`), the orchestrator's bookkeeping (`orchestrator`) and small text
  and number helpers (`text`, `numbers`, `server_info`).
- `app/` is the program around it: sockets, the game engine, HTTP, Redis,
  processes, and what computes on floating-point coordinates (the quadtree,
  movement, distances).
- `tests/` exercises the library on concrete values.
