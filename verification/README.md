# drophub_back

Rooms for sharing files between peers: a host opens a room, hands out one-time
invites, and guests who join by them announce and withdraw entities (files or
texts) that the others see.

The library in `src/` is verified with Verus:

- `room` — a room: its clients in joining order, its entities in announcing
  order, its invites; every operation keeps the room's invariant and states
  exactly what it changes.
- `validator` — the permission checks (host only, no self-kick, owner only,
  no duplicate entity) as spec functions and the code that performs them.
- `rpc` — the service holding every room by id, with the requests clients send;
  a request touches its own room only, and a refused request changes nothing.
- `laws` — properties that span several operations.
- `entries`, `index_maps`, `ttl_invites` — the ordered-map model of the rooms'
  `IndexMap`s and the invite `TtlCache`, and the contracts of their calls.
- `token`, `storage`, `ext` — token expiry and framing, stored records and their
  lifetimes, and the random draws (passwords, ids) with what they guarantee.
- `ui`, `input` — the decisions of the web front end: labels, links, counters,
  and the reading of numbers typed into forms.

`app/` is the process around it: a JSON-RPC server over WebSocket, access tokens
as JWTs, the clock, room snapshots pushed to subscribers, and MongoDB storage
of peers' invites.
