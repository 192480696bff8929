# realtime

The channel state of a realtime messaging service, verified with Verus:
Presence members and Occupancy counters of channels, the local store that
keeps them with a journal of client commands, and the shared Redis store's key
layout, request checks, script calls and reply decoding.

## Layout

- `src/` — the verified library.
  - `channel.rs`, `presence_plan.rs`, `outcomes.rs`, `ledger.rs`, `store.rs`:
    the state of one channel, Presence batches, the journal of Presence
    commands and the local store, each against a mathematical view.
  - `laws.rs`: properties that span operations (idempotent attach and detach,
    replayed Presence commands, a closed journal that still answers, an index
    of channels by connection that every operation keeps matching the
    attachments, versions that never go down, a stopped Redis store that
    refuses every request).
  - `keys.rs`, `redis_store.rs`: the Redis key layout and the checks and
    script calls of the Redis store.
  - `reply.rs`, `replies.rs`, `outbox.rs`, `snapshot.rs`: decoding of script
    replies and assembly of events and snapshots.
  - `config.rs`, `credentials.rs`, `encoding.rs`, `broadcast.rs`: reading API
    keys, Basic credentials and published messages.
  - `ids.rs`, `connection.rs`, `commands.rs`, `protocol.rs`, `messages.rs`,
    `transition.rs`: identifiers, connections, store commands and the values
    they produce.
- `tests/` — tests of the library on concrete values.
- `app/` — what runs around the library: JSON forms of its values, the
  environment, the asynchronous stores and the HTTP endpoints.
