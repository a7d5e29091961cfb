# eks

The storage core of a candidate-nomination system, verified with Verus.

Every political group writes to its own event stream; the central electoral
committee imports a group's stream into a stream of its own and examines it
there. Events are hash-chained and encrypted at rest; projections are rebuilt
by replaying them.

- `src/` is the verified library: the event chain (`event`, `store`,
  `event_hash_prefix`), framing and encryption of stored events (`frames`,
  `crypto`, `replay`, `memory`), the projections (`app_store`, `pg_data`,
  `csb_main`, `csb_data`, `scrapped`), write limits and routing (`limits`,
  `pg_store`), form and step helpers (`forms`) and small shared pieces.
- `tests/` runs the library on concrete values.
- `app/` holds what touches the outside world: the stream and key files on
  disk, the clock, and the serialised form of event payloads.
