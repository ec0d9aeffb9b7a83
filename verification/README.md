# sync_ingest

Ingestion of operations that other devices have made, as verified Verus code.

Devices exchange operations on records: creations, updates of single fields, deletions, each with
a timestamp of a hybrid logical clock. The library decides when operations are asked for, and what
becomes of those that come in.

- `src/actor.rs`: the states of the ingest actor and how it reacts in each.
- `src/process.rs`: what to look up and what to do for the operations on one record.
- `src/transaction.rs`: what is written to the database for them.
- `src/order.rs`: the stable order of operations by their timestamps.
- `src/clock.rs`: telling the clock of the times that other devices have reached.
- `src/timestamps.rs`: how far each device has been ingested.
- `src/field_map.rs`: the ordered map of a record's fields.
- `src/types.rs`, `src/error.rs`: operations, queries and errors.
- `src/outside.rs`: everything that is taken for granted about other crates.

`app/` runs the actor on tokio, with channels and a database client behind a trait.
