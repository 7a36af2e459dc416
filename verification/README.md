# aw_server

The decision logic of a small activity-tracking team server, with its
contracts and laws proved.

- `src/event.rs`, `src/merge.rs`: activity events and merging them by the
  values of chosen keys, with the merge's result stated exactly;
  `src/merge_laws.rs` proves what holds of every merge (distinct keys,
  coverage, first timestamps, total duration, idempotence, events without
  the keys left out, order within groups irrelevant).
- `src/token.rs`: reading a bearer token from an `Authorization` header.
- `src/session.rs`, `src/teams.rs`: the login, signup and team endpoints as
  step functions from a state and an event to the next state and the
  action to perform (look something up, store something, answer).
- `src/models.rs`: the request and response models.
- `app/`: the Rocket handlers, which run the step functions and perform the
  datastore and token work, the JSON copies of the models, and the
  conversion of events with `chrono` and `serde_json` values.
