# innernet_rp

The verified core of an authenticated post-quantum WireGuard PSK exchange
for innernet networks: the wire values and their text encodings, the
exchange's state model, each endpoint's private state and its transitions,
the server's mailbox and paging rules, admission control, and the traffic
gate and Rosenpass bookkeeping around them. The functions under `src/` are
verified by Verus against their contracts; the few calls into outside
crates (base64, SHA-256, constant-time comparison, system randomness) sit
behind small wrappers whose contracts are stated, not proved. The native
hybrid KEM, hashing and signature primitives are reached through the
`Bridge` trait, which promises nothing: contracts that involve it say which
inputs each call received and where its answer went, and the laws that
need more (two endpoints agreeing on one PSK, an altered tag being
refused) take the primitives' behaviour as a stated hypothesis.

## Layout

- `src/protocol.rs` — numbers, bundles, transcripts, signed phase messages
  and the exchange decision (`Decision::advance`, `expire`), with the laws
  that a terminal decision is final and a commitment is never undone.
- `src/state.rs` — an endpoint's identity, relationships and management
  link; the server's management links; rotation staging, apply, confirm and
  rollback.
- `src/engine.rs` — `EndpointState::reconcile`, one step of the exchange
  with one peer, and the `Installer` the step drives.
- `src/mailbox.rs`, `src/paging.rs`, `src/api.rs` — what the coordination
  server accepts, records and pages out.
- `src/client.rs` — a client's sync cycle per directory entry, gating
  choices, registration and management enrollment rotation.
- `src/admission.rs` — token buckets and write slots.
- `src/codec.rs`, `src/crypto.rs` — base64, decimal and digest helpers, and
  the native primitives the protocol is built on (`Bridge`).
- `src/gate.rs`, `src/rosenpass.rs`, `src/backend.rs`, `src/store.rs`,
  `src/options.rs`, `src/enrollment.rs` — nftables scripts, Rosenpass paths
  and log scanning, backend names, private snapshot rules, options and
  enrollment artifacts.
- `app/` — what stays outside the proofs: file and process I/O, the native
  bridge, JSON and the private store, the sync loop and the service lock.
- `tests/` — scenario tests, including two endpoints converging through the
  mailbox and seeded fault schedules.
