# webhook_quiet_hours

A self-hosted receiver for engineering webhooks: each source gets a private
endpoint alias, optional HMAC-SHA256 signatures are checked, repeat event
shapes are grouped into fingerprints, and a quiet-hours-aware digest (or an
immediate notice for high-severity fingerprints) goes to a Slack-compatible
webhook. A demo mode keeps seeded, per-session workspaces in memory.

## Layout

- `src/` is the verified library. Every function carries a `requires` /
  `ensures` contract that Verus proves; calls into outside crates (hashing,
  HMAC, AES-256-GCM, base64, hex, randomness, chrono, `Path::parent`,
  Unicode lower-casing) sit behind small trusted wrappers whose contracts say
  what the crate's source shows.
  - `config`: secret resolution (environment, persisted file, generation),
    the secret directory beside the SQLite database, the listening port.
  - `crypto`: SHA-256, hex, HMAC, base64, randomness and `PayloadCipher`
    (nonce-prefixed AES-256-GCM).
  - `ingress`: payload limit, endpoint-key and signature admission, and the
    stored form of a received event.
  - `fingerprint`, `json`, `order`: event types, canonical fingerprints and the
    JSON text they hash.
  - `endpoints`: alias names, slugs, hook URLs and signing secrets.
  - `settings`, `time`, `digest`: quiet windows, settings validation, digest
    and high-severity notices, retention cut-offs.
  - `dashboard`: counters, CSV export, triage checks, overdue fingerprints.
  - `demo`, `sessions`: the seeded demo workspace and the in-memory store of
    demo sessions.
  - `web`: static-file cache policy, `Retry-After`, admin bearer tokens.
  - `text`, `error`: text helpers and the error type with its HTTP answers.
- `app/` is the server around the library: environment and files, SQLite,
  HTTP routing and rate limiting, outgoing notifications and the maintenance
  loop.
- `tests/` exercise the library through its public API.
