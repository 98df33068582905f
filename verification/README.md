# Rate limiter

A verified token-bucket rate limiter for tool calls, written in Verus.

Each call draws one token from a bucket that a rule chooses: by caller, by tool,
by both, by session, or one bucket for all. A drained bucket turns the call away
with HTTP status 429 and a hint when to come back.

- `src/` is the library. Its functions carry contracts that Verus proves, but
  for the read of the monotonic clock, of which nothing can be promised, and for
  the wrappers in `store.rs` and `clock.rs`, whose contracts are trusted. What
  holds over many calls is stated and proved in `bucket_laws.rs`,
  `limiter_laws.rs` and `plugin_laws.rs`, and beside the functions in
  `calendar.rs`, `config.rs`, `context.rs`, `glob.rs` and `timestamp.rs`.
- `app/` is the plugin around it: configuration files, JSON, telemetry and the
  host's interface.
- `tests/` run the library.

Tokens are counted in whole units of which the nanoseconds of a window, or of a
common multiple of the windows in use, make a token. So refilling a bucket in many
steps gives what one step gives, and rules with different windows can share a
bucket without wearing its balance away. Only where windows have no common
multiple that fits in 64 bits is a balance rounded, by less than 2^-82 tokens.

What the proofs rest on without proof is in `store.rs` (the concurrent map) and
`clock.rs` (the clocks of the machine). The map is used through an exclusive
reference; the plugin around the library holds the lock.
