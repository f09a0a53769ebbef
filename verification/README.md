# praxis-filter

Filters of an HTTP proxy, with their behaviour stated as contracts and proved
by Verus.

- `src/` is the library. Each module holds one filter or one piece that several
  share: `access_log`, `request_id`, `forwarded_headers`, `json_rpc`,
  `json_body`, `json_body_field`, `circuit_breaker`, `sticky_sessions`,
  `router`, `binding` and `policy`, over `text`, `headers`, `sorted_map`,
  `json`, `actions`, `body` and `error`. Proof functions named `law_*` state
  what holds of a module as a whole.
- Time, randomness, addresses and the verdicts of the proxy's core and of the
  policy engine enter the library as arguments. Where a filter has to wait for
  such an answer in the middle, it is a state machine: a hook says what is
  needed next, and a second function takes the answer.
- `app/` supplies those answers: settings from YAML, clocks, logging, streamed
  bodies and the loops around the state machines.
- `tests/` run the library with the real outside crates.
