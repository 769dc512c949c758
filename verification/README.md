# chronos_services

The decision and algorithm layer of the Chronos execution-evidence services,
written in Verus: every function in `src/` carries a `requires`/`ensures`
contract over a mathematical model (`Seq`, `Map`, `Set`, `int`) and is proved
by the verifier.

## Layout

- `src/` — the verified library.
  - `events_cursor`, `events_log_read`, `canonical_drain`, `events_read`:
    the read cursor and its text form, paged reads over a session's
    execution log, completeness facts, and the canonical drain that keeps a
    raw record and the firings derived from it on one page.
  - `live_streaming`: the subscription registry and live stream cursors.
  - `concurrency_graph`, `concurrency_perturbation`: the happens-before
    graph (reachability, concurrent pairs, cycles) and loss injection.
  - `debug_trace`, `debug_read`, `debug_trace_specialized`, `analysis`,
    `diff`: call graphs, state diffs, memory and crash forensics, mutation
    lenses, call-count regression audits.
  - `observe`, `execution_explorer`, `execution_query`, `hypothesis_test`,
    `browser_probe`, `execution_log_bootstrap`, `counterexample`: request
    validation, permission checks and planning for the service entry points.
  - `health_check`, `ops_evidence`, `language_capabilities`,
    `language_fixtures`: health reports, evidence tiers, and the language
    capability matrix with its fixture audit.
  - `text`: decimal and hexadecimal rendering and parsing used by the rest.
  - `error`: the service error type and its messages.
- `tests/` — executable tests of the library.
- `app/` — the unverified shell: serde wire types, identifiers from `uuid`,
  the shared live registry, the execution-log port, and the reports that
  need floating point.

The laws of the library are public proof functions named `law_*`.
