# anamdb

A neurosymbolic database kernel: Datalog rules checked, normalised and
repaired, their evaluation planned and their fact tables joined and
filtered, with provenance semirings that record how each result was
derived.

`src/` is the library, written in Verus: every function carries a contract
and every module is verified.

- `kernel`: errors, the replicated policy catalog, provenance semirings,
  the provenance and reasoning tree of query results, engine settings.
- `logic`: the rule registry and engine, evaluation plans and the
  fixed-point stopping rule, fact batches and their joins,
  canonical normalisation, schema checking, repair candidates, the checks
  on rules produced from natural language.
- `execution`: device selection, pipeline stages, `PREDICT` and
  `WITH (...)` parsing, filter pushdown from rules, task routing,
  concurrency control.
- `model`: the model and operator registry, layer freezing, device
  affinity and the AI-Tables enums.
- `hitl`: triage sessions, cluster isolation, self-repair decisions and
  query explanations.
- `storage`, `sdk`, `server`, `client`: catalog entries, logic packs and
  the hub, metering and authentication, the wire protocol's JSON lines,
  client configuration.
- `cli`: the interactive shell's dot-commands.
- `text`: the character-level text routines the rest is written with.

`app/` holds what runs around the library: file and network I/O, async
plumbing, serialisation, Arrow record batches (where rules are run over
floating-point columns), and the floating-point estimates. `tests/` runs
the library on concrete values.
