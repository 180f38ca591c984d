# enventory

A typed, self-documenting environment-variable registry, verified with Verus.

Libraries declare typed variables (`Var`) that are parsed once and cached,
and register a description of each (`Item`: key, help text, default value,
possible values, validator). Binaries validate every registered variable
eagerly (`set_all_from_env`) or expose them as command-line options with an
environment fallback (`args`, `apply_matches`).

Layout:

- `src/` — the verified library:
  - `registry.rs` — `SetError`, `PossibleValue`, `Item`;
  - `var.rs` — `Var`, its parsers (`parse_boolish`, `option_repr`) and `ParseError`;
  - `env.rs` — `Env`, a snapshot of environment variables as raw bytes;
  - `validation.rs` — the consistency check between registrations and eager validation;
  - `cli.rs` — the plan of command-line arguments and the `clap` calls that build them;
  - `typed.rs` — typed items initialized through registration entries;
  - `text.rs` — string helpers (lowercasing, trimming, doc-comment normalization, ordering).
- `tests/` — tests of the library.
- `app/` — process glue: the `inventory` registry, the process environment,
  `static` variables behind locks, the `define!` macro and the `clap` trait
  implementations of `EnvArgs`.
