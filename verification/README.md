# sem

Structural grep over a semantic code graph, verified with Verus.

- `src/` is the verified library:
  - `text`: substring search, ASCII and Unicode case folding, identifier
    normalisation (`runShell`, `RUN_SHELL` and `run-shell` meet) and `matches_text`.
  - `order`: lexicographic order on texts and strictly sorted text lists.
  - `entity`, `graph`: parsed entities, the entity graph, reference counts and
    the test heuristic.
  - `grep`: queries, reference kinds and query validation.
  - `search`: `find_matches`, with its exact result (each matching entity
    once, sorted by file, lines and name) and the laws relating filters.
  - `report`: the terminal report as styled lines.
  - `json`: the JSON document of a search (`result_json`), as plain values.
  - `cli`: the `grep` command's options, checks and output choice.
  - `registry`, `plugins`, `paths`: choosing a parser plugin by the
    extensions of a file's name, the default plugins, extension filters.
  - `tools`: tool parameter types.
- `app/` holds what prints, exits or needs outside derives (clap, serde,
  schemars, colored, serde_json).
- `tests/` runs the library on concrete inputs.
