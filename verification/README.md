# exspec

An analyzer of test code: it reports tests without assertions (T001,
blocking), tests that lean on too many mocks (T002, warning) and tests that
grow too long (T003, warning), scores a run and sets its exit code. `exspec
init` writes a starting `.exspec.toml` for the languages and frameworks it
finds in a project.

## Layout

- `src/` is the library, verified with Verus. The laws of the library are
  public proof functions next to the definitions they speak of. The
  functions that run `tree-sitter` queries (`count_captures`,
  `has_any_match`, `count_captures_within_context`,
  `collect_mock_class_names`, `count_duplicate_literals`,
  `apply_same_file_helper_tracing`) state their results over names for
  what `tree-sitter` gives (`node_results`, `range_results`,
  `capture_names_of` and the node accessors in `syntax.rs`), through the
  exact functions on given matches (`count_named_captures`,
  `any_named_capture`, `count_in_context`, `mock_class_names`,
  `literal_repeats`, `traced_count`).
  - `rules.rs`: severities, rule ids, diagnostics, and the rules.
  - `output.rs`: the terminal report, the summary, the exit code.
  - `suppress.rs`, `query_utils.rs`: suppression comments, custom assertion
    patterns, and the counting over `tree-sitter` syntax trees.
  - `observe.rs`: mapping production files to their tests, and the walk
    over barrel files.
  - `tsconfig.rs`, `init.rs`, `cli.rs`, `lang.rs`: TypeScript path aliases,
    `exspec init`, test file selection, the language front ends.
  - `text.rs`, `order.rs`, `json.rs`, `paths.rs`, `syntax.rs`: texts and
    their order, JSON documents (through `serde_json`), paths (through
    `std::path`), and the `tree-sitter` calls.
- `tests/`: the tests of the library.
- `app/`: the `exspec` command: argument parsing (`clap`), walking the
  directory (`ignore`), reading and writing files, and the JSON report
  (`serde_json`).
