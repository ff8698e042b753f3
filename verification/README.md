# quanttide-work

The fixed core of knowledge work, written in Verus: workflow definitions and
their syntax, criteria, tasks with their journals, where artifacts land and
what placeholders stand for, work records, and the outcome of an action.
Every function in `src/` carries a contract; Verus proves all of them but
three trusted ones, whose contracts are taken on the outside code's word:
`text::push_char` (std's `String::push`), and in `outcome` the pair
`json_value` / `json_text_of`, which hand a value to serde_json for its JSON
text.

## Layout

- `src/yaml.rs` — a parsed definition as plain data (`Yaml`) with its view.
- `src/text.rs`, `src/paths.rs` — text and path helpers with their specs.
- `src/executor.rs`, `src/fields.rs`, `src/error.rs` — the fixed values, the
  field tables and readers, and the definition error.
- `src/criterion/` — criteria: the model, reading with checks, what is run.
- `src/workflow/` — the workflow model, checking a definition (and what a
  check finds, in closed form), and the round trip of a written definition.
- `src/task/` — tasks: journal, run context, landings, which steps were
  walked, and the round trip of a written task.
- `src/workspace/` — the workspace: lookups, landings and placeholders,
  definition checks with unchecked findings, progress.
- `src/artifact.rs`, `src/record/`, `src/outcome.rs`, `src/tasklog.rs`,
  `src/prompts.rs` — artifacts, work records, outcomes and their envelope,
  the journal read from raw entries, and the words for the agent that walks
  a step and for the one that reviews it.
- `app/lib.rs` — conversions: `serde_yaml` and `serde_json` documents turned
  into `Yaml` and back, and the errors as `std::error::Error` values.
- `tests/` — the behaviour on concrete values.

The laws (round trips, also for everything read from a file; what a journal
entry does to the walked steps; which steps were walked and which findings a
check gives, in closed form; that placeholders stand for the places where
artifacts land; and others) are public proof functions whose names begin with
`law_`.
