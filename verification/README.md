# ark

A local-first, git-native command-line tool for structured markdown
artifacts (tasks, specs, ADRs, or any type a project defines in a YAML
schema), with its logic written and proved in Verus.

## Layout

- `src/` is the verified library. Every function has a contract over
  mathematical models (`Seq`, `Map`, `int`, and the `Val` model of
  frontmatter values), and Verus proves the code against it.
  - `value`, `artifact`, `schema`, `validate`: frontmatter values, artifacts
    and their IDs and file names, schemas (inheritance, JSON Schema),
    write-time validation.
  - `commands/`: the decisions of each command (`list`, `next`, `new`,
    `edit`, `lint`, `archive`, `rebalance`, `stats`, `search`, `scan`, ...),
    each a function from plain values to plain values.
  - `sort`, `text`, `output`, `json`, `pattern`: stable sorting by keys,
    string helpers, TSV/JSON/table output, and the calls into `serde_json`,
    `regex`, `regex-lite`, `comfy-table`, `jsonschema`, `gray_matter`,
    `serde_yml` and `chrono`, each behind a small trusted wrapper whose
    contract says what is assumed.
  - `lock`, `hooks`, `discover`: the decisions of file locking, lifecycle
    hooks and project discovery, without the I/O.
  - `laws`: properties that span several functions, stated and proved as
    proof functions.
- `app/` is the program around the library: argument parsing (`clap`),
  reading and writing files, reading schema and hook files (`serde`), the
  clock, running hook commands, and printing.
- `tests/` runs the library on concrete inputs.
