# poster

The logic of a desktop API client, verified with Verus: request templates
with `{{variable}}` placeholders, the HTTP request a stored request turns
into, cURL import and export, the checks and reading of project files
(`.poster.json`), JSONPath extract rules, and the decisions and bookkeeping
of the load-test engine.

- `src/` is the verified library. Each public function states what it
  returns in its `ensures`; `src/laws.rs`, `src/curl_laws.rs`,
  `src/template_laws.rs`, `src/project_json.rs`, `src/template.rs` and
  `src/load_test.rs` hold the proved laws.
- `tests/` runs the library on concrete values.
- `app/` is the unverified application around it: SQLite storage
  (`rusqlite`), HTTP (`reqwest`), the Tokio tasks of a load test, the
  serde forms of the records and the commands a front end invokes.

Extract rules hand their JSONPath to `jsonpath_lib` only when it is one on
which that crate does not panic (`src/path_screen.rs`): no range with a zero
step, and inside a filter no `[`, `,`, `:` or `$`, no exponent and no run of
more than 300 digits; paths of at most 1024 characters. Such other paths set
no variable. Key lists, unions, slices and filters of keys, literals and
comparisons are evaluated by the crate.
