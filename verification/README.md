# rgx

An interactive regex tester and debugger for the terminal, with a line
filter mode. The library in `src/` is verified with Verus; `app/` is the
terminal front end around it.

## Layout

- `src/engine.rs`: the three regex engines (`regex`, `fancy-regex`,
  `pcre2`) behind one interface, and the automatic or manual choice between
  them. What each engine reports is stated over the crates' own results.
- `src/features.rs`: the pattern features that call for a stronger engine.
- `src/program.rs`, `src/debugger.rs`: the step debugger: a compiler from
  patterns to a backtracking program, the machine that runs it step by
  step, and the session that walks through the steps with a heat map.
- `src/parser.rs`, `src/syntax.rs`: the `regex-syntax` parser and its tree
  in the library's own form.
- `src/highlight.rs`, `src/explain.rs`: syntax highlighting and the
  plain-English explanation of a pattern.
- `src/codegen.rs`: code snippets in six languages.
- `src/app.rs`, `src/keys.rs`: the editing state (inputs, cursors, undo
  history, overlays) and the key bindings.
- `src/filter.rs`: the line filter, optionally on a field of JSON lines.
- `src/ui.rs`: what each view shows, as styled lines and runs.
- `src/text.rs`: string helpers and UTF-8 cursor arithmetic.
- `app/`: command line, terminal, drawing, clipboard and file input.
