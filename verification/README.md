# paper_pet

The logic of a desktop reading companion that files copied passages by the
paper they were read in, resolves their citation markers against the
bibliography each passage is bound to, and renders the text that is copied
or exported. Every function has a contract; Verus proves all of them except
those of a few trusted wrappers around `regex`, `serde_json` and std calls,
which it takes on trust.

- `src/` is the verified library: title cleaning and grouping keys, marker
  scanning and bibliography entries, citation heuristics and formatting
  (GB/T 7714, APA), the steps that ask a language model and read its
  replies, reference resolution, the library view, copy text, export,
  undo, and the clipboard watch's decisions. Calls into `regex` and
  `serde_json` (replies, `config.json`, the authors column) go through a
  few trusted wrappers whose results are named.
- `app/` is the unverified shell around it: SQLite storage (`rusqlite`),
  HTTP calls to the model (`reqwest`), configuration files, timestamps
  (`chrono`), the foreground window on Windows (`windows`), the serde
  copies of the library's types and the watch loop.
- `tests/` runs the library on concrete values.
