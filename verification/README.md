# lid_core

Engine of the LID (Linked-Intent Development) tools, with its behaviour
stated in `requires` / `ensures` contracts and proved.

* `src/` — the library: typed identifiers (`ids`), the artifact model
  (`model`), parsers for spec files, arrow docs, LLDs, decision docs and
  `@spec` citations (`parse`), the coherence checks (`checks`), the check
  report and dashboards (`report`, `dashboard`), project scaffolding texts
  (`scaffold`), the editor-buffer store (`store`) and the language-server
  features (`lsp`). Project files are held as plain values; which of the
  paths the checks ask about exist on disk is recorded in
  `LidRepo::present_paths`.
* `app/` — the `lidc` program: command-line parsing, reading and writing
  files, the `index.yaml` and JSON shapes, and the stdio language server.
* `tests/` — tests of the library on concrete values.
