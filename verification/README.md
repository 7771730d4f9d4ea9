# lekhani_latex

The core of a LaTeX editor with live PDF preview, written in Verus. Every function in `src/`
carries a contract. Verus proves them all except those of a few small trusted wrappers around
`regex`, `serde_json` and some standard-library functions (each marked `external_body`), whose
contracts are taken from those libraries' documentation.

## Layout

- `src/text.rs`, `src/strings.rs` — the UTF-8 byte model of text and the string operations
  (lines, trimming, searching, numbers) everything else is stated in.
- `src/buffer.rs` — the text buffer: editing, cursor movement, line index, a full undo/redo
  history, loading and saving (the file access itself is done by the caller).
- `src/lexer.rs`, `src/highlight.rs` — tokens for syntax highlighting and the styled runs drawn
  for them, with proofs that they cover the text exactly.
- `src/editor.rs`, `src/completion.rs` — heading commands, text styles, document class
  detection and command completion.
- `src/compiler.rs`, `src/compiler/parser.rs`, `src/output.rs` — what a LaTeX build reports:
  refusals before running, warnings and errors read from the output and the log, build status,
  and the lines shown in the output panel.
- `src/preview.rs` — which PDF pages are rendered, page navigation, page count and renderer
  command lines.
- `src/assistant.rs`, `src/settings.rs`, `src/tabs.rs` — the writing assistant's request and
  reply, the settings file's theme and key, update checks, and tab order.
- `src/pattern.rs` — regular-expression captures through the `regex` crate.
- `src/project.rs` — where a new document's project folder and file go.
- `src/json.rs` — reading and writing string entries of JSON documents through `serde_json`.
- `app/` — a command-line front end that does the file, process, thread and network work.
- `tests/` — tests of the library on concrete values.
