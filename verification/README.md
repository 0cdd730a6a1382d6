# typst_writer

The verified core of Typst Writer, a WYSIWYG editor for the Typst
typesetting language. Everything under `src/` is checked by Verus: each
public function states in its contract what it returns or changes, over
mathematical models (byte sequences, syntax trees, histories).

- `syntax/` – the document's syntax tree as plain values (read from Typst's
  parser), and navigation over it: the leaf at an offset, siblings,
  neighbouring leaves.
- `math/` – math structures, fields and placeholders, the deletion rules, and
  caret movement over semantic leaves.
- `keys.rs` – what each key press or typed text does, as an editor action.
- `ribbon/` – the ribbon's commands: bold and italic toggled on the
  selection or the word at the caret, and the inserted templates.
- `text.rs` – byte offsets, char boundaries and slices of UTF-8 text.
- `editor/` – editor actions and state, the undo history, the editing core
  (text, caret, selection, history; edits of the main document or of
  another file, from its active editor or not) with its undo/redo laws, the caret
  context, and offset mapping between text versions.
- `compiler.rs` – the structural regions of a document and their hash, and
  the bookkeeping of background compilation.
- `fonts.rs` – renaming a font's family in its `name` table, and reading its
  PostScript name.
- `benchmark.rs`, `timings.rs`, `config.rs` – the benchmark document, the
  statistics of its timings, and setting defaults.
- `project.rs` – which changes on disk the project reacts to, and the
  `file://` URL of a project path.
- `log.rs` – the log panel's level filter.

`app/` is the unverified program around it: settings files, fonts and the
Typst compilation environment, and a headless driver. `tests/` exercises the
library on concrete inputs.
