# leaf

The verified core of `leaf`, a terminal Markdown viewer: what it decides is
written in Verus and proved against contracts; what it reads, writes and draws
stays ordinary Rust.

## Layout

- `src/` — the library, verified by Verus.
  - `app.rs`, `history_picker.rs`, `picker_width.rs` — the viewer state:
    scrolling, the table of contents and its number keys, the file-history
    picker (loading, filtering, ranking, selection, activation), the picker
    width and its floor.
  - `toc.rs` — heading levels shown in the table of contents.
  - `history.rs` — how opening and removing files changes the history.
  - `popup.rs`, `popup_lines.rs` — what each picker popup shows, line by line.
  - `completions.rs`, `cli.rs` — shell completion: the command line, shell
    detection, where scripts and start-up lines go, adding and removing them.
  - `mermaid*.rs`, `class_cards.rs`, `wrap.rs`, `keywords.rs` — Mermaid
    blocks: layout changes, stacked class cards, pie-chart sources, token
    colouring.
  - `one_shot.rs` — one-shot output with ANSI styles.
  - `fit.rs` — what it means for drawn text to keep within a width.
  - `text.rs`, `lines.rs`, `paths.rs`, `width.rs`, `images.rs` — text, line,
    path and width helpers.
  - `laws.rs` — properties that span several operations, proved.
- `tests/` — tests run against the compiled library.
- `app/` — the program: the file system, the environment, signals, the
  terminal and drawing, around the library's decisions.

Calls into `unicode-width` and `str::to_lowercase` go through trusted
wrappers whose contracts name their results; `mmdflux`'s drawings are taken
as they come, and the choice among them is verified for whatever it draws.
Paths are read as Unix or as Windows paths, as the caller says.
