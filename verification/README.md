# nshedit

A line editor for an interactive shell, written in Verus: the editing
logic is executable Rust whose behaviour is stated in `requires` /
`ensures` contracts and proved.

Layout:

- `src/chared.rs`, `src/chartype.rs`, `src/common.rs`: the classic
  editline layer — the edit buffer with its insert, delete and
  motion primitives, the character-type conversions between bytes, wide
  characters and their visual form, and the `ed_*` editing commands.
- `src/domain/`: the typed vocabulary of the editor (text units, actions,
  keymaps, prompts, screens, terminal modes).
- `src/editor/`: the native editor session — line model with undo and
  redo (`line.rs`, `laws.rs`), motions and transforms, keymaps,
  completion, host effects and their suspension protocol, layout and
  rendering plans for the terminal, terminal capabilities, input
  decoding, and the resumable read driver (`driver.rs`): it decodes
  input, looks keys up in the active keymap, runs the bound commands and
  hands each host request back as a step.
- `src/unicode.rs`: the character classes the editor asks of the
  standard library.
- `tests/`: tests run against the compiled library.
- `app/`: the unverified shell around the library — terminal I/O and the
  loops that hand the library the host's answers.

Each public proof function named `law_*` states a property that spans
several operations, such as what undo gives back of an edit or that a
response to an earlier read step is refused.
