# teruic

The logic of Teruic OS, a small teaching operating system, as a verified Rust library
(Verus), with a hosted program around it.

- `src/` — the verified library:
  - `vfs` — the in-memory file system (root entries kept sorted by name);
  - `shell` — command lines and key handling of the terminal shell, as the lines
    printed and the action asked of the kernel;
  - `editor` — TeruicPad, the full-screen editor: editing steps, save/open and the
    screen it draws;
  - `java`, `c_runner` — the two toy interpreters;
  - `vga`, `gui` — the 80x25 text buffer and the status bar and cards drawn on it;
  - `executor` — the cooperative scheduler's queue of task ids (on `crossbeam-queue`);
  - `loader`, `c_abi` — the decisions behind the native binary loader and the C file API;
  - `text` — string helpers with exact contracts (UTF-8, lines, words, numbers).
- `tests/` — tests of the library on concrete values.
- `app/` — the kernel's main loop as a hosted program: standard input is the keyboard,
  standard output the screen; it performs the actions that the library decides.
