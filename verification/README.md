# ti

A small vi-like terminal text editor. The editing logic is a library verified
with Verus; a thin program around it talks to the terminal and the file system.

- `src/` — the verified library:
  - `document.rs`: the lines of the file, inserting, copying, deleting,
    word motions, and reading and writing file content;
  - `cursor.rs`, `viewport.rs`: the cursor's moves and the scrolled window;
  - `app.rs`: what each key does in each mode, as a function on a model of
    the editor state, with the keys' laws (undo, counts, backspace, ...);
  - `key.rs`: decoding the bytes a terminal sends into keys;
  - `cell.rs`, `render_buffer.rs`: colors and themes, the grid of screen
    cells, and the escape sequences that update the screen;
  - `undo.rs`, `text.rs`: the undo history and character-level helpers.
- `app/` — the program: terminal setup, key input, drawing, file I/O.
- `tests/` — tests run against the compiled library.
