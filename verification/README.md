# cutty

The terminal core of the CuTTY terminal emulator, written in Verus: the terminal state, what
escape sequences ask of it, the grid storage, selection, what is sent for pasted text and mouse
events, the settings and their rules, and the plain values the renderer draws from. Each
operation states what it does in `requires` / `ensures` over mathematical models of its data,
and Verus proves the code against them.

## Layout

- `src/` is the verified library.
  - `grid/`: the ring of rows behind each screen (`storage`), rows of cells (`row`), and
    lines, columns and points (`index`).
  - `terminal/`: cells and colours, one screen buffer (`screen`), editing (`edit`), width
    changes with rewrapping and height changes (`resize`), character widths (`width`), and the
    whole terminal with its modes, cursor and scrollback (`state`).
  - `parser`: the parameters of escape sequences read and the terminal operations chosen,
    SGR attributes included.
  - `selection`, `navigation`: selections in stable rows, and moving the keyboard selection
    focus over the viewport.
  - `input`: what is sent for pasted text and mouse events, which keys make which shortcut,
    and programmatic window resizes told apart from the user's.
  - `scene`: colours, the cursor, font descriptions, and the underline and strikeout lines
    gathered from runs of cells.
  - `config`: the settings of the application and the rules they must follow.
  - `workloads`: the byte streams the parser benchmarks feed it.
  - `laws`: properties that relate several operations, each a proof function.
- `tests/` runs the library on concrete inputs.
- `app/` is the desktop program around the library: the window, the GPU renderer, the pty and
  the configuration file.
