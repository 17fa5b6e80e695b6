# ascii_arcade

The engine of ASCII Arcade — live ASCII scenes for the desktop wallpaper, the
terminal and the browser — written in Verus, with the behaviour of each
function stated as a contract and proved.

## Layout

- `src/` — the verified library:
  - `color`, `frame`, `theme`, `text`: colours, character grids, palettes and
    small string builders;
  - `rng`: the seeded generator every simulation draws from;
  - `life`, `pipes`, `fire`, `clock`, `shapes`: the scene simulations and the
    frames they draw (Conway's rule, reseeding, the pipe weave, the fire
    automaton, the block-digit clock);
  - `screen_spec`, `screen`: the terminal-stream parser that rebuilds DOOM's
    screen from its ANSI output, chunk by chunk;
  - `ansi`, `wire`, `engine`: the encodings frames leave in (ANSI truecolor,
    the 8-bytes-per-cell buffer, flat glyph and colour arrays, palette JSON);
  - `render`, `bloom`, `font`: the software rasteriser with its glow and
    scanline effects;
  - `catalog`, `doom`, `launcher`, `play`, `cli`, `socket`, `linux_shell`,
    `windows_shell`: the decisions of the front ends — which scene an id
    names, the DOOM opt-in, how DOOM is launched, what a key or a socket
    message does, the command-line grammar, and the pixel formats and
    autostart entries of the desktop shells.
- `tests/` — tests of the library on concrete values.
- `app/` — the `aa` program around the library: terminal, browser, X11 and Wayland
  I/O, the floating-point scenes (donut, helix, matrix rain) and the scene
  loop.
