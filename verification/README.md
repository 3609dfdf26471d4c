# crtscope

A CRT-style oscilloscope screensaver for the terminal. The drawing core is a
Verus-verified library; the program around it is ordinary Rust.

- `src/` — the verified library:
  - `framebuffer` — the sub-pixel grid of brightness keys, Bresenham line
    and polyline drawing, with the lines' closed-form points and their laws;
  - `render` — terminal cells, braille rendering of the frame buffer, text
    and box drawing, and the list of cells to redraw;
  - `palette` — the colour stops of each phosphor palette;
  - `controls` — the keyboard state machine and the screen geometry;
  - `cli` — the mode, renderer and palette enums.
- `app/` — the program: command-line parsing (clap), terminal I/O
  (crossterm), the signal generators and the floating-point shading
  (decay, colour interpolation, coordinate mapping).
- `tests/` — tests of the library.

Brightness is real-valued in the program; the library stores each
brightness by its key, the bit pattern of the non-negative `f32`, whose
integer order is the order of the brightnesses.
