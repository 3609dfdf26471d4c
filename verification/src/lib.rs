//! The drawing core of a CRT-style oscilloscope for the terminal: a
//! sub-pixel frame buffer with line drawing, the braille rendering of that
//! buffer into terminal cells, the colour stops of the phosphor palettes and
//! the keyboard controls of the viewer.
pub mod cli;
pub mod controls;
pub mod framebuffer;
pub mod palette;
pub mod render;
