use crtscope::framebuffer::FrameBuffer;
use crtscope::palette::Rgb;
use crtscope::render::{TermCell, TerminalBuffer, LIT_KEY};

const ONE: u32 = 0x3F80_0000; // brightness 1.0
const HALF: u32 = 0x3F00_0000; // brightness 0.5

fn grey(k: u32) -> Rgb {
    let v = (k >> 24) as u8;
    Rgb(v, v, v)
}

#[test]
fn lit_key_is_the_bit_pattern_of_one_hundredth() {
    assert_eq!(LIT_KEY, 0.01f32.to_bits());
}

#[test]
fn default_cell_is_blank_black() {
    let c = TermCell::default();
    assert_eq!(c, TermCell { ch: ' ', fg: Rgb(0, 0, 0) });
}

#[test]
fn new_terminal_buffer_is_blank() {
    let tb = TerminalBuffer::new(3, 2);
    assert_eq!((tb.width, tb.height), (3, 2));
    assert_eq!(tb.cells.len(), 6);
    assert!(tb.cells.iter().all(|c| *c == TermCell::default()));
}

#[test]
fn braille_single_dots() {
    // Each of the eight sub-pixels of one cell maps to its own braille dot.
    let expected = [
        ((0, 0), '\u{2801}'),
        ((0, 1), '\u{2802}'),
        ((0, 2), '\u{2804}'),
        ((1, 0), '\u{2808}'),
        ((1, 1), '\u{2810}'),
        ((1, 2), '\u{2820}'),
        ((0, 3), '\u{2840}'),
        ((1, 3), '\u{2880}'),
    ];
    for ((x, y), ch) in expected {
        let mut fb = FrameBuffer::new(2, 4);
        fb.set_pixel(x, y, ONE);
        let mut tb = TerminalBuffer::new(1, 1);
        tb.render_braille(&fb, grey);
        assert_eq!(tb.cells[0].ch, ch);
    }
}

#[test]
fn braille_full_cell_and_colour_of_brightest_dot() {
    let mut fb = FrameBuffer::new(2, 4);
    for i in 0..8 {
        fb.pixels[i] = HALF;
    }
    fb.pixels[5] = ONE;
    let mut tb = TerminalBuffer::new(1, 1);
    tb.render_braille(&fb, grey);
    assert_eq!(tb.cells[0], TermCell { ch: '\u{28FF}', fg: grey(ONE) });
}

#[test]
fn braille_dim_pixels_stay_blank() {
    let mut fb = FrameBuffer::new(2, 4);
    fb.pixels[0] = LIT_KEY; // exactly the threshold: not lit
    fb.pixels[3] = 0.005f32.to_bits();
    let mut tb = TerminalBuffer::new(1, 1);
    tb.render_braille(&fb, grey);
    assert_eq!(tb.cells[0], TermCell { ch: ' ', fg: grey(0) });
}

#[test]
fn braille_maps_cells_to_their_sub_pixels() {
    let mut fb = FrameBuffer::new(4, 8);
    fb.set_pixel(3, 7, ONE); // cell (1, 1), dot 8
    fb.set_pixel(0, 4, HALF); // cell (0, 1), dot 1
    let mut tb = TerminalBuffer::new(2, 2);
    tb.render_braille(&fb, grey);
    assert_eq!(tb.cells[0].ch, ' ');
    assert_eq!(tb.cells[1].ch, ' ');
    assert_eq!(tb.cells[2], TermCell { ch: '\u{2801}', fg: grey(HALF) });
    assert_eq!(tb.cells[3], TermCell { ch: '\u{2880}', fg: grey(ONE) });
}

#[test]
fn braille_cells_past_the_frame_buffer_are_blank() {
    let mut fb = FrameBuffer::new(2, 4);
    fb.set_pixel(1, 1, ONE);
    let mut tb = TerminalBuffer::new(3, 1);
    tb.cells[2] = TermCell { ch: 'x', fg: Rgb(1, 2, 3) };
    tb.render_braille(&fb, grey);
    assert_eq!(tb.cells[0].ch, '\u{2810}');
    assert_eq!(tb.cells[1], TermCell { ch: ' ', fg: grey(0) });
    assert_eq!(tb.cells[2], TermCell { ch: ' ', fg: grey(0) });
}

#[test]
fn draw_text_writes_and_clips() {
    let mut tb = TerminalBuffer::new(5, 2);
    let c = Rgb(9, 8, 7);
    tb.draw_text(2, 1, "abcdef", c);
    let row: String = tb.cells[5..10].iter().map(|cell| cell.ch).collect();
    assert_eq!(row, "  abc");
    assert_eq!(tb.cells[7], TermCell { ch: 'a', fg: c });
    assert!(tb.cells[0..5].iter().all(|cell| *cell == TermCell::default()));
}

#[test]
fn draw_text_outside_does_nothing() {
    let mut tb = TerminalBuffer::new(3, 1);
    tb.draw_text(0, 1, "abc", Rgb(1, 1, 1));
    tb.draw_text(3, 0, "abc", Rgb(1, 1, 1));
    assert!(tb.cells.iter().all(|cell| *cell == TermCell::default()));
}

#[test]
fn draw_text_unicode() {
    let mut tb = TerminalBuffer::new(4, 1);
    tb.draw_text(0, 0, "\u{00e9}\u{2500}z", Rgb(1, 1, 1));
    let row: String = tb.cells.iter().map(|cell| cell.ch).collect();
    assert_eq!(row, "\u{00e9}\u{2500}z ");
}

#[test]
fn draw_box_frame_and_title() {
    let mut tb = TerminalBuffer::new(8, 4);
    tb.cells[1 * 8 + 2] = TermCell { ch: '#', fg: Rgb(5, 5, 5) };
    let c = Rgb(0, 200, 0);
    tb.draw_box(0, 0, 6, 3, "AB", c);
    let rows: Vec<String> = (0..4).map(|y| tb.cells[y * 8..y * 8 + 8].iter().map(|cell| cell.ch).collect()).collect();
    assert_eq!(rows[0], "\u{250C}\u{2500}AB\u{2500}\u{2510}  ");
    assert_eq!(rows[1], "\u{2502}    \u{2502}  ");
    assert_eq!(rows[2], "\u{2514}\u{2500}\u{2500}\u{2500}\u{2500}\u{2518}  ");
    assert_eq!(rows[3], "        ");
    assert_eq!(tb.cells[1 * 8 + 2], TermCell { ch: ' ', fg: c });
    assert_eq!(tb.cells[7], TermCell::default());
}

#[test]
fn draw_box_clipped_by_the_grid() {
    let mut tb = TerminalBuffer::new(4, 2);
    tb.draw_box(2, 1, 5, 5, "", Rgb(1, 1, 1));
    let rows: Vec<String> = (0..2).map(|y| tb.cells[y * 4..y * 4 + 4].iter().map(|cell| cell.ch).collect()).collect();
    assert_eq!(rows[0], "    ");
    assert_eq!(rows[1], "  \u{250C}\u{2500}");
}

#[test]
fn sync_changes_lists_and_copies() {
    let mut cur = TerminalBuffer::new(3, 2);
    let mut prev = TerminalBuffer::new(3, 2);
    cur.cells[1] = TermCell { ch: 'a', fg: Rgb(1, 2, 3) };
    cur.cells[5] = TermCell { ch: 'b', fg: Rgb(0, 0, 0) };
    prev.cells[3] = TermCell { ch: 'z', fg: Rgb(0, 0, 0) };
    let changed = cur.sync_changes(&mut prev);
    assert_eq!(changed, vec![(1, 0), (0, 1), (2, 1)]);
    assert_eq!(prev.cells, cur.cells);
}

#[test]
fn sync_changes_twice_finds_nothing_new() {
    let mut cur = TerminalBuffer::new(2, 2);
    let mut prev = TerminalBuffer::new(2, 2);
    cur.cells[2] = TermCell { ch: 'q', fg: Rgb(7, 7, 7) };
    assert_eq!(cur.sync_changes(&mut prev), vec![(0, 1)]);
    assert!(cur.sync_changes(&mut prev).is_empty());
}

#[test]
fn sync_changes_colour_only() {
    let mut cur = TerminalBuffer::new(1, 1);
    let mut prev = TerminalBuffer::new(1, 1);
    cur.cells[0].fg = Rgb(0, 0, 1);
    assert_eq!(cur.sync_changes(&mut prev), vec![(0, 0)]);
}
