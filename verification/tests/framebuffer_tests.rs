use crtscope::framebuffer::{FrameBuffer, MAX_KEY};

const ONE: u32 = 0x3F80_0000; // brightness 1.0
const HALF: u32 = 0x3F00_0000; // brightness 0.5

fn lit_points(fb: &FrameBuffer) -> Vec<(usize, usize)> {
    let mut out = Vec::new();
    for y in 0..fb.height {
        for x in 0..fb.width {
            if fb.pixels[y * fb.width + x] != 0 {
                out.push((x, y));
            }
        }
    }
    out
}

#[test]
fn max_key_is_the_bit_pattern_of_one_point_one() {
    assert_eq!(MAX_KEY, 1.1f32.to_bits());
    assert_eq!(ONE, 1.0f32.to_bits());
    assert_eq!(HALF, 0.5f32.to_bits());
}

#[test]
fn new_buffer_is_black() {
    let fb = FrameBuffer::new(4, 3);
    assert_eq!(fb.width, 4);
    assert_eq!(fb.height, 3);
    assert_eq!(fb.pixels.len(), 12);
    assert!(fb.pixels.iter().all(|&p| p == 0));
}

#[test]
fn empty_buffer_has_no_pixels() {
    let fb = FrameBuffer::new(0, 7);
    assert!(fb.pixels.is_empty());
}

#[test]
fn resize_clears_to_new_size() {
    let mut fb = FrameBuffer::new(2, 2);
    fb.set_pixel(1, 1, ONE);
    fb.resize(3, 5);
    assert_eq!((fb.width, fb.height), (3, 5));
    assert_eq!(fb.pixels.len(), 15);
    assert!(fb.pixels.iter().all(|&p| p == 0));
}

#[test]
fn set_pixel_writes_one_cell_row_major() {
    let mut fb = FrameBuffer::new(4, 3);
    fb.set_pixel(2, 1, HALF);
    assert_eq!(fb.pixels[1 * 4 + 2], HALF);
    assert_eq!(lit_points(&fb), vec![(2, 1)]);
}

#[test]
fn set_pixel_limits_the_key() {
    let mut fb = FrameBuffer::new(2, 2);
    fb.set_pixel(0, 0, 2.5f32.to_bits());
    assert_eq!(fb.pixels[0], MAX_KEY);
    fb.set_pixel(1, 0, f32::INFINITY.to_bits());
    assert_eq!(fb.pixels[1], MAX_KEY);
}

#[test]
fn set_pixel_outside_is_ignored() {
    let mut fb = FrameBuffer::new(3, 3);
    fb.set_pixel(-1, 1, ONE);
    fb.set_pixel(3, 1, ONE);
    fb.set_pixel(1, 3, ONE);
    fb.set_pixel(-5, -5, ONE);
    assert!(fb.pixels.iter().all(|&p| p == 0));
}

fn row_major(mut pts: Vec<(usize, usize)>) -> Vec<(usize, usize)> {
    pts.sort_by_key(|&(x, y)| (y, x));
    pts
}

#[test]
fn draw_line_shallow() {
    let mut fb = FrameBuffer::new(8, 4);
    fb.draw_line(0, 0, 5, 2, ONE);
    assert_eq!(lit_points(&fb), row_major(vec![(0, 0), (1, 0), (2, 1), (3, 1), (4, 2), (5, 2)]));
    assert!(fb.pixels.iter().all(|&p| p == 0 || p == ONE));
}

#[test]
fn draw_line_reversed_shallow() {
    let mut fb = FrameBuffer::new(8, 4);
    fb.draw_line(5, 2, 0, 0, ONE);
    assert_eq!(lit_points(&fb), row_major(vec![(5, 2), (4, 2), (3, 1), (2, 1), (1, 0), (0, 0)]));
}

#[test]
fn draw_line_vertical_up() {
    let mut fb = FrameBuffer::new(3, 4);
    fb.draw_line(1, 3, 1, 0, ONE);
    assert_eq!(lit_points(&fb), row_major(vec![(1, 3), (1, 2), (1, 1), (1, 0)]));
}

#[test]
fn draw_line_diagonal() {
    let mut fb = FrameBuffer::new(4, 4);
    fb.draw_line(0, 0, 3, 3, ONE);
    assert_eq!(lit_points(&fb), row_major(vec![(0, 0), (1, 1), (2, 2), (3, 3)]));
}

#[test]
fn draw_line_steep_leftward() {
    let mut fb = FrameBuffer::new(7, 4);
    fb.draw_line(6, 1, 0, 3, ONE);
    assert_eq!(
        lit_points(&fb),
        row_major(vec![(6, 1), (5, 1), (4, 2), (3, 2), (2, 2), (1, 3), (0, 3)])
    );
}

#[test]
fn draw_line_single_point() {
    let mut fb = FrameBuffer::new(4, 4);
    fb.draw_line(2, 2, 2, 2, HALF);
    assert_eq!(lit_points(&fb), vec![(2, 2)]);
    assert_eq!(fb.pixels[2 * 4 + 2], HALF);
}

#[test]
fn draw_line_clipped_at_left_edge() {
    let mut fb = FrameBuffer::new(4, 2);
    fb.draw_line(-2, 1, 3, 1, ONE);
    assert_eq!(lit_points(&fb), vec![(0, 1), (1, 1), (2, 1), (3, 1)]);
}

#[test]
fn draw_line_entirely_outside() {
    let mut fb = FrameBuffer::new(4, 4);
    fb.draw_line(10, 0, 20, 3, ONE);
    assert!(fb.pixels.iter().all(|&p| p == 0));
}

#[test]
fn draw_line_keeps_other_pixels() {
    let mut fb = FrameBuffer::new(4, 4);
    fb.set_pixel(3, 0, HALF);
    fb.draw_line(0, 3, 2, 3, ONE);
    assert_eq!(fb.pixels[3], HALF);
    assert_eq!(lit_points(&fb), vec![(3, 0), (0, 3), (1, 3), (2, 3)]);
}

#[test]
fn draw_line_limits_the_key() {
    let mut fb = FrameBuffer::new(3, 1);
    fb.draw_line(0, 0, 2, 0, 3.0f32.to_bits());
    assert!(fb.pixels.iter().all(|&p| p == MAX_KEY));
}

#[test]
fn draw_polyline_connects_points() {
    let mut fb = FrameBuffer::new(5, 5);
    let pts: Vec<(isize, isize)> = vec![(0, 0), (2, 0), (2, 2), (4, 4)];
    fb.draw_polyline(&pts, ONE);
    assert_eq!(
        lit_points(&fb),
        row_major(vec![(0, 0), (1, 0), (2, 0), (2, 1), (2, 2), (3, 3), (4, 4)])
    );
}

#[test]
fn draw_polyline_with_one_point_draws_nothing() {
    let mut fb = FrameBuffer::new(3, 3);
    fb.draw_polyline(&vec![(1, 1)], ONE);
    assert!(fb.pixels.iter().all(|&p| p == 0));
    fb.draw_polyline(&Vec::new(), ONE);
    assert!(fb.pixels.iter().all(|&p| p == 0));
}
