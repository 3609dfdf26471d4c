use crtscope::cli::{Mode, Palette, Renderer};
use crtscope::controls::{menu_origin, subpixel_size, AppState, Controls, Key, ScaleChange, MENU_HEIGHT, MENU_WIDTH};

fn start() -> Controls {
    Controls::new(Mode::Lissajous, Palette::Green)
}

#[test]
fn controls_start_running() {
    let c = start();
    assert_eq!(c.state, AppState::Running);
    assert_eq!(c.menu_selected, 0);
    assert!(!c.should_quit);
}

#[test]
fn q_and_esc_quit_while_running() {
    let mut c = start();
    assert_eq!(c.handle_key(Key::Char('q')), ScaleChange::Keep);
    assert!(c.should_quit);
    let mut c = start();
    c.handle_key(Key::Esc);
    assert!(c.should_quit);
    assert_eq!(c.state, AppState::Running);
}

#[test]
fn scale_keys_while_running() {
    let mut c = start();
    assert_eq!(c.handle_key(Key::Char('=')), ScaleChange::GrowY);
    assert_eq!(c.handle_key(Key::Char('+')), ScaleChange::GrowY);
    assert_eq!(c.handle_key(Key::Char('-')), ScaleChange::ShrinkY);
    assert_eq!(c.handle_key(Key::Char(']')), ScaleChange::GrowX);
    assert_eq!(c.handle_key(Key::Char('[')), ScaleChange::ShrinkX);
    assert_eq!(c.handle_key(Key::Char('x')), ScaleChange::Keep);
    assert_eq!(c, start());
}

#[test]
fn menu_opens_and_closes() {
    let mut c = start();
    c.handle_key(Key::Char('m'));
    assert_eq!(c.state, AppState::Menu);
    assert_eq!(c.handle_key(Key::Char('+')), ScaleChange::Keep);
    c.handle_key(Key::Esc);
    assert_eq!(c.state, AppState::Running);
    assert!(!c.should_quit);
    c.handle_key(Key::Char('m'));
    c.handle_key(Key::Enter);
    assert_eq!(c, start());
}

#[test]
fn menu_cursor_moves_between_two_rows() {
    let mut c = start();
    c.handle_key(Key::Char('m'));
    c.handle_key(Key::Up);
    assert_eq!(c.menu_selected, 0);
    c.handle_key(Key::Down);
    assert_eq!(c.menu_selected, 1);
    c.handle_key(Key::Down);
    assert_eq!(c.menu_selected, 1);
    c.handle_key(Key::Up);
    assert_eq!(c.menu_selected, 0);
}

#[test]
fn menu_changes_mode_and_palette() {
    let mut c = start();
    c.handle_key(Key::Char('m'));
    c.handle_key(Key::Right);
    assert_eq!(c.mode, Mode::AudioXy);
    c.handle_key(Key::Left);
    c.handle_key(Key::Left);
    assert_eq!(c.mode, Mode::AudioYt);
    c.handle_key(Key::Down);
    c.handle_key(Key::Left);
    assert_eq!(c.palette, Palette::Phantom);
    c.handle_key(Key::Right);
    c.handle_key(Key::Right);
    assert_eq!(c.palette, Palette::Amber);
    assert_eq!(c.mode, Mode::AudioYt);
}

#[test]
fn letters_do_nothing_in_menu() {
    let mut c = start();
    c.handle_key(Key::Char('m'));
    let before = c;
    c.handle_key(Key::Char('q'));
    c.handle_key(Key::Other);
    assert_eq!(c, before);
}

#[test]
fn mode_cycle() {
    let mut m = Mode::Lissajous;
    let mut seen = Vec::new();
    for _ in 0..3 {
        seen.push(m);
        assert_eq!(m.next().prev(), m);
        m = m.next();
    }
    assert_eq!(m, Mode::Lissajous);
    assert_eq!(seen, vec![Mode::Lissajous, Mode::AudioXy, Mode::AudioYt]);
}

#[test]
fn palette_cycle() {
    let mut p = Palette::Green;
    let mut seen = Vec::new();
    for _ in 0..5 {
        seen.push(p);
        assert_eq!(p.prev().next(), p);
        p = p.next();
    }
    assert_eq!(p, Palette::Green);
    assert_eq!(seen, vec![Palette::Green, Palette::Amber, Palette::Red, Palette::Cyan, Palette::Phantom]);
}

#[test]
fn subpixel_sizes() {
    assert_eq!(subpixel_size(Renderer::Braille, 80, 24), (160, 96));
    assert_eq!(subpixel_size(Renderer::Block, 80, 24), (80, 48));
    assert_eq!(subpixel_size(Renderer::Braille, u16::MAX, u16::MAX), (131070, 262140));
}

#[test]
fn menu_is_centred() {
    assert_eq!((MENU_WIDTH, MENU_HEIGHT), (34, 8));
    assert_eq!(menu_origin(80, 24), (23, 8));
    assert_eq!(menu_origin(35, 9), (0, 0));
    assert_eq!(menu_origin(10, 3), (0, 0));
}
