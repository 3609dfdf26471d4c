//! The viewer's keyboard controls and screen geometry.
//!
//! While the trace runs, keys quit, open the settings menu or ask for the
//! trace to be scaled; in the menu, keys move between the mode row and the
//! palette row and step the selected setting through its values.
use vstd::prelude::*;
use crate::cli::{Mode, Palette, Renderer, next_mode, prev_mode, next_palette, prev_palette};

verus! {

/// Whether the trace runs or the settings menu is open.
#[derive(Copy, Clone, Debug, PartialEq, Eq, Structural)]
pub enum AppState {
    Running,
    Menu,
}

/// A key press, as far as the controls tell keys apart.
#[derive(Copy, Clone, Debug, PartialEq, Eq, Structural)]
pub enum Key {
    Char(char),
    Esc,
    Enter,
    Up,
    Down,
    Left,
    Right,
    Other,
}

/// The change of trace scale a key asks for: each step multiplies or
/// divides the scale of one axis by 1.2.
#[derive(Copy, Clone, Debug, PartialEq, Eq, Structural)]
pub enum ScaleChange {
    Keep,
    GrowY,
    ShrinkY,
    GrowX,
    ShrinkX,
}

/// The state the keys act on.
#[derive(Copy, Clone, Debug, PartialEq, Eq, Structural)]
pub struct Controls {
    pub state: AppState,
    /// The menu row under the cursor: 0 for the mode, any other for the palette.
    pub menu_selected: usize,
    pub should_quit: bool,
    pub mode: Mode,
    pub palette: Palette,
}

/// The controls after `key` is pressed in `c`.
pub open spec fn after_key(c: Controls, key: Key) -> Controls {
    match c.state {
        AppState::Running => match key {
            Key::Char('q') | Key::Esc => Controls { should_quit: true, ..c },
            Key::Char('m') => Controls { state: AppState::Menu, ..c },
            _ => c,
        },
        AppState::Menu => match key {
            Key::Esc | Key::Enter => Controls { state: AppState::Running, ..c },
            Key::Up => Controls {
                menu_selected: if c.menu_selected == 0 { 0 } else { (c.menu_selected - 1) as usize },
                ..c
            },
            Key::Down => Controls {
                menu_selected: if c.menu_selected < 1 { (c.menu_selected + 1) as usize } else { c.menu_selected },
                ..c
            },
            Key::Left => if c.menu_selected == 0 {
                Controls { mode: prev_mode(c.mode), ..c }
            } else {
                Controls { palette: prev_palette(c.palette), ..c }
            },
            Key::Right => if c.menu_selected == 0 {
                Controls { mode: next_mode(c.mode), ..c }
            } else {
                Controls { palette: next_palette(c.palette), ..c }
            },
            _ => c,
        },
    }
}

/// The scale change that `key` asks for in `c`.
pub open spec fn scale_for_key(c: Controls, key: Key) -> ScaleChange {
    match c.state {
        AppState::Running => match key {
            Key::Char('=') | Key::Char('+') => ScaleChange::GrowY,
            Key::Char('-') => ScaleChange::ShrinkY,
            Key::Char(']') => ScaleChange::GrowX,
            Key::Char('[') => ScaleChange::ShrinkX,
            _ => ScaleChange::Keep,
        },
        AppState::Menu => ScaleChange::Keep,
    }
}

impl Controls {
    /// The controls at start-up: running, the cursor on the mode row.
    pub fn new(mode: Mode, palette: Palette) -> (c: Controls)
        ensures
            c == (Controls { state: AppState::Running, menu_selected: 0, should_quit: false, mode, palette }),
    {
        Controls { state: AppState::Running, menu_selected: 0, should_quit: false, mode, palette }
    }

    /// Applies a key press and returns the scale change it asks for.
    pub fn handle_key(&mut self, key: Key) -> (change: ScaleChange)
        ensures
            *final(self) == after_key(*old(self), key),
            change == scale_for_key(*old(self), key),
    {
        match self.state {
            AppState::Running => match key {
                Key::Char('q') | Key::Esc => {
                    self.should_quit = true;
                    ScaleChange::Keep
                },
                Key::Char('m') => {
                    self.state = AppState::Menu;
                    ScaleChange::Keep
                },
                Key::Char('=') | Key::Char('+') => ScaleChange::GrowY,
                Key::Char('-') => ScaleChange::ShrinkY,
                Key::Char(']') => ScaleChange::GrowX,
                Key::Char('[') => ScaleChange::ShrinkX,
                _ => ScaleChange::Keep,
            },
            AppState::Menu => {
                match key {
                    Key::Esc | Key::Enter => {
                        self.state = AppState::Running;
                    },
                    Key::Up => {
                        self.menu_selected = self.menu_selected.saturating_sub(1);
                    },
                    Key::Down => {
                        if self.menu_selected < 1 {
                            self.menu_selected += 1;
                        }
                    },
                    Key::Left => {
                        if self.menu_selected == 0 {
                            self.mode = self.mode.prev();
                        } else {
                            self.palette = self.palette.prev();
                        }
                    },
                    Key::Right => {
                        if self.menu_selected == 0 {
                            self.mode = self.mode.next();
                        } else {
                            self.palette = self.palette.next();
                        }
                    },
                    _ => {},
                }
                ScaleChange::Keep
            },
        }
    }
}

/// Columns of the settings menu box.
pub const MENU_WIDTH: usize = 34;

/// Rows of the settings menu box.
pub const MENU_HEIGHT: usize = 8;

/// The size of the frame buffer behind a terminal of `cols` by `rows`
/// cells: a braille cell holds two by four sub-pixels, a block cell one by
/// two.
pub fn subpixel_size(renderer: Renderer, cols: u16, rows: u16) -> (size: (usize, usize))
    ensures
        renderer == Renderer::Braille ==> size.0 == 2 * cols && size.1 == 4 * rows,
        renderer == Renderer::Block ==> size.0 == cols && size.1 == 2 * rows,
{
    match renderer {
        Renderer::Braille => (cols as usize * 2, rows as usize * 4),
        Renderer::Block => (cols as usize, rows as usize * 2),
    }
}

/// The top-left corner of the settings menu, centred on a terminal of
/// `width` by `height` cells (at the edge when the terminal is smaller
/// than the menu).
pub fn menu_origin(width: u16, height: u16) -> (origin: (usize, usize))
    ensures
        origin.0 == (if width >= MENU_WIDTH { (width - MENU_WIDTH) / 2 } else { 0 }),
        origin.1 == (if height >= MENU_HEIGHT { (height - MENU_HEIGHT) / 2 } else { 0 }),
{
    let menu_x = (width as usize).saturating_sub(MENU_WIDTH) / 2;
    let menu_y = (height as usize).saturating_sub(MENU_HEIGHT) / 2;
    (menu_x, menu_y)
}

/// The cursor of the menu stays on one of its two rows.
pub proof fn lemma_menu_row_stays(c: Controls, key: Key)
    requires
        c.menu_selected <= 1,
    ensures
        after_key(c, key).menu_selected <= 1,
{
}

/// Only `q` or Esc while the trace runs asks to quit, and once asked the
/// request stands.
pub proof fn lemma_quit(c: Controls, key: Key)
    ensures
        c.should_quit ==> after_key(c, key).should_quit,
        !c.should_quit ==> (after_key(c, key).should_quit <==> c.state == AppState::Running && (key
            == Key::Char('q') || key == Key::Esc)),
{
}

/// Scaling happens only while the trace runs, and the mode and palette
/// change only in the menu.
pub proof fn lemma_settings_only_in_menu(c: Controls, key: Key)
    ensures
        c.state == AppState::Menu ==> scale_for_key(c, key) == ScaleChange::Keep,
        c.state == AppState::Running ==> after_key(c, key).mode == c.mode && after_key(c, key).palette == c.palette,
{
}

/// In the menu, Right then Left on the same row restores the setting, and
/// so does Left then Right.
pub proof fn lemma_menu_steps_undo(c: Controls)
    requires
        c.state == AppState::Menu,
    ensures
        after_key(after_key(c, Key::Right), Key::Left) == c,
        after_key(after_key(c, Key::Left), Key::Right) == c,
{
    crate::cli::lemma_mode_cycle(c.mode);
    crate::cli::lemma_palette_cycle(c.palette);
}

/// `m` opens the menu and Esc or Enter closes it again, leaving the
/// settings as they were.
pub proof fn lemma_menu_open_close(c: Controls, close: Key)
    requires
        c.state == AppState::Running,
        close == Key::Esc || close == Key::Enter,
    ensures
        after_key(c, Key::Char('m')).state == AppState::Menu,
        after_key(after_key(c, Key::Char('m')), close) == c,
{
}


/// While the trace runs, the scale keys scale the trace whatever the rest
/// of the controls hold: `+` and `=` grow the vertical scale, `-` shrinks
/// it, `]` grows the horizontal scale and `[` shrinks it; no other key
/// scales. The scale change depends only on the state and the key.
pub proof fn lemma_scale_keys(c: Controls, d: Controls, key: Key)
    ensures
        c.state == AppState::Running ==> {
            &&& scale_for_key(c, Key::Char('+')) == ScaleChange::GrowY
            &&& scale_for_key(c, Key::Char('=')) == ScaleChange::GrowY
            &&& scale_for_key(c, Key::Char('-')) == ScaleChange::ShrinkY
            &&& scale_for_key(c, Key::Char(']')) == ScaleChange::GrowX
            &&& scale_for_key(c, Key::Char('[')) == ScaleChange::ShrinkX
        },
        key != Key::Char('+') && key != Key::Char('=') && key != Key::Char('-') && key != Key::Char(']')
            && key != Key::Char('[') ==> scale_for_key(c, key) == ScaleChange::Keep,
        c.state == d.state ==> scale_for_key(c, key) == scale_for_key(d, key),
{
}

/// In the menu, Right and Left step the setting on the cursor's row one
/// place along its cycle and leave everything else alone: on the mode row
/// the mode, on the palette row the palette.
pub proof fn lemma_menu_steps(c: Controls)
    requires
        c.state == AppState::Menu,
    ensures
        c.menu_selected == 0 ==> after_key(c, Key::Right) == (Controls { mode: next_mode(c.mode), ..c }),
        c.menu_selected == 0 ==> after_key(c, Key::Left) == (Controls { mode: prev_mode(c.mode), ..c }),
        c.menu_selected != 0 ==> after_key(c, Key::Right) == (Controls { palette: next_palette(c.palette), ..c }),
        c.menu_selected != 0 ==> after_key(c, Key::Left) == (Controls { palette: prev_palette(c.palette), ..c }),
{
}

} // verus!
