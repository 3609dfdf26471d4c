use vstd::prelude::*;

verus! {

/// Where the traced points come from.
#[derive(Copy, Clone, Debug, PartialEq, Eq, Structural)]
pub enum Mode {
    Lissajous,
    AudioXy,
    AudioYt,
}

/// How the frame buffer is turned into terminal cells.
#[derive(Copy, Clone, Debug, PartialEq, Eq, Structural)]
pub enum Renderer {
    Braille,
    Block,
}

/// The phosphor colour scheme.
#[derive(Copy, Clone, Debug, PartialEq, Eq, Structural)]
pub enum Palette {
    Green,
    Amber,
    Red,
    Cyan,
    /// The pale blue-white scheme (called "ghost" on the command line).
    Phantom,
}

/// The mode after `m` in the menu's cycle.
pub open spec fn next_mode(m: Mode) -> Mode {
    match m {
        Mode::Lissajous => Mode::AudioXy,
        Mode::AudioXy => Mode::AudioYt,
        Mode::AudioYt => Mode::Lissajous,
    }
}

/// The mode before `m` in the menu's cycle.
pub open spec fn prev_mode(m: Mode) -> Mode {
    match m {
        Mode::Lissajous => Mode::AudioYt,
        Mode::AudioXy => Mode::Lissajous,
        Mode::AudioYt => Mode::AudioXy,
    }
}

/// The palette after `p` in the menu's cycle.
pub open spec fn next_palette(p: Palette) -> Palette {
    match p {
        Palette::Green => Palette::Amber,
        Palette::Amber => Palette::Red,
        Palette::Red => Palette::Cyan,
        Palette::Cyan => Palette::Phantom,
        Palette::Phantom => Palette::Green,
    }
}

/// The palette before `p` in the menu's cycle.
pub open spec fn prev_palette(p: Palette) -> Palette {
    match p {
        Palette::Green => Palette::Phantom,
        Palette::Amber => Palette::Green,
        Palette::Red => Palette::Amber,
        Palette::Cyan => Palette::Red,
        Palette::Phantom => Palette::Cyan,
    }
}

impl Mode {
    /// The mode after this one in the menu's cycle (the last wraps to the first).
    pub fn next(self) -> (r: Mode)
        ensures
            r == next_mode(self),
    {
        match self {
            Mode::Lissajous => Mode::AudioXy,
            Mode::AudioXy => Mode::AudioYt,
            Mode::AudioYt => Mode::Lissajous,
        }
    }

    /// The mode before this one in the menu's cycle (the first wraps to the last).
    pub fn prev(self) -> (r: Mode)
        ensures
            r == prev_mode(self),
    {
        match self {
            Mode::Lissajous => Mode::AudioYt,
            Mode::AudioXy => Mode::Lissajous,
            Mode::AudioYt => Mode::AudioXy,
        }
    }
}

impl Palette {
    /// The palette after this one in the menu's cycle (the last wraps to the first).
    pub fn next(self) -> (r: Palette)
        ensures
            r == next_palette(self),
    {
        match self {
            Palette::Green => Palette::Amber,
            Palette::Amber => Palette::Red,
            Palette::Red => Palette::Cyan,
            Palette::Cyan => Palette::Phantom,
            Palette::Phantom => Palette::Green,
        }
    }

    /// The palette before this one in the menu's cycle (the first wraps to the last).
    pub fn prev(self) -> (r: Palette)
        ensures
            r == prev_palette(self),
    {
        match self {
            Palette::Green => Palette::Phantom,
            Palette::Amber => Palette::Green,
            Palette::Red => Palette::Amber,
            Palette::Cyan => Palette::Red,
            Palette::Phantom => Palette::Cyan,
        }
    }
}

/// Stepping forward and back through the modes undo each other, and three
/// steps forward come back to the start.
pub proof fn lemma_mode_cycle(m: Mode)
    ensures
        prev_mode(next_mode(m)) == m,
        next_mode(prev_mode(m)) == m,
        next_mode(next_mode(next_mode(m))) == m,
        next_mode(m) != m,
{
}

/// Stepping forward and back through the palettes undo each other, and
/// five steps forward come back to the start.
pub proof fn lemma_palette_cycle(p: Palette)
    ensures
        prev_palette(next_palette(p)) == p,
        next_palette(prev_palette(p)) == p,
        next_palette(next_palette(next_palette(next_palette(next_palette(p))))) == p,
        next_palette(p) != p,
{
}


/// The menu steps through the modes and the palettes in the order they
/// are listed, wrapping from the last back to the first.
pub proof fn lemma_cycle_order()
    ensures
        next_mode(Mode::Lissajous) == Mode::AudioXy,
        next_mode(Mode::AudioXy) == Mode::AudioYt,
        next_mode(Mode::AudioYt) == Mode::Lissajous,
        next_palette(Palette::Green) == Palette::Amber,
        next_palette(Palette::Amber) == Palette::Red,
        next_palette(Palette::Red) == Palette::Cyan,
        next_palette(Palette::Cyan) == Palette::Phantom,
        next_palette(Palette::Phantom) == Palette::Green,
{
}

/// Stepping forward from any palette visits all five before coming back.
pub proof fn lemma_palette_cycle_visits_all(p: Palette, q: Palette)
    ensures
        q == p || q == next_palette(p) || q == next_palette(next_palette(p)) || q == next_palette(
            next_palette(next_palette(p)),
        ) || q == next_palette(next_palette(next_palette(next_palette(p)))),
{
}

/// Stepping forward from any mode visits all three before coming back.
pub proof fn lemma_mode_cycle_visits_all(m: Mode, n: Mode)
    ensures
        n == m || n == next_mode(m) || n == next_mode(next_mode(m)),
{
}

} // verus!
