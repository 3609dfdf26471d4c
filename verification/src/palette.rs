//! The colour stops of each phosphor palette.
//!
//! A palette shades a trace through four stops: `dim` for the faintest
//! glow, then `normal`, `bright` and `hot` for the brightest core. The
//! interpolation between stops is done by the viewer on real-valued
//! brightness; this module holds the stops themselves.
use vstd::prelude::*;
use crate::cli::Palette;

verus! {

/// A 24-bit terminal colour.
#[derive(Copy, Clone, Debug, PartialEq, Eq, Structural)]
pub struct Rgb(pub u8, pub u8, pub u8);

/// The four colours a palette interpolates between, faintest last.
#[derive(Copy, Clone, Debug, PartialEq, Eq, Structural)]
pub struct ColorStops {
    pub hot: Rgb,
    pub bright: Rgb,
    pub normal: Rgb,
    pub dim: Rgb,
}

/// The stops of each palette.
pub open spec fn palette_stops(p: Palette) -> ColorStops {
    match p {
        Palette::Green => ColorStops {
            hot: Rgb(220, 255, 220),
            bright: Rgb(81, 255, 50),
            normal: Rgb(41, 180, 0),
            dim: Rgb(0, 50, 0),
        },
        Palette::Amber => ColorStops {
            hot: Rgb(255, 255, 200),
            bright: Rgb(255, 176, 0),
            normal: Rgb(180, 100, 0),
            dim: Rgb(60, 30, 0),
        },
        Palette::Red => ColorStops {
            hot: Rgb(255, 200, 200),
            bright: Rgb(255, 50, 50),
            normal: Rgb(180, 0, 0),
            dim: Rgb(50, 0, 0),
        },
        Palette::Cyan => ColorStops {
            hot: Rgb(200, 255, 255),
            bright: Rgb(0, 255, 255),
            normal: Rgb(0, 150, 150),
            dim: Rgb(0, 50, 50),
        },
        Palette::Phantom => ColorStops {
            hot: Rgb(255, 255, 255),
            bright: Rgb(180, 200, 255),
            normal: Rgb(100, 120, 180),
            dim: Rgb(30, 40, 60),
        },
    }
}

/// Each channel of `a` is at most the same channel of `b`.
pub open spec fn rgb_le(a: Rgb, b: Rgb) -> bool {
    a.0 <= b.0 && a.1 <= b.1 && a.2 <= b.2
}

impl Palette {
    /// The colour stops of this palette.
    pub fn stops(&self) -> (s: ColorStops)
        ensures
            s == palette_stops(*self),
    {
        match self {
            Palette::Green => ColorStops {
                hot: Rgb(220, 255, 220),
                bright: Rgb(81, 255, 50),
                normal: Rgb(41, 180, 0),
                dim: Rgb(0, 50, 0),
            },
            Palette::Amber => ColorStops {
                hot: Rgb(255, 255, 200),
                bright: Rgb(255, 176, 0),
                normal: Rgb(180, 100, 0),
                dim: Rgb(60, 30, 0),
            },
            Palette::Red => ColorStops {
                hot: Rgb(255, 200, 200),
                bright: Rgb(255, 50, 50),
                normal: Rgb(180, 0, 0),
                dim: Rgb(50, 0, 0),
            },
            Palette::Cyan => ColorStops {
                hot: Rgb(200, 255, 255),
                bright: Rgb(0, 255, 255),
                normal: Rgb(0, 150, 150),
                dim: Rgb(0, 50, 50),
            },
            Palette::Phantom => ColorStops {
                hot: Rgb(255, 255, 255),
                bright: Rgb(180, 200, 255),
                normal: Rgb(100, 120, 180),
                dim: Rgb(30, 40, 60),
            },
        }
    }

    /// The colour of the status line and the menu: the palette's `bright` stop.
    pub fn ui_color(&self) -> (c: Rgb)
        ensures
            c == palette_stops(*self).bright,
    {
        self.stops().bright
    }
}

/// Every palette brightens channel by channel from black through `dim`,
/// `normal` and `bright` to `hot`, so a brighter trace never gets a darker
/// channel.
pub proof fn lemma_stops_brighten(p: Palette)
    ensures
        rgb_le(Rgb(0, 0, 0), palette_stops(p).dim),
        rgb_le(palette_stops(p).dim, palette_stops(p).normal),
        rgb_le(palette_stops(p).normal, palette_stops(p).bright),
        rgb_le(palette_stops(p).bright, palette_stops(p).hot),
{
}


/// The stops of every palette, as the phosphor table gives them, and the
/// status colour is each palette's bright stop.
pub proof fn lemma_stops_table()
    ensures
        palette_stops(Palette::Green) == (ColorStops {
            hot: Rgb(220, 255, 220),
            bright: Rgb(81, 255, 50),
            normal: Rgb(41, 180, 0),
            dim: Rgb(0, 50, 0),
        }),
        palette_stops(Palette::Amber) == (ColorStops {
            hot: Rgb(255, 255, 200),
            bright: Rgb(255, 176, 0),
            normal: Rgb(180, 100, 0),
            dim: Rgb(60, 30, 0),
        }),
        palette_stops(Palette::Red) == (ColorStops {
            hot: Rgb(255, 200, 200),
            bright: Rgb(255, 50, 50),
            normal: Rgb(180, 0, 0),
            dim: Rgb(50, 0, 0),
        }),
        palette_stops(Palette::Cyan) == (ColorStops {
            hot: Rgb(200, 255, 255),
            bright: Rgb(0, 255, 255),
            normal: Rgb(0, 150, 150),
            dim: Rgb(0, 50, 50),
        }),
        palette_stops(Palette::Phantom) == (ColorStops {
            hot: Rgb(255, 255, 255),
            bright: Rgb(180, 200, 255),
            normal: Rgb(100, 120, 180),
            dim: Rgb(30, 40, 60),
        }),
{
}

/// Different palettes shade differently: no two share their stops, nor
/// their status colour.
pub proof fn lemma_stops_distinct(p: Palette, q: Palette)
    requires
        p != q,
    ensures
        palette_stops(p) != palette_stops(q),
        palette_stops(p).bright != palette_stops(q).bright,
{
}

/// Each palette has its hue: in the dim, normal and bright stops green
/// leads in the green palette, red in the red and amber ones (amber
/// keeping more green than blue, red keeping green and blue equal), green
/// and blue tie above red in the cyan one, and blue leads in the pale one.
pub proof fn lemma_stops_hue(p: Palette)
    ensures
        forall|c: Rgb|
            c == palette_stops(p).dim || c == palette_stops(p).normal || c == palette_stops(p).bright ==> match p {
                Palette::Green => c.1 > c.0 && c.1 > c.2,
                Palette::Amber => c.0 > c.1 && c.1 >= c.2,
                Palette::Red => c.0 > c.1 && c.1 == c.2,
                Palette::Cyan => c.1 == c.2 && c.1 > c.0,
                Palette::Phantom => c.2 > c.1 && c.1 > c.0,
            },
{
}

} // verus!
