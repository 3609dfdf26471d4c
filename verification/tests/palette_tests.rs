use crtscope::cli::Palette;
use crtscope::palette::{ColorStops, Rgb};

#[test]
fn green_stops() {
    assert_eq!(
        Palette::Green.stops(),
        ColorStops { hot: Rgb(220, 255, 220), bright: Rgb(81, 255, 50), normal: Rgb(41, 180, 0), dim: Rgb(0, 50, 0) }
    );
}

#[test]
fn phantom_stops() {
    let s = Palette::Phantom.stops();
    assert_eq!(s.hot, Rgb(255, 255, 255));
    assert_eq!(s.dim, Rgb(30, 40, 60));
}

#[test]
fn stops_brighten_in_every_palette() {
    for p in [Palette::Green, Palette::Amber, Palette::Red, Palette::Cyan, Palette::Phantom] {
        let s = p.stops();
        for (a, b) in [(s.dim, s.normal), (s.normal, s.bright), (s.bright, s.hot)] {
            assert!(a.0 <= b.0 && a.1 <= b.1 && a.2 <= b.2);
        }
    }
}

#[test]
fn ui_color_is_the_bright_stop() {
    assert_eq!(Palette::Amber.ui_color(), Rgb(255, 176, 0));
    assert_eq!(Palette::Cyan.ui_color(), Palette::Cyan.stops().bright);
}
