use zava::config::{BlendDirection, ColorConfig, RgbColor, TerminalColor};
use zava::render::color::{color256, rgb_bg_rgb, rgb_fg_rgb, truecolor_from_colorterm, ColorMap, Shades};

fn cfg(fg: TerminalColor) -> ColorConfig {
    ColorConfig {
        background: TerminalColor::Default,
        foreground: fg,
        gradient: false,
        gradient_colors: Vec::new(),
        horizontal_gradient: false,
        horizontal_gradient_colors: Vec::new(),
        blend_direction: BlendDirection::Up,
        spectrum: false,
        background_gradient: false,
        theme: String::new(),
    }
}

/// Shades that a flat (gradient-free) map ignores.
fn flat(lines: usize, bars: usize) -> Shades {
    Shades { cells: vec![vec![RgbColor { r: 0, g: 0, b: 0 }; bars]; lines], ramp: Vec::new() }
}

/// A vertical ramp from black on the first line to white on the last.
fn vertical(lines: usize, bars: usize) -> Shades {
    let cells = (0..lines)
        .map(|y| {
            let v = (255 * y / (lines - 1)) as u8;
            vec![RgbColor { r: v, g: v, b: v }; bars]
        })
        .collect();
    Shades { cells, ramp: Vec::new() }
}

#[test]
fn no_gradient_fg_escape_is_vivid_rgb() {
    let cmap = ColorMap::new_tc(&cfg(TerminalColor::Red), 4, 8, true, &flat(4, 8));
    assert_eq!(cmap.get_fg_escape(2, 2), "\x1b[38;2;255;0;0m");

    let cyan = ColorMap::new_tc(&cfg(TerminalColor::Cyan), 4, 8, true, &flat(4, 8));
    assert_eq!(cyan.get_fg_escape(0, 7), "\x1b[38;2;0;255;255m");

    let rgb = ColorMap::new_tc(&cfg(TerminalColor::Rgb(12, 34, 56)), 4, 8, true, &flat(4, 8));
    assert_eq!(rgb.get_fg_escape(0, 0), "\x1b[38;2;12;34;56m");
}

#[test]
fn default_fg_stays_uncoloured() {
    let cmap = ColorMap::new_tc(&cfg(TerminalColor::Default), 4, 8, true, &flat(4, 8));
    assert_eq!(cmap.get_fg_escape(1, 1), "\x1b[39m");
}

#[test]
fn non_truecolor_falls_back_to_256_cube() {
    let cmap = ColorMap::new_tc(&cfg(TerminalColor::Red), 4, 8, false, &flat(4, 8));
    assert_eq!(cmap.get_fg_escape(2, 2), "\x1b[38;5;196m");
}

#[test]
fn gradient_overrides_the_fg_escape() {
    let mut c = cfg(TerminalColor::Red);
    c.gradient = true;
    c.gradient_colors = vec![TerminalColor::Black, TerminalColor::White];
    let cmap = ColorMap::new_tc(&c, 8, 4, true, &vertical(8, 4));
    assert!(cmap.get_fg_escape(0, 0).starts_with("\x1b[38;2;"));
    assert_ne!(cmap.get_fg_escape(0, 0), cmap.get_fg_escape(7, 0));
}

#[test]
fn accent_contrasts_foreground() {
    let dark = ColorMap::new_tc(&cfg(TerminalColor::Blue), 4, 8, true, &flat(4, 8));
    assert_eq!(dark.accent_escape(), "\x1b[38;2;255;255;255m");
    let light = ColorMap::new_tc(&cfg(TerminalColor::White), 4, 8, true, &flat(4, 8));
    assert_eq!(light.accent_escape(), "\x1b[38;2;0;0;0m");
}

#[test]
fn background_gradient_gives_per_row_escapes() {
    let mut c = cfg(TerminalColor::Default);
    c.background_gradient = true;
    let mut sh = flat(8, 4);
    sh.ramp = (0..8u8).map(|y| RgbColor { r: 10 + y, g: 20, b: 30 }).collect();
    let cmap = ColorMap::new_tc(&c, 8, 4, true, &sh);
    assert!(cmap.bg_row(0).is_some());
    assert!(cmap.bg_row(7).is_some());
    assert_ne!(cmap.bg_row(0).unwrap(), cmap.bg_row(7).unwrap());

    let plain = ColorMap::new_tc(&cfg(TerminalColor::Default), 8, 4, true, &flat(8, 4));
    assert!(plain.bg_row(3).is_none());
    assert_eq!(cmap.bg_row(2), Some("\x1b[48;2;12;20;30m"));
}

#[test]
fn k256_cube_maps_primary_colours() {
    assert_eq!(color256(255, 0, 0), 196);
    assert_eq!(color256(0, 255, 0), 46);
    assert_eq!(color256(0, 0, 255), 21);
    assert_eq!(color256(0, 0, 0), 16);
    assert_eq!(color256(255, 255, 255), 231);
}

#[test]
fn escapes_in_both_colour_modes() {
    assert_eq!(rgb_fg_rgb(1, 2, 3, true), "\x1b[38;2;1;2;3m");
    assert_eq!(rgb_bg_rgb(1, 2, 3, true), "\x1b[48;2;1;2;3m");
    assert_eq!(rgb_fg_rgb(255, 0, 0, false), "\x1b[38;5;196m");
    assert_eq!(rgb_bg_rgb(0, 0, 255, false), "\x1b[48;5;21m");
}

#[test]
fn truecolor_needs_a_truecolor_colorterm() {
    assert!(truecolor_from_colorterm(Some("truecolor")));
    assert!(truecolor_from_colorterm(Some("24bit")));
    assert!(!truecolor_from_colorterm(Some("xterm")));
    assert!(truecolor_from_colorterm(None));
}

#[test]
fn dim_copy_scales_each_channel() {
    let cmap = ColorMap::new_tc(&cfg(TerminalColor::Rgb(200, 100, 50)), 4, 8, true, &flat(4, 8));
    assert_eq!(cmap.dim_fg(0, 0, 50), "\x1b[38;2;100;50;25m");
}


#[test]
fn shaded_maps_draw_the_given_shades() {
    let mut c = cfg(TerminalColor::Red);
    c.spectrum = true;
    let mut sh = flat(2, 3);
    sh.cells[1][2] = RgbColor { r: 7, g: 8, b: 9 };
    let cmap = ColorMap::new_tc(&c, 2, 3, true, &sh);
    assert!(cmap.has_gradient);
    assert_eq!(cmap.get_fg_escape(1, 2), "\x1b[38;2;7;8;9m");
    let mut g = cfg(TerminalColor::Red);
    g.gradient = true;
    let empty = ColorMap::new_tc(&g, 2, 3, true, &sh);
    assert_eq!(empty.get_fg_escape(1, 2), "\x1b[38;2;255;0;0m");
    let _ = BlendDirection::Up;
}
