use zava::render::terminal::{
    level_glyph, mirrored_colour_row, mirrored_glyph, mirrored_row, span_glyph, BarLayout, ASCII_CHARS, HORIZ_LEFT_CHARS,
    HORIZ_RIGHT_CHARS, TOP_CHARS, VERT_CHARS,
};

#[test]
fn vertical_charset_has_no_blank_level() {
    assert_eq!(VERT_CHARS[0], '\u{2581}', "lowest vertical level must be ▁");
    assert_eq!(VERT_CHARS[7], '█');
    assert!(VERT_CHARS.iter().all(|c| *c != ' '), "VERT_CHARS must not contain a space glyph");
}

#[test]
fn mirrored_glyph_never_blank_for_inked_levels() {
    for is_upper in [false, true] {
        assert_eq!(mirrored_glyph(is_upper, 0, false, false), ' ', "true silence should stay blank");
        for level in 1..=8 {
            assert_ne!(
                mirrored_glyph(is_upper, level, false, false),
                ' ',
                "level {level} vanished ({})",
                if is_upper { "upper" } else { "lower" }
            );
        }
    }
}

fn ink(c: char) -> usize {
    match c {
        ' ' => 0,
        '▁' | '▔' => 1,
        '▂' => 2,
        '▃' => 3,
        '▄' | '▀' => 4,
        '▅' => 5,
        '▆' => 6,
        '▇' => 7,
        '█' => 8,
        _ => 0,
    }
}

#[test]
fn mirrored_glyph_is_monotonic() {
    for is_upper in [false, true] {
        let mut prev = 0;
        for level in 0..=8usize {
            let r = ink(mirrored_glyph(is_upper, level, false, false));
            assert!(r >= prev, "mirrored_glyph(upper={is_upper}, level={level}) inked {r} < previous {prev}");
            prev = r;
        }
        assert_eq!(mirrored_glyph(is_upper, 0, false, false), ' ');
        assert_eq!(mirrored_glyph(is_upper, 8, false, false), '\u{2588}');
    }
}

#[test]
fn other_charsets_have_no_blank_level() {
    assert_eq!(TOP_CHARS[0], '\u{2594}');
    assert_eq!(TOP_CHARS[7], '█');
    assert_eq!(HORIZ_LEFT_CHARS[0], '\u{258F}');
    assert_eq!(HORIZ_LEFT_CHARS[7], '█');
    assert_eq!(HORIZ_RIGHT_CHARS[0], '\u{2590}');
    assert_eq!(HORIZ_RIGHT_CHARS[7], '█');
    for set in [TOP_CHARS, HORIZ_LEFT_CHARS, HORIZ_RIGHT_CHARS] {
        assert!(set.iter().all(|c| *c != ' '), "orientation charset must not contain a space glyph");
        assert_eq!(set.len(), 8, "charset must have 8 entries");
    }
}

#[test]
fn charsets_are_monotonically_growing() {
    for set in [VERT_CHARS, HORIZ_LEFT_CHARS] {
        let mut seen = set.to_vec();
        seen.sort();
        seen.dedup();
        assert_eq!(seen.len(), set.len(), "charset contains duplicate glyphs");
    }
    for set in [TOP_CHARS, HORIZ_RIGHT_CHARS] {
        assert!(set.iter().all(|c| *c != ' '), "quantised charset must not contain a space glyph");
        assert_eq!(set.len(), 8, "quantised charset must have 8 entries");
        assert_ne!(set[0], set[7], "quantised charset must distinguish empty from full");
    }
}

#[test]
fn mirrored_geometry_pairs_rows_symmetrically() {
    for height in [8usize, 9, 10, 24, 25, 40, 51] {
        let half = (height / 2).max(1);
        let upper_base = half;
        let lower_base = half - 1;

        assert_eq!(upper_base - lower_base, 1, "height={height}");

        for y_lower in 0..=lower_base {
            let y_upper = (2 * half - 1).saturating_sub(y_lower);
            if y_upper >= height {
                continue;
            }
            assert!(y_upper >= upper_base, "height={height}: mirrored row {y_upper} is not in the upper half");
            assert_eq!(lower_base - y_lower, y_upper - upper_base, "height={height}: offsets differ for y_lower={y_lower}");
            // The library's row mapping agrees: both rows sit the same
            // distance from the centre, on opposite halves.
            assert_eq!(mirrored_row(height, y_lower), (lower_base - y_lower, false));
            assert_eq!(mirrored_row(height, y_upper), (y_upper - upper_base, true));
        }

        assert!(lower_base <= height - 1);
    }
}

#[test]
fn layout_never_overflows_the_axis() {
    for dim in [1usize, 7, 24, 25, 80, 100, 239] {
        for w in [1usize, 2, 3, 8, 64] {
            for sp in [0usize, 1, 4, 16] {
                for n in [1usize, 2, 3, 17, 33, 200, 512] {
                    let l = BarLayout::new(dim, n, w, sp);
                    let last = l.starts[l.len() - 1];
                    assert!(last + l.bar_width <= dim, "bar {last}+{} exceeds axis {dim} (n={n} w={w} sp={sp})", l.bar_width);
                    let occupied: Vec<usize> =
                        l.rev.iter().enumerate().filter_map(|(c, v)| v.map(|_| c)).collect();
                    assert_eq!(occupied.len(), l.len() * l.bar_width, "cell reuse");
                }
            }
        }
    }
}

#[test]
fn autofit_layout_keeps_uniform_gaps_with_edge_margins() {
    for dim in [80usize, 100, 121, 239] {
        for w in [1usize, 2, 3] {
            for sp in [0usize, 1, 2] {
                for n in [5usize, 17, 33] {
                    let l = BarLayout::new(dim, n, w, sp);
                    let gaps: Vec<usize> = (0..l.len() - 1).map(|i| l.gap_before(i + 1)).collect();
                    assert!(gaps.iter().all(|&g| g == sp), "gaps must all equal spacing (n={n} w={w} sp={sp} dim={dim}): {gaps:?}");
                    let used = l.starts[l.len() - 1] + l.bar_width;
                    let (left, right) = (l.starts[0], dim.saturating_sub(used));
                    let n2 = n.min(((dim + sp) / (w + sp)).max(1));
                    let leftover = dim - (n2 * w + (n2 - 1) * sp);
                    assert!(
                        used <= dim && left + right == leftover && right.abs_diff(left) <= 1,
                        "spare cells must split symmetrically around the block (n={n} w={w} sp={sp} dim={dim}): used={used} left={left} right={right}"
                    );
                }
            }
        }
    }
}

#[test]
fn autofit_spacing_zero_never_holes_the_block() {
    for (dim, n) in [(25usize, 24usize), (13, 12), (24, 24)] {
        let l = BarLayout::new(dim, n, 1, 0);
        assert_eq!(l.len(), n, "dim={dim}");
        let spare: Vec<usize> = l
            .rev
            .iter()
            .enumerate()
            .filter_map(|(c, v)| if v.is_none() { Some(c) } else { None })
            .collect();
        assert_eq!(spare.len(), dim - n, "dim={dim} n={n}: expected {spare:?} spare cells");
        for cell in spare {
            assert!(cell == 0 || cell == dim - 1, "dim={dim}: spare cell {cell} is inside the bar block");
        }
        assert_eq!(l.rev.iter().flatten().count(), n, "every bar mapped");
    }
}

#[test]
fn fixed_layout_is_centred() {
    let l = BarLayout::new(100, 10, 2, 1);
    assert_eq!(l.starts[0], 35);
    assert_eq!(l.gap_before(3), 1);
}

#[test]
fn autofit_layout_keeps_spacing_uniform() {
    let l = BarLayout::new(100, 32, 2, 1);
    let gaps: Vec<usize> = (0..l.len() - 1).map(|i| l.gap_before(i + 1)).collect();
    assert!(gaps.iter().all(|&g| g == 1), "all gaps must be exactly 1: {gaps:?}");
    assert_eq!(l.starts[0], 2);
    assert_eq!(l.starts[l.len() - 1] + l.bar_width, 97);
}

#[test]
fn level_glyph_picks_the_eighth() {
    assert_eq!(level_glyph(&VERT_CHARS, 0, false), ' ');
    assert_eq!(level_glyph(&VERT_CHARS, 0, true), '▁');
    assert_eq!(level_glyph(&VERT_CHARS, 3, false), '▃');
    assert_eq!(level_glyph(&VERT_CHARS, 8, false), '█');
    assert_eq!(level_glyph(&ASCII_CHARS, 8, false), '#');
}

#[test]
fn mirrored_idle_heads_and_ascii() {
    assert_eq!(mirrored_glyph(true, 0, true, false), '▁');
    assert_eq!(mirrored_glyph(false, 0, true, false), '▔');
    assert_eq!(mirrored_glyph(false, 0, true, true), '.');
    assert_eq!(mirrored_glyph(false, 3, false, true), ':');
}

#[test]
fn mirrored_colour_rows_pair_up() {
    // Height 10: rows 4 and 5 sit on either side of the centre and share
    // a colour row.
    assert_eq!(mirrored_colour_row(10, 4), mirrored_colour_row(10, 5));
    assert_eq!(mirrored_colour_row(10, 0), mirrored_colour_row(10, 9));
}

#[test]
fn layout_trailing_margin() {
    let l = BarLayout::new(100, 32, 2, 1);
    assert_eq!(l.trailing(100), 3);
}

#[test]
fn waveform_spans_pick_half_blocks() {
    // Half-rows 4 and 5 make up the cell.
    assert_eq!(span_glyph(0, 10, 4, false), Some('\u{2588}'));
    assert_eq!(span_glyph(4, 4, 4, false), Some('\u{2580}'));
    assert_eq!(span_glyph(5, 9, 4, false), Some('\u{2584}'));
    assert_eq!(span_glyph(6, 9, 4, false), None);
    assert_eq!(span_glyph(0, 3, 4, false), None);
    assert_eq!(span_glyph(0, 10, 4, true), Some('#'));
    assert_eq!(span_glyph(4, 4, 4, true), Some(':'));
    assert_eq!(span_glyph(5, 5, 4, true), Some(','));
}

#[test]
fn layout_covers_bars_times_width_cells() {
    for (dim, n, w, sp) in [(100, 10, 3, 1), (80, 0, 2, 0), (7, 50, 4, 9), (1, 3, 5, 2), (64, 12, 1, 4)] {
        let l = BarLayout::new(dim, n, w, sp);
        let covered = l.rev.iter().filter(|c| c.is_some()).count();
        assert_eq!(covered, l.len() * l.bar_width, "{dim} {n} {w} {sp}");
    }
}
