use zava::render::{bars_that_fit, effective_bar_width, widest_sane_bar_width, MIN_BARS_ON_AXIS};

#[test]
fn auto_mode_never_renders_a_single_wall() {
    let bars = 0usize;
    let bar_width = 64usize;
    let bar_spacing = 1usize;
    for dim in [40usize, 80, 100, 200, 400] {
        let w = effective_bar_width(bars, bar_width, bar_spacing, dim);
        let n = bars_that_fit(dim, w, bar_spacing);
        assert!(n >= MIN_BARS_ON_AXIS, "dim={dim}: bar_width 64 auto-fit to {n} bars (w={w})");
    }
}

#[test]
fn fixed_mode_keeps_the_configured_width() {
    // A fixed count of 12 bars with width 40 and the default spacing of 1.
    assert_eq!(effective_bar_width(12, 40, 1, 100), 40);
}

#[test]
fn widest_sane_width_keeps_at_least_min_bars_when_possible() {
    for dim in [9usize, 12, 25, 80, 100, 240] {
        for sp in [0usize, 1, 2, 5] {
            let w = widest_sane_bar_width(dim, sp);
            if bars_that_fit(dim, 1, sp) >= MIN_BARS_ON_AXIS {
                let n = bars_that_fit(dim, w, sp);
                assert!(n >= MIN_BARS_ON_AXIS, "dim={dim} sp={sp}: widest sane width {w} leaves only {n} bars");
            } else {
                assert_eq!(w, 1, "dim={dim} sp={sp}: width must fall back to 1");
            }
        }
    }
}

#[test]
fn bars_that_fit_counts_whole_bars() {
    // 100 cells, 2-cell bars, 1-cell gaps: (100 + 1) / 3 = 33.
    assert_eq!(bars_that_fit(100, 2, 1), 33);
    // Never 0, even on a zero-width axis.
    assert_eq!(bars_that_fit(0, 5, 5), 1);
    // A bar wider than the axis is clamped to it.
    assert_eq!(bars_that_fit(10, 50, 0), 1);
}

#[test]
fn widest_sane_width_on_a_wide_axis_is_capped() {
    assert_eq!(widest_sane_bar_width(1000, 1), 64);
    // 80 cells, spacing 1: width 19 gives (81 / 20) = 4 bars, width 20 only 3.
    assert_eq!(widest_sane_bar_width(80, 1), 19);
}

#[test]
fn auto_mode_clamps_only_in_auto_mode() {
    assert_eq!(effective_bar_width(0, 64, 1, 80), 19);
    assert_eq!(effective_bar_width(0, 0, 1, 80), 1);
    assert_eq!(effective_bar_width(5, 0, 1, 80), 1);
}
