//! Placement of bars along a terminal axis and everything drawn from it.

pub mod color;
pub mod raw;
pub mod terminal;

use vstd::prelude::*;

verus! {

/// Smallest number of bars the auto-fit layout will ever be reduced to by a
/// wide `bar_width`.
pub const MIN_BARS_ON_AXIS: usize = 4;

/// Widest bar the auto-fit range ever reaches.
pub const MAX_AUTO_BAR_WIDTH: usize = 64;

pub open spec fn imin(a: int, b: int) -> int {
    if a < b { a } else { b }
}

pub open spec fn imax(a: int, b: int) -> int {
    if a < b { b } else { a }
}

/// The axis length actually laid out: at least one cell.
pub open spec fn axis_cells(dim: int) -> int {
    imax(dim, 1)
}

/// The bar width actually laid out: at least one cell, at most the axis.
pub open spec fn laid_width(dim: int, bar_width: int) -> int {
    imin(imax(bar_width, 1), axis_cells(dim))
}

/// The gap actually laid out between bars: at most the axis.
pub open spec fn laid_spacing(dim: int, spacing: int) -> int {
    imin(spacing, axis_cells(dim))
}

/// Number of bars of the given width and spacing that fit on the axis
/// (never 0).
pub open spec fn fit_count(dim: int, bar_width: int, spacing: int) -> int {
    let d = axis_cells(dim);
    let w = laid_width(dim, bar_width);
    let sp = laid_spacing(dim, spacing);
    imax((d + sp) / (w + sp), 1)
}

/// The axis arithmetic stays inside `usize`.
pub open spec fn axis_in_range(dim: int, spacing: int) -> bool {
    axis_cells(dim) + laid_spacing(dim, spacing) <= usize::MAX
}

/// Bars that fit along an axis of `dim` cells with the given bar width and
/// spacing. Never returns 0.
pub fn bars_that_fit(dim: usize, bar_width: usize, bar_spacing: usize) -> (r: usize)
    requires
        axis_in_range(dim as int, bar_spacing as int),
    ensures
        r == fit_count(dim as int, bar_width as int, bar_spacing as int),
        1 <= r <= axis_cells(dim as int),
{
    let d = if dim < 1 { 1 } else { dim };
    let w1 = if bar_width < 1 { 1 } else { bar_width };
    let w = if w1 < d { w1 } else { d };
    let sp = if bar_spacing < d { bar_spacing } else { d };
    let q = (d + sp) / (w + sp);
    proof {
        assert((d + sp) / (w + sp) <= d) by (nonlinear_arith)
            requires d >= 1, w >= 1, sp >= 0;
    }
    if q < 1 { 1 } else { q }
}

/// Widest bar width, starting the search at `w`, that still leaves at least
/// [`MIN_BARS_ON_AXIS`] bars; the search stops at [`MAX_AUTO_BAR_WIDTH`].
pub open spec fn widest_from(dim: int, spacing: int, w: int) -> int
    decreases 64 - w,
{
    if w < 64 && fit_count(dim, w + 1, spacing) >= 4 {
        widest_from(dim, spacing, w + 1)
    } else {
        w
    }
}

/// Widest bar (capped at 64) that still leaves at least [`MIN_BARS_ON_AXIS`]
/// bars on an axis of `dim` cells: the "fewest bars" end of the auto range.
pub open spec fn widest_sane(dim: int, spacing: int) -> int {
    widest_from(dim, spacing, 1)
}

pub(crate) proof fn lemma_widest_from_bounds(dim: int, spacing: int, w: int)
    requires
        1 <= w <= 64,
    ensures
        w <= widest_from(dim, spacing, w) <= 64,
        fit_count(dim, w, spacing) >= 4 ==> fit_count(dim, widest_from(dim, spacing, w), spacing)
            >= 4,
    decreases 64 - w,
{
    if w < 64 && fit_count(dim, w + 1, spacing) >= 4 {
        lemma_widest_from_bounds(dim, spacing, w + 1);
    }
}

/// Widest bar width (at most 64) that still leaves at least
/// [`MIN_BARS_ON_AXIS`] bars on an axis of `dim` cells.
pub fn widest_sane_bar_width(dim: usize, bar_spacing: usize) -> (r: usize)
    requires
        axis_in_range(dim as int, bar_spacing as int),
    ensures
        r == widest_sane(dim as int, bar_spacing as int),
        1 <= r <= 64,
{
    let mut w: usize = 1;
    while w < MAX_AUTO_BAR_WIDTH && bars_that_fit(dim, w + 1, bar_spacing) >= MIN_BARS_ON_AXIS
        invariant
            1 <= w <= 64,
            axis_in_range(dim as int, bar_spacing as int),
            widest_from(dim as int, bar_spacing as int, w as int) == widest_sane(
                dim as int,
                bar_spacing as int,
            ),
        decreases 64 - w,
    {
        w = w + 1;
    }
    proof {
        lemma_widest_from_bounds(dim as int, bar_spacing as int, 1);
    }
    w
}

/// Whenever width 1 leaves at least [`MIN_BARS_ON_AXIS`] bars on the axis,
/// the widest sane width does too; otherwise it is width 1.
pub proof fn lemma_widest_sane_keeps_min_bars(dim: int, spacing: int)
    ensures
        1 <= widest_sane(dim, spacing) <= 64,
        fit_count(dim, 1, spacing) >= 4 ==> fit_count(dim, widest_sane(dim, spacing), spacing)
            >= 4,
        fit_count(dim, 1, spacing) < 4 && fit_count(dim, 2, spacing) < 4 ==> widest_sane(
            dim,
            spacing,
        ) == 1,
{
    lemma_widest_from_bounds(dim, spacing, 1);
}

/// The bar width actually used for layout: in auto mode (`bars == 0`) the
/// configured width clamped to the widest sane width, otherwise the
/// configured width; never below 1.
pub open spec fn effective_width(bars: int, bar_width: int, spacing: int, dim: int) -> int {
    let w = imax(bar_width, 1);
    if bars == 0 {
        imin(w, widest_sane(dim, spacing))
    } else {
        w
    }
}

/// The bar width actually used for layout and rendering.
///
/// In auto mode (`bars == 0`) this is the configured width clamped so at
/// least [`MIN_BARS_ON_AXIS`] bars still fit the axis (whenever that is
/// possible at all). A fixed bar count keeps its configured width.
pub fn effective_bar_width(bars: usize, bar_width: usize, bar_spacing: usize, dim: usize) -> (r:
    usize)
    requires
        axis_in_range(dim as int, bar_spacing as int),
    ensures
        r == effective_width(bars as int, bar_width as int, bar_spacing as int, dim as int),
        r >= 1,
{
    let w = if bar_width < 1 { 1 } else { bar_width };
    if bars == 0 {
        let sane = widest_sane_bar_width(dim, bar_spacing);
        if w < sane { w } else { sane }
    } else {
        w
    }
}

/// In auto mode no bar width, however large, shrinks the spectrum below
/// [`MIN_BARS_ON_AXIS`] bars on an axis that can hold that many.
pub proof fn lemma_auto_mode_keeps_min_bars(bar_width: int, spacing: int, dim: int)
    requires
        spacing >= 0,
        fit_count(dim, 1, spacing) >= 4,
    ensures
        fit_count(dim, effective_width(0, bar_width, spacing, dim), spacing) >= 4,
{
    lemma_widest_sane_keeps_min_bars(dim, spacing);
    let w = effective_width(0, bar_width, spacing, dim);
    let s = widest_sane(dim, spacing);
    assert(1 <= w <= s);
    lemma_fit_count_antitone(dim, w, s, spacing);
}

/// A narrower bar never fits fewer bars.
pub proof fn lemma_fit_count_antitone(dim: int, w1: int, w2: int, spacing: int)
    requires
        1 <= w1 <= w2,
        spacing >= 0,
    ensures
        fit_count(dim, w1, spacing) >= fit_count(dim, w2, spacing),
{
    let d = axis_cells(dim);
    let a = laid_width(dim, w1);
    let b = laid_width(dim, w2);
    let sp = laid_spacing(dim, spacing);
    assert(a <= b);
    assert((d + sp) / (a + sp) >= (d + sp) / (b + sp)) by (nonlinear_arith)
        requires
            1 <= a <= b,
            sp >= 0,
            d >= 1,
    {
        vstd::arithmetic::div_mod::lemma_div_is_ordered_by_denominator(d + sp, a + sp, b + sp);
    }
}

/// The bar count that fits is the largest that fits: that many bars of the
/// laid-out width with the laid-out gaps between them fit on the axis, and
/// one bar more does not.
pub proof fn lemma_fit_count_is_largest(dim: int, bar_width: int, spacing: int)
    requires
        spacing >= 0,
    ensures
        ({
            let f = fit_count(dim, bar_width, spacing);
            let w = laid_width(dim, bar_width);
            let sp = laid_spacing(dim, spacing);
            &&& f >= 1
            &&& f * w + (f - 1) * sp <= axis_cells(dim)
            &&& (f + 1) * w + f * sp > axis_cells(dim)
        }),
{
    let d = axis_cells(dim);
    let w = laid_width(dim, bar_width);
    let sp = laid_spacing(dim, spacing);
    let q = (d + sp) / (w + sp);
    assert(1 <= w <= d && 0 <= sp);
    vstd::arithmetic::div_mod::lemma_fundamental_div_mod(d + sp, w + sp);
    vstd::arithmetic::div_mod::lemma_mod_pos_bound(d + sp, w + sp);
    let r = (d + sp) % (w + sp);
    assert(q >= 1) by (nonlinear_arith)
        requires
            d + sp == (w + sp) * q + r,
            0 <= r < w + sp,
            w <= d,
            w >= 1,
            sp >= 0,
    ;
    assert(fit_count(dim, bar_width, spacing) == q);
    assert(q * w + (q - 1) * sp <= d && (q + 1) * w + q * sp > d) by (nonlinear_arith)
        requires
            d + sp == (w + sp) * q + r,
            0 <= r < w + sp,
    ;
}

} // verus!
