//! Glyph tables, bar placement along an axis, and the mirrored-mode geometry
//! used by the terminal renderer.

use vstd::prelude::*;
use vstd::arithmetic::div_mod::lemma_fundamental_div_mod_converse;
use crate::render::{axis_cells, fit_count, imax, imin, laid_spacing, laid_width, axis_in_range};

verus! {

/// Bottom-anchored eighths (bar fills up): 1/8 .. 8/8.
pub const VERT_CHARS: [char; 8] = ['\u{2581}', '\u{2582}', '\u{2583}', '\u{2584}', '\u{2585}', '\u{2586}', '\u{2587}', '\u{2588}'];

/// Top-anchored eighths (bar grows down), quantised to the only three
/// top-anchored glyphs Unicode offers.
pub const TOP_CHARS: [char; 8] = ['\u{2594}', '\u{2580}', '\u{2580}', '\u{2580}', '\u{2580}', '\u{2588}', '\u{2588}', '\u{2588}'];

/// Left-anchored eighths (bar grows right): every level has its own glyph.
pub const HORIZ_LEFT_CHARS: [char; 8] = ['\u{258F}', '\u{258E}', '\u{258D}', '\u{258C}', '\u{258B}', '\u{258A}', '\u{2589}', '\u{2588}'];

/// Right-anchored eighths (bar grows left), quantised to the right half
/// block and the full block.
pub const HORIZ_RIGHT_CHARS: [char; 8] = ['\u{2590}', '\u{2590}', '\u{2590}', '\u{2590}', '\u{2590}', '\u{2588}', '\u{2588}', '\u{2588}'];

/// ASCII density fallback shared by the vertical orientations.
pub const ASCII_CHARS: [char; 8] = ['.', ':', ':', '+', '+', '*', '#', '#'];

/// ASCII density fallback for the horizontal orientations.
pub const HORIZ_ASCII_CHARS: [char; 8] = ['-', ':', ':', '=', '=', '*', '#', '#'];

/// Glyph of a cell holding `level` eighths of ink (`level <= 8`): the
/// table entry for levels 1..=8; an empty cell is blank unless it is the
/// bar's base cell and idle heads are shown, in which case it gets the
/// lowest glyph.
pub open spec fn spec_level_glyph(set: Seq<char>, level: int, idle_base: bool) -> char {
    if level >= 1 {
        set[level - 1]
    } else if idle_base {
        set[0]
    } else {
        ' '
    }
}

/// Glyph for a bar cell that holds `level` eighths of ink.
pub fn level_glyph(set: &[char; 8], level: usize, idle_base: bool) -> (r: char)
    requires
        level <= 8,
    ensures
        r == spec_level_glyph(set@, level as int, idle_base),
{
    if level >= 1 {
        set[level - 1]
    } else if idle_base {
        set[0]
    } else {
        ' '
    }
}

/// Glyph of one mirrored-mode cell (see [`mirrored_glyph`]).
pub open spec fn spec_mirrored_glyph(is_upper: bool, level: int, idle_here: bool, ascii: bool) -> char {
    let vert = if ascii { ASCII_CHARS@ } else { VERT_CHARS@ };
    let top = if ascii { ASCII_CHARS@ } else { TOP_CHARS@ };
    if is_upper {
        if idle_here && level == 0 {
            vert[0]
        } else if level >= 1 {
            vert[level - 1]
        } else {
            ' '
        }
    } else if idle_here && level == 0 {
        if ascii { '.' } else { '\u{2594}' }
    } else if level >= 1 {
        top[imin(level - 1, 7)]
    } else {
        ' '
    }
}

/// Glyph for one mirrored-mode cell. Bars above the centre grow up (the
/// full bottom-anchored set), bars below grow down (the top-anchored set).
pub fn mirrored_glyph(is_upper: bool, level: usize, idle_here: bool, ascii: bool) -> (r: char)
    requires
        level <= 8,
    ensures
        r == spec_mirrored_glyph(is_upper, level as int, idle_here, ascii),
{
    let (vert, top) = if ascii {
        (ASCII_CHARS, ASCII_CHARS)
    } else {
        (VERT_CHARS, TOP_CHARS)
    };
    if is_upper {
        if idle_here && level == 0 {
            vert[0]
        } else if level >= 1 {
            vert[level - 1]
        } else {
            ' '
        }
    } else if idle_here && level == 0 {
        if ascii {
            '.'
        } else {
            '\u{2594}'
        }
    } else if level >= 1 {
        let i = if level - 1 < 7 { level - 1 } else { 7 };
        top[i]
    } else {
        ' '
    }
}

/// Eighths of a cell that a block glyph inks (0 for blank or other glyphs).
pub open spec fn ink_eighths(c: char) -> int {
    if c == '\u{2581}' || c == '\u{2594}' {
        1
    } else if c == '\u{2582}' {
        2
    } else if c == '\u{2583}' {
        3
    } else if c == '\u{2584}' || c == '\u{2580}' {
        4
    } else if c == '\u{2585}' {
        5
    } else if c == '\u{2586}' {
        6
    } else if c == '\u{2587}' {
        7
    } else if c == '\u{2588}' {
        8
    } else {
        0
    }
}

/// A mirrored cell with any ink is never blank, true silence is blank, a
/// full level is a full block, and a taller level never inks less.
pub proof fn lemma_mirrored_glyph_ink(is_upper: bool, level: int, idle_here: bool)
    requires
        0 <= level <= 8,
    ensures
        level >= 1 ==> spec_mirrored_glyph(is_upper, level, idle_here, false) != ' ',
        level >= 1 ==> spec_mirrored_glyph(is_upper, level, idle_here, true) != ' ',
        spec_mirrored_glyph(is_upper, 0, false, false) == ' ',
        spec_mirrored_glyph(is_upper, 8, false, false) == '\u{2588}',
        level >= 1 ==> ink_eighths(spec_mirrored_glyph(is_upper, level - 1, false, false))
            <= ink_eighths(spec_mirrored_glyph(is_upper, level, false, false)),
{
}

/// Row geometry of the mirrored ("horizontal") orientation: for screen row
/// `y` counted from the bottom, its distance from its half's centre-adjacent
/// base row and whether it belongs to the upper half.
pub open spec fn spec_mirrored_row(height: int, y: int) -> (int, bool) {
    let half = imax(height / 2, 1);
    if y >= half {
        (y - half, true)
    } else {
        (half - 1 - y, false)
    }
}

/// See [`spec_mirrored_row`].
pub fn mirrored_row(height: usize, y: usize) -> (r: (usize, bool))
    ensures
        (r.0 as int, r.1) == spec_mirrored_row(height as int, y as int),
{
    let h2 = height / 2;
    let half = if h2 < 1 { 1 } else { h2 };
    if y >= half {
        (y - half, true)
    } else {
        (half - 1 - y, false)
    }
}

/// Colour-table row used for mirrored row `y`: upper rows reuse the colour
/// of their mirror image below the centre line.
pub open spec fn spec_mirrored_colour_row(height: int, y: int) -> int {
    let half = imax(height / 2, 1);
    if y >= half {
        imin(imax(2 * half - 1 - y, 0), height - 1)
    } else {
        y
    }
}

/// See [`spec_mirrored_colour_row`].
pub fn mirrored_colour_row(height: usize, y: usize) -> (r: usize)
    requires
        1 <= height,
    ensures
        r == spec_mirrored_colour_row(height as int, y as int),
{
    let h2 = height / 2;
    let half = if h2 < 1 { 1 } else { h2 };
    if y >= half {
        let m = 2 * half - 1;
        let s = if m > y { m - y } else { 0 };
        if s < height - 1 { s } else { height - 1 }
    } else {
        y
    }
}

/// Mirrored rows pair up: the centre-adjacent rows are one apart, and the
/// upper mirror of any lower row (when on screen) lies in the upper half at
/// the same distance from the centre, and takes the lower row's colour.
pub proof fn lemma_mirrored_rows_pair_up(height: int, y_lower: int)
    requires
        height >= 1,
        0 <= y_lower,
        !spec_mirrored_row(height, y_lower).1,
    ensures
        ({
            let half = imax(height / 2, 1);
            let y_upper = 2 * half - 1 - y_lower;
            &&& y_upper < height ==> spec_mirrored_row(height, y_upper).1
            &&& y_upper < height ==> spec_mirrored_row(height, y_upper).0 == spec_mirrored_row(
                height,
                y_lower,
            ).0
            &&& y_upper < height ==> spec_mirrored_colour_row(height, y_upper) == y_lower
        }),
        imax(height / 2, 1) - 1 <= height - 1,
{
}

/// The number of bars actually laid out for a request of `n` bars: at least
/// one, at most what fits.
pub open spec fn laid_count(dim: int, n: int, bar_width: int, spacing: int) -> int {
    imin(imax(n, 1), fit_count(dim, bar_width, spacing))
}

/// Distance from one bar's first cell to the next bar's first cell.
pub open spec fn laid_stride(dim: int, bar_width: int, spacing: int) -> int {
    laid_width(dim, bar_width) + laid_spacing(dim, spacing)
}

/// Cells covered by the bars and the gaps between them.
pub open spec fn laid_block(dim: int, n: int, bar_width: int, spacing: int) -> int {
    let c = laid_count(dim, n, bar_width, spacing);
    c * laid_width(dim, bar_width) + (c - 1) * laid_spacing(dim, spacing)
}

/// Blank cells before the first bar: half of the leftover, rounded down.
pub open spec fn laid_margin(dim: int, n: int, bar_width: int, spacing: int) -> int {
    (axis_cells(dim) - laid_block(dim, n, bar_width, spacing)) / 2
}

/// First cell of bar `i`.
pub open spec fn laid_start(dim: int, n: int, bar_width: int, spacing: int, i: int) -> int {
    laid_margin(dim, n, bar_width, spacing) + i * laid_stride(dim, bar_width, spacing)
}

/// Which bar (and which cell inside it) covers axis cell `c`, if any.
pub open spec fn cell_owner(dim: int, n: int, bar_width: int, spacing: int, c: int) -> Option<
    (usize, usize),
> {
    let m = laid_margin(dim, n, bar_width, spacing);
    let s = laid_stride(dim, bar_width, spacing);
    if c >= m && (c - m) / s < laid_count(dim, n, bar_width, spacing) && (c - m) % s
        < laid_width(dim, bar_width) {
        Some((((c - m) / s) as usize, ((c - m) % s) as usize))
    } else {
        None
    }
}

/// Placement of `n` bars along one axis of `dim` cells.
///
/// No bar ever leaves the axis, every inter-bar gap is exactly the
/// (clamped) spacing, and the leftover cells become centred edge margins.
pub struct BarLayout {
    /// Width of every bar, in cells.
    pub bar_width: usize,
    /// Axis cell each bar starts at.
    pub starts: Vec<usize>,
    /// Axis cell -> (bar index, offset inside the bar); `None` = gap.
    pub rev: Vec<Option<(usize, usize)>>,
}

impl BarLayout {
    /// At least one bar, bars of positive width, in order without overlap.
    pub open spec fn wf(&self) -> bool {
        &&& self.starts@.len() >= 1
        &&& self.bar_width >= 1
        &&& forall|i: int|
            0 < i < self.starts@.len() ==> #[trigger] self.starts@[i] >= self.starts@[i - 1]
                + self.bar_width
    }

    /// The layout that `new(dim, n, bar_width, spacing)` produces.
    pub open spec fn is_layout_of(&self, dim: int, n: int, bar_width: int, spacing: int) -> bool {
        &&& self.bar_width == laid_width(dim, bar_width)
        &&& self.starts@.len() == laid_count(dim, n, bar_width, spacing)
        &&& forall|i: int|
            0 <= i < self.starts@.len() ==> #[trigger] self.starts@[i] == laid_start(
                dim,
                n,
                bar_width,
                spacing,
                i,
            )
        &&& self.rev@.len() == axis_cells(dim)
        &&& forall|c: int|
            0 <= c < self.rev@.len() ==> #[trigger] self.rev@[c] == cell_owner(
                dim,
                n,
                bar_width,
                spacing,
                c,
            )
    }

    pub fn new(dim: usize, n: usize, bar_width: usize, spacing: usize) -> (l: Self)
        requires
            axis_in_range(dim as int, spacing as int),
        ensures
            l.wf(),
            l.is_layout_of(dim as int, n as int, bar_width as int, spacing as int),
    {
        let ghost (gd, gn, gw, gs) = (dim as int, n as int, bar_width as int, spacing as int);
        let dim = if dim < 1 { 1 } else { dim };
        let w1 = if bar_width < 1 { 1 } else { bar_width };
        let bar_width = if w1 < dim { w1 } else { dim };
        let spacing = if spacing < dim { spacing } else { dim };
        let fit = crate::render::bars_that_fit(dim, bar_width, spacing);
        let n1 = if n < 1 { 1 } else { n };
        let n = if n1 < fit { n1 } else { fit };
        proof {
            lemma_block_fits(gd, gn, gw, gs);
            assert(fit == fit_count(gd, gw, gs));
        }
        let gaps = n - 1;
        let stride = bar_width + spacing;
        let block = n * bar_width + gaps * spacing;
        let leftover = dim - block;
        let margin = leftover / 2;

        let mut starts: Vec<usize> = Vec::new();
        let mut pos = margin;
        let mut i: usize = 0;
        while i < n
            invariant
                0 <= i <= n,
                gs >= 0,
                n == laid_count(gd, gn, gw, gs),
                bar_width == laid_width(gd, gw),
                stride == laid_stride(gd, gw, gs),
                margin == laid_margin(gd, gn, gw, gs),
                axis_cells(gd) <= usize::MAX,
                i < n ==> pos == laid_start(gd, gn, gw, gs, i as int),
                laid_margin(gd, gn, gw, gs) + laid_block(gd, gn, gw, gs) <= axis_cells(gd),
                starts@.len() == i,
                forall|k: int| 0 <= k < i ==> #[trigger] starts@[k] == laid_start(gd, gn, gw, gs, k),
            decreases n - i,
        {
            starts.push(pos);
            if i + 1 < n {
                proof {
                    lemma_start_in_block(gd, gn, gw, gs, i as int + 1);
                    lemma_start_step(gd, gn, gw, gs, i as int + 1);
                }
                pos = pos + stride;
            }
            i = i + 1;
        }

        let mut rev: Vec<Option<(usize, usize)>> = Vec::new();
        let mut c: usize = 0;
        while c < dim
            invariant
                0 <= c <= dim,
                dim == axis_cells(gd),
                n == laid_count(gd, gn, gw, gs),
                bar_width == laid_width(gd, gw),
                stride == laid_stride(gd, gw, gs),
                stride >= 1,
                margin == laid_margin(gd, gn, gw, gs),
                rev@.len() == c,
                forall|k: int| 0 <= k < c ==> #[trigger] rev@[k] == cell_owner(gd, gn, gw, gs, k),
            decreases dim - c,
        {
            let owner = if c >= margin {
                let k = c - margin;
                let q = k / stride;
                let r = k % stride;
                if q < n && r < bar_width {
                    Some((q, r))
                } else {
                    None
                }
            } else {
                None
            };
            rev.push(owner);
            c = c + 1;
        }
        let l = BarLayout { bar_width, starts, rev };
        proof {
            assert forall|i: int| 0 < i < l.starts@.len() implies #[trigger] l.starts@[i]
                >= l.starts@[i - 1] + l.bar_width by {
                lemma_start_step(gd, gn, gw, gs, i);
            }
        }
        l
    }

    pub fn len(&self) -> (r: usize)
        ensures
            r == self.starts@.len(),
    {
        self.starts.len()
    }

    /// Blank cells before bar `i` (includes the leading margin for `i == 0`).
    pub fn gap_before(&self, i: usize) -> (r: usize)
        requires
            self.wf(),
            i < self.starts@.len(),
        ensures
            i == 0 ==> r == self.starts@[0],
            i > 0 ==> r == self.starts@[i as int] - self.starts@[i - 1] - self.bar_width,
    {
        if i == 0 {
            self.starts[0]
        } else {
            self.starts[i] - self.starts[i - 1] - self.bar_width
        }
    }

    /// Blank cells after the last bar.
    pub fn trailing(&self, dim: usize) -> (r: usize)
        requires
            self.wf(),
            self.starts@[self.starts@.len() - 1] + self.bar_width <= usize::MAX,
        ensures
            r == imax(dim - (self.starts@[self.starts@.len() - 1] + self.bar_width), 0),
    {
        let end = self.starts[self.starts.len() - 1] + self.bar_width;
        if dim > end { dim - end } else { 0 }
    }
}

/// No bar ever leaves the axis: the last bar ends at or before the last cell.
pub proof fn lemma_layout_within_axis(dim: int, n: int, bar_width: int, spacing: int)
    requires
        spacing >= 0,
    ensures
        laid_start(dim, n, bar_width, spacing, 0) >= 0,
        laid_start(dim, n, bar_width, spacing, laid_count(dim, n, bar_width, spacing) - 1)
            + laid_width(dim, bar_width) <= axis_cells(dim),
{
    lemma_block_fits(dim, n, bar_width, spacing);
    lemma_start_in_block(dim, n, bar_width, spacing, laid_count(dim, n, bar_width, spacing) - 1);
}

/// Every gap between two neighbouring bars is exactly the (clamped) spacing.
pub proof fn lemma_layout_gaps_uniform(dim: int, n: int, bar_width: int, spacing: int, i: int)
    requires
        0 < i < laid_count(dim, n, bar_width, spacing),
    ensures
        laid_start(dim, n, bar_width, spacing, i) - laid_start(dim, n, bar_width, spacing, i - 1)
            - laid_width(dim, bar_width) == laid_spacing(dim, spacing),
{
    lemma_start_step(dim, n, bar_width, spacing, i);
}

/// The leftover cells become the two edge margins, which differ by at most
/// one cell (the right one is never the smaller).
pub proof fn lemma_layout_margins_centred(dim: int, n: int, bar_width: int, spacing: int)
    requires
        spacing >= 0,
    ensures
        ({
            let c = laid_count(dim, n, bar_width, spacing);
            let left = laid_start(dim, n, bar_width, spacing, 0);
            let right = axis_cells(dim) - (laid_start(dim, n, bar_width, spacing, c - 1)
                + laid_width(dim, bar_width));
            &&& left >= 0
            &&& right >= 0
            &&& left + right == axis_cells(dim) - laid_block(dim, n, bar_width, spacing)
            &&& left <= right <= left + 1
        }),
{
    lemma_block_fits(dim, n, bar_width, spacing);
    let c = laid_count(dim, n, bar_width, spacing);
    let w = laid_width(dim, bar_width);
    let sp = laid_spacing(dim, spacing);
    assert((c - 1) * (w + sp) + w == c * w + (c - 1) * sp) by (nonlinear_arith);
    lemma_start_in_block(dim, n, bar_width, spacing, c - 1);
}

/// A request that fits keeps its exact bar count.
pub proof fn lemma_layout_keeps_fitting_count(dim: int, n: int, bar_width: int, spacing: int)
    requires
        1 <= n <= fit_count(dim, bar_width, spacing),
    ensures
        laid_count(dim, n, bar_width, spacing) == n,
{
}

/// Each cell of bar `i` is owned by bar `i` at the matching offset, and a
/// cell owned by bar `i` at offset `off` is exactly that cell: no two bars
/// ever share a cell.
pub proof fn lemma_layout_owner_matches_bar(
    dim: int,
    n: int,
    bar_width: int,
    spacing: int,
    i: usize,
    off: usize,
    c: int,
)
    requires
        spacing >= 0,
        axis_cells(dim) <= usize::MAX,
    ensures
        0 <= i < laid_count(dim, n, bar_width, spacing) && 0 <= off < laid_width(dim, bar_width)
            ==> cell_owner(dim, n, bar_width, spacing, laid_start(dim, n, bar_width, spacing, i as int)
            + off) == Some((i as usize, off as usize)),
        cell_owner(dim, n, bar_width, spacing, c) == Some((i as usize, off as usize)) && 0 <= i
            && 0 <= off ==> c == laid_start(dim, n, bar_width, spacing, i as int) + off && i
            < laid_count(dim, n, bar_width, spacing) && off < laid_width(dim, bar_width),
{
    lemma_block_fits(dim, n, bar_width, spacing);
    let m = laid_margin(dim, n, bar_width, spacing);
    let s = laid_stride(dim, bar_width, spacing);
    let w = laid_width(dim, bar_width);
    if 0 <= i < laid_count(dim, n, bar_width, spacing) && 0 <= off < w {
        let x = laid_start(dim, n, bar_width, spacing, i as int) + off;
        assert(x - m == i * s + off);
        lemma_fundamental_div_mod_converse(x - m, s, i as int, off as int);
        assert(x >= m) by (nonlinear_arith)
            requires
                x - m == i * s + off,
                i >= 0,
                s >= 1,
                off >= 0,
        ;
        lemma_start_in_block(dim, n, bar_width, spacing, i as int);
    }
    if cell_owner(dim, n, bar_width, spacing, c) == Some((i as usize, off as usize)) && 0 <= i
        && 0 <= off {
        let q = (c - m) / s;
        let r = (c - m) % s;
        vstd::arithmetic::div_mod::lemma_fundamental_div_mod(c - m, s);
        vstd::arithmetic::div_mod::lemma_div_pos_is_pos(c - m, s);
        vstd::arithmetic::div_mod::lemma_mod_pos_bound(c - m, s);
        lemma_start_in_block(dim, n, bar_width, spacing, q);
        let cnt = laid_count(dim, n, bar_width, spacing);
        let sp = laid_spacing(dim, spacing);
        assert(cnt <= axis_cells(dim)) by (nonlinear_arith)
            requires
                cnt * w + (cnt - 1) * sp <= axis_cells(dim),
                cnt >= 1,
                w >= 1,
                sp >= 0,
        ;
        assert(q < cnt);
        assert(r < w);
        assert(w <= axis_cells(dim));
        assert(q == i && r == off);
        assert(c == m + s * q + r);
        assert(s * q == q * s) by (nonlinear_arith);
    }
}

/// With zero spacing the bars are packed edge to edge: every cell between
/// the first bar's start and the last bar's end belongs to some bar, so the
/// spare cells only ever sit at the axis edges.
pub proof fn lemma_layout_packed_without_spacing(dim: int, n: int, bar_width: int, c: int)
    requires
        laid_start(dim, n, bar_width, 0, 0) <= c < laid_start(dim, n, bar_width, 0, 0)
            + laid_block(dim, n, bar_width, 0),
    ensures
        cell_owner(dim, n, bar_width, 0, c) is Some,
{
    lemma_block_fits(dim, n, bar_width, 0);
    let m = laid_margin(dim, n, bar_width, 0);
    let w = laid_width(dim, bar_width);
    let cnt = laid_count(dim, n, bar_width, 0);
    assert(laid_spacing(dim, 0) == 0);
    assert(laid_stride(dim, bar_width, 0) == w);
    assert(laid_start(dim, n, bar_width, 0, 0) == m) by (nonlinear_arith)
        requires
            laid_start(dim, n, bar_width, 0, 0) == m + 0 * w,
    ;
    assert(laid_block(dim, n, bar_width, 0) == cnt * w) by (nonlinear_arith)
        requires
            laid_block(dim, n, bar_width, 0) == cnt * w + (cnt - 1) * 0,
    ;
    vstd::arithmetic::div_mod::lemma_mod_pos_bound(c - m, w);
    assert((c - m) / w < cnt) by {
        vstd::arithmetic::div_mod::lemma_div_is_ordered(c - m, cnt * w - 1, w);
        assert((cnt * w - 1) / w < cnt) by (nonlinear_arith)
            requires
                cnt >= 1,
                w >= 1,
        {
            vstd::arithmetic::div_mod::lemma_fundamental_div_mod(cnt * w - 1, w);
            vstd::arithmetic::div_mod::lemma_mod_pos_bound(cnt * w - 1, w);
        }
    }
}

/// The number of cells of `cells` that some bar covers.
pub open spec fn covered_cells(cells: Seq<Option<(usize, usize)>>) -> nat
    decreases cells.len(),
{
    if cells.len() == 0 {
        0
    } else {
        covered_cells(cells.drop_last()) + if cells.last() is Some { 1nat } else { 0nat }
    }
}

/// The bars cover exactly `bars × bar width` cells of the axis: each bar
/// its full width, and no cell twice.
pub proof fn lemma_layout_covers_bars_times_width(l: BarLayout, dim: int, n: int, bar_width: int, spacing: int)
    requires
        spacing >= 0,
        l.is_layout_of(dim, n, bar_width, spacing),
    ensures
        covered_cells(l.rev@) == l.starts@.len() * l.bar_width,
{
    lemma_covered_prefix(l, dim, n, bar_width, spacing, axis_cells(dim));
    assert(l.rev@.take(axis_cells(dim)) == l.rev@);
    lemma_covered_total(dim, n, bar_width, spacing);
}

/// Covered cells among the first `x` cells of the axis, in closed form.
spec fn covered_below(dim: int, n: int, bar_width: int, spacing: int, x: int) -> int {
    let m = laid_margin(dim, n, bar_width, spacing);
    let s = laid_stride(dim, bar_width, spacing);
    let w = laid_width(dim, bar_width);
    let cnt = laid_count(dim, n, bar_width, spacing);
    if x <= m {
        0
    } else if (x - m) / s >= cnt {
        cnt * w
    } else {
        (x - m) / s * w + imin((x - m) % s, w)
    }
}

proof fn lemma_covered_prefix(l: BarLayout, dim: int, n: int, bar_width: int, spacing: int, x: int)
    requires
        spacing >= 0,
        l.is_layout_of(dim, n, bar_width, spacing),
        0 <= x <= axis_cells(dim),
    ensures
        covered_cells(l.rev@.take(x)) == covered_below(dim, n, bar_width, spacing, x),
    decreases x,
{
    if x == 0 {
        lemma_block_fits(dim, n, bar_width, spacing);
        assert(l.rev@.take(0) =~= Seq::<Option<(usize, usize)>>::empty());
    } else {
        lemma_covered_prefix(l, dim, n, bar_width, spacing, x - 1);
        assert(l.rev@.take(x).drop_last() =~= l.rev@.take(x - 1));
        assert(l.rev@.take(x).last() == l.rev@[x - 1]);
        lemma_covered_step(dim, n, bar_width, spacing, x - 1);
    }
}

/// One more cell adds one to the count exactly when a bar covers it.
proof fn lemma_covered_step(dim: int, n: int, bar_width: int, spacing: int, x: int)
    requires
        spacing >= 0,
        0 <= x,
    ensures
        covered_below(dim, n, bar_width, spacing, x + 1) == covered_below(dim, n, bar_width, spacing, x)
            + if cell_owner(dim, n, bar_width, spacing, x) is Some { 1int } else { 0int },
{
    lemma_block_fits(dim, n, bar_width, spacing);
    let m = laid_margin(dim, n, bar_width, spacing);
    let s = laid_stride(dim, bar_width, spacing);
    let w = laid_width(dim, bar_width);
    let cnt = laid_count(dim, n, bar_width, spacing);
    assert(s >= w && s >= 1);
    if x >= m {
        let y = x - m;
        let q = y / s;
        let r = y % s;
        vstd::arithmetic::div_mod::lemma_fundamental_div_mod(y, s);
        vstd::arithmetic::div_mod::lemma_mod_pos_bound(y, s);
        vstd::arithmetic::div_mod::lemma_div_pos_is_pos(y, s);
        if y == 0 {
            lemma_fundamental_div_mod_converse(0, s, 0, 0);
        }
        if r + 1 < s {
            lemma_fundamental_div_mod_converse(y + 1, s, q, r + 1);
        } else {
            assert(y + 1 == (q + 1) * s + 0) by (nonlinear_arith)
                requires
                    y == s * q + r,
                    r + 1 == s,
            ;
            lemma_fundamental_div_mod_converse(y + 1, s, q + 1, 0);
            assert(q * w + w == (q + 1) * w) by (nonlinear_arith);
        }
    }
}

/// All the bars lie inside the axis, so the count over the whole axis is
/// every bar's full width.
proof fn lemma_covered_total(dim: int, n: int, bar_width: int, spacing: int)
    requires
        spacing >= 0,
    ensures
        covered_below(dim, n, bar_width, spacing, axis_cells(dim)) == laid_count(dim, n, bar_width, spacing)
            * laid_width(dim, bar_width),
{
    lemma_block_fits(dim, n, bar_width, spacing);
    let m = laid_margin(dim, n, bar_width, spacing);
    let s = laid_stride(dim, bar_width, spacing);
    let w = laid_width(dim, bar_width);
    let sp = laid_spacing(dim, spacing);
    let cnt = laid_count(dim, n, bar_width, spacing);
    let y = axis_cells(dim) - m;
    assert(laid_block(dim, n, bar_width, spacing) == (cnt - 1) * s + w) by (nonlinear_arith)
        requires
            laid_block(dim, n, bar_width, spacing) == cnt * w + (cnt - 1) * sp,
            s == w + sp,
    ;
    let q = y / s;
    let r = y % s;
    vstd::arithmetic::div_mod::lemma_fundamental_div_mod(y, s);
    vstd::arithmetic::div_mod::lemma_mod_pos_bound(y, s);
    assert(q >= cnt - 1) by (nonlinear_arith)
        requires
            y == s * q + r,
            r < s,
            y >= (cnt - 1) * s + w,
            w >= 1,
            s >= 1,
    ;
    if q < cnt {
        assert(q == cnt - 1);
        assert(r >= w) by (nonlinear_arith)
            requires
                y == s * q + r,
                q == cnt - 1,
                y >= (cnt - 1) * s + w,
        ;
        assert(q * w + w == cnt * w) by (nonlinear_arith)
            requires
                q == cnt - 1,
        ;
    }
}

/// The bars and gaps never cover more cells than the axis has.
pub proof fn lemma_block_fits(dim: int, n: int, bar_width: int, spacing: int)
    ensures
        1 <= laid_count(dim, n, bar_width, spacing),
        1 <= laid_width(dim, bar_width) <= axis_cells(dim),
        0 <= laid_spacing(dim, spacing) || spacing < 0,
        spacing >= 0 ==> laid_block(dim, n, bar_width, spacing) <= axis_cells(dim),
        spacing >= 0 ==> laid_margin(dim, n, bar_width, spacing) >= 0,
        spacing >= 0 ==> laid_margin(dim, n, bar_width, spacing) + laid_block(
            dim,
            n,
            bar_width,
            spacing,
        ) <= axis_cells(dim),
{
    let d = axis_cells(dim);
    let w = laid_width(dim, bar_width);
    let sp = laid_spacing(dim, spacing);
    let c = laid_count(dim, n, bar_width, spacing);
    if spacing >= 0 {
        let q = (d + sp) / (w + sp);
        assert(q >= 0) by (nonlinear_arith) requires d + sp >= 0, w + sp >= 1, q == (d + sp) / (w + sp);
        if q >= 1 {
            assert(c * w + (c - 1) * sp <= d) by (nonlinear_arith)
                requires
                    1 <= c <= q,
                    q == (d + sp) / (w + sp),
                    w >= 1,
                    sp >= 0,
            {
                assert(q * (w + sp) <= d + sp) by {
                    vstd::arithmetic::div_mod::lemma_fundamental_div_mod(d + sp, w + sp);
                    vstd::arithmetic::div_mod::lemma_mod_pos_bound(d + sp, w + sp);
                }
                assert(c * (w + sp) <= q * (w + sp));
            }
        } else {
            assert(c == 1);
        }
        let b = laid_block(dim, n, bar_width, spacing);
        assert(b <= d);
        assert((d - b) / 2 >= 0 && (d - b) / 2 + b <= d);
    }
}

/// Consecutive bars start exactly one stride apart.
proof fn lemma_start_step(dim: int, n: int, bar_width: int, spacing: int, i: int)
    ensures
        laid_start(dim, n, bar_width, spacing, i) == laid_start(dim, n, bar_width, spacing, i - 1)
            + laid_stride(dim, bar_width, spacing),
{
    let s = laid_stride(dim, bar_width, spacing);
    assert(i * s == (i - 1) * s + s) by (nonlinear_arith);
}

/// Every bar after the first starts inside the block.
proof fn lemma_start_in_block(dim: int, n: int, bar_width: int, spacing: int, i: int)
    requires
        spacing >= 0,
        0 <= i < laid_count(dim, n, bar_width, spacing),
    ensures
        laid_start(dim, n, bar_width, spacing, i) + laid_width(dim, bar_width) <= axis_cells(dim),
        laid_start(dim, n, bar_width, spacing, i) == laid_margin(dim, n, bar_width, spacing) + i
            * laid_stride(dim, bar_width, spacing),
{
    lemma_block_fits(dim, n, bar_width, spacing);
    let w = laid_width(dim, bar_width);
    let sp = laid_spacing(dim, spacing);
    let c = laid_count(dim, n, bar_width, spacing);
    assert(i * (w + sp) + w <= c * w + (c - 1) * sp) by (nonlinear_arith)
        requires
            0 <= i < c,
            w >= 1,
            sp >= 0,
    ;
}

/// How a drawn cell is coloured.
#[derive(Debug, Clone, Copy, PartialEq, Eq, Structural)]
pub enum Ink {
    /// Nothing drawn: no colour change.
    Blank,
    /// The bar's own (gradient or foreground) colour.
    Bar,
    /// The high-contrast accent colour of peaks and bar caps.
    Accent,
}

/// One drawn cell: its glyph and how it is coloured.
#[derive(Debug, Clone, Copy, PartialEq, Eq, Structural)]
pub struct Cell {
    pub glyph: char,
    pub ink: Ink,
}

/// Whether a peak marker sits in a cell whose base lies `peak_fill` eighths
/// below the decaying peak: within the cell, or (`bounded` false) anywhere
/// at or below the peak.
pub open spec fn peak_here(peak_fill: int, bounded: bool) -> bool {
    0 <= peak_fill && (!bounded || peak_fill < 8)
}

/// The cell a bar draws, given the glyph its own ink gives the cell and the
/// number of eighths of ink (`fill`) and of peak (`peak_fill`) above the
/// cell's base: a blank cell that the peak reaches shows the peak marker;
/// peaks and partly filled cells (bar caps) take the accent colour when
/// accents are on; other inked cells take the bar's colour.
pub open spec fn spec_bar_cell(
    glyph: char,
    fill: int,
    peak_fill: int,
    peak_bounded: bool,
    draw_peaks: bool,
    bar_cap: bool,
    accent_on: bool,
    peak_glyph: char,
) -> Cell {
    let is_peak = draw_peaks && glyph == ' ' && peak_here(peak_fill, peak_bounded);
    let g = if is_peak { peak_glyph } else { glyph };
    let is_cap = bar_cap && !is_peak && 1 <= fill < 8;
    let ink = if g == ' ' {
        Ink::Blank
    } else if accent_on && (is_peak || is_cap) {
        Ink::Accent
    } else {
        Ink::Bar
    };
    Cell { glyph: g, ink }
}

/// See [`spec_bar_cell`].
pub fn bar_cell(
    glyph: char,
    fill: i64,
    peak_fill: i64,
    peak_bounded: bool,
    draw_peaks: bool,
    bar_cap: bool,
    accent_on: bool,
    peak_glyph: char,
) -> (r: Cell)
    ensures
        r == spec_bar_cell(glyph, fill as int, peak_fill as int, peak_bounded, draw_peaks, bar_cap, accent_on, peak_glyph),
{
    let is_peak = draw_peaks && glyph == ' ' && 0 <= peak_fill && (!peak_bounded || peak_fill < 8);
    let g = if is_peak { peak_glyph } else { glyph };
    let is_cap = bar_cap && !is_peak && 1 <= fill && fill < 8;
    let ink = if g == ' ' {
        Ink::Blank
    } else if accent_on && (is_peak || is_cap) {
        Ink::Accent
    } else {
        Ink::Bar
    };
    Cell { glyph: g, ink }
}

/// A peak marker only ever lands in a cell the bar leaves blank, and a
/// cell the bar fills keeps the bar's glyph.
pub proof fn lemma_peaks_never_cover_ink(
    glyph: char,
    fill: int,
    peak_fill: int,
    peak_bounded: bool,
    draw_peaks: bool,
    bar_cap: bool,
    accent_on: bool,
    peak_glyph: char,
)
    ensures
        glyph != ' ' ==> spec_bar_cell(glyph, fill, peak_fill, peak_bounded, draw_peaks, bar_cap, accent_on, peak_glyph).glyph == glyph,
        !accent_on ==> spec_bar_cell(glyph, fill, peak_fill, peak_bounded, draw_peaks, bar_cap, accent_on, peak_glyph).ink != Ink::Accent,
{
}

/// The glyph of a waveform cell whose upper half-row is `upper` and lower
/// half-row `upper + 1`, for a trace covering half-rows `lo..=hi`: `None`
/// when it covers neither half; otherwise a full block, an upper half block
/// or a lower half block (in ASCII `#`, `:` and `,`).
pub open spec fn spec_span_glyph(lo: int, hi: int, upper: int, ascii: bool) -> Option<char> {
    let up = lo <= upper <= hi;
    let down = lo <= upper + 1 <= hi;
    if !up && !down {
        None
    } else if up && down {
        Some(if ascii { '#' } else { '\u{2588}' })
    } else if up {
        Some(if ascii { ':' } else { '\u{2580}' })
    } else {
        Some(if ascii { ',' } else { '\u{2584}' })
    }
}

/// See [`spec_span_glyph`].
pub fn span_glyph(lo: usize, hi: usize, upper: usize, ascii: bool) -> (r: Option<char>)
    requires
        upper < usize::MAX,
    ensures
        r == spec_span_glyph(lo as int, hi as int, upper as int, ascii),
{
    let lower = upper + 1;
    let up = lo <= upper && upper <= hi;
    let down = lo <= lower && lower <= hi;
    if !up && !down {
        None
    } else if up && down {
        Some(if ascii { '#' } else { '\u{2588}' })
    } else if up {
        Some(if ascii { ':' } else { '\u{2580}' })
    } else {
        Some(if ascii { ',' } else { '\u{2584}' })
    }
}

/// Rows of a frame: whether the frequency axis and the baseline ruler get a
/// row each below the bars (only when the terminal is taller than three
/// rows, never for the waveform), and the rows left for the plot.
pub open spec fn spec_frame_rows(height: int, xaxis: bool, ruler: bool, waveform: bool) -> (bool, bool, int) {
    let has_x = xaxis && height > 3 && !waveform;
    let has_r = ruler && height > 3 && !waveform;
    let extra = (if has_x { 1int } else { 0 }) + (if has_r { 1int } else { 0 });
    if height > extra { (has_x, has_r, height - extra) } else { (false, false, height) }
}

/// See [`spec_frame_rows`].
pub fn frame_rows(height: usize, xaxis: bool, ruler: bool, waveform: bool) -> (r: (bool, bool, usize))
    ensures
        (r.0, r.1, r.2 as int) == spec_frame_rows(height as int, xaxis, ruler, waveform),
{
    let has_x = xaxis && height > 3 && !waveform;
    let has_r = ruler && height > 3 && !waveform;
    let extra: usize = (if has_x { 1 } else { 0 }) + (if has_r { 1 } else { 0 });
    if height > extra { (has_x, has_r, height - extra) } else { (false, false, height) }
}

impl BarLayout {
    /// Column of the stereo divider: in the middle of the gap between the two
    /// halves of an even layout, when that gap exists, lies on the axis and
    /// is not drawn over by a bar.
    pub open spec fn divider_spec(&self, width: int) -> Option<int> {
        let n = self.starts@.len() as int;
        let half = n / 2;
        if n % 2 == 0 && half > 0 {
            let gap = self.starts@[half] - self.starts@[half - 1] - self.bar_width;
            if gap > 0 {
                let col = self.starts@[half] - 1 - gap / 2;
                let is_gap = col >= self.rev@.len() || self.rev@[col] is None;
                if col < width && is_gap { Some(col) } else { None }
            } else {
                None
            }
        } else {
            None
        }
    }

    /// See [`BarLayout::divider_spec`].
    pub fn divider_column(&self, width: usize) -> (r: Option<usize>)
        requires
            self.wf(),
        ensures
            r matches Some(c) ==> self.divider_spec(width as int) == Some(c as int),
            r is None ==> self.divider_spec(width as int) is None,
    {
        let n = self.starts.len();
        let half = n / 2;
        if n % 2 == 0 && half > 0 {
            let gap = self.gap_before(half);
            if gap > 0 {
                let col = self.starts[half] - 1 - gap / 2;
                let is_gap = col >= self.rev.len() || self.rev[col].is_none();
                if col < width && is_gap { Some(col) } else { None }
            } else {
                None
            }
        } else {
            None
        }
    }
}

} // verus!
