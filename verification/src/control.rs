//! Decisions of the main loop: how many bars to draw, what the bar keys do
//! to the bar settings, which colour comes next, and which analysed band
//! feeds each bar on screen.

use vstd::prelude::*;
use crate::config::{MonoOption, TerminalColor};
use crate::render::{
    axis_in_range, bars_that_fit, effective_bar_width, effective_width, fit_count, imax, imin,
    widest_sane, widest_sane_bar_width,
};

verus! {

/// The bar-count settings the bar keys and the menu's bar rows change.
#[derive(Debug, Clone, Copy, PartialEq, Eq, Structural)]
pub struct BarSettings {
    /// Fixed bar count; 0 is auto-fit.
    pub bars: usize,
    pub bar_width: usize,
    pub bar_spacing: usize,
    /// Whether stepping past either end of the range wraps to the other end.
    pub wrap_bars: bool,
}

impl BarSettings {
    /// The bar width used on an axis of `dim` cells.
    pub open spec fn width_on(self, dim: int) -> int {
        effective_width(self.bars as int, self.bar_width as int, self.bar_spacing as int, dim)
    }

    /// Bars of the used width that fit an axis of `dim` cells.
    pub open spec fn fit_on(self, dim: int) -> int {
        fit_count(dim, self.width_on(dim), self.bar_spacing as int)
    }
}

/// Settings whose axis arithmetic stays inside `usize`.
pub open spec fn settings_ok(s: BarSettings, dim: int) -> bool {
    axis_in_range(dim, s.bar_spacing as int)
}

/// `fit` made even when `stereo`, so the two channel halves stay symmetric.
pub open spec fn even_if(fit: int, stereo: bool) -> int {
    if stereo { fit - fit % 2 } else { fit }
}

/// Number of bars to render: in auto mode (`bars == 0`) the count that
/// fills the axis, otherwise the configured count capped to what fits and
/// never below 1. Two output channels keep the fitting count even.
pub open spec fn bar_count(s: BarSettings, dim: int, output_channels: int) -> int {
    let fit = even_if(s.fit_on(dim), output_channels == 2);
    if s.bars > 0 {
        imax(imin(s.bars as int, fit), 1)
    } else {
        fit
    }
}

/// The bar count for an axis of `dim` cells.
pub fn calculate_bars_count(s: &BarSettings, dim: usize, output_channels: u32) -> (r: usize)
    requires
        settings_ok(*s, dim as int),
    ensures
        r == bar_count(*s, dim as int, output_channels as int),
{
    let w = effective_bar_width(s.bars, s.bar_width, s.bar_spacing, dim);
    let mut fit = bars_that_fit(dim, w, s.bar_spacing);
    if output_channels == 2 {
        fit = fit - fit % 2;
    }
    if s.bars > 0 {
        let m = if s.bars < fit { s.bars } else { fit };
        if m < 1 { 1 } else { m }
    } else {
        fit
    }
}

/// Bars per analysed audio channel and bars on screen, from a bar count:
/// stereo input drawn in stereo splits the count into two equal halves (at
/// least one bar each), anything else analyses one channel's worth.
pub open spec fn split_spec(num_bars: int, audio_channels: int, output_channels: int) -> (int, int) {
    if audio_channels == 2 && output_channels == 2 {
        let per = imax(num_bars / 2, 1);
        (per * 2, per)
    } else {
        let per = imax(num_bars, 1);
        (per, per)
    }
}

/// Splits a bar count into (bars on screen, bars per audio channel).
pub fn split_bars(num_bars: usize, audio_channels: usize, output_channels: usize) -> (r: (usize, usize))
    ensures
        r.0 == split_spec(num_bars as int, audio_channels as int, output_channels as int).0,
        r.1 == split_spec(num_bars as int, audio_channels as int, output_channels as int).1,
{
    if audio_channels == 2 && output_channels == 2 {
        let half = num_bars / 2;
        let per = if half < 1 { 1 } else { half };
        (per * 2, per)
    } else {
        let per = if num_bars < 1 { 1 } else { num_bars };
        (per, per)
    }
}

/// Settings after the "fewer bars" key (Left): a fixed count steps down
/// (wrapping to the most that fit when asked), auto mode widens the bars up
/// to the widest sane width (wrapping to width 1 when asked).
pub open spec fn fewer_spec(s: BarSettings, dim: int) -> BarSettings {
    let max_w = widest_sane(dim, s.bar_spacing as int);
    if s.bars > 0 {
        let bars = if s.bars <= 1 && s.wrap_bars {
            s.fit_on(dim)
        } else {
            imax(s.bars - 1, 1)
        };
        BarSettings { bars: bars as usize, ..s }
    } else {
        let current = s.width_on(dim);
        let w = if current >= max_w {
            if s.wrap_bars { 1 } else { max_w }
        } else {
            current + 1
        };
        BarSettings { bar_width: w as usize, ..s }
    }
}

/// Settings after the "more bars" key (Right): a fixed count steps up to
/// what fits (wrapping to 1 when asked), auto mode narrows the bars down to
/// width 1 (wrapping to the widest sane width when asked).
pub open spec fn more_spec(s: BarSettings, dim: int) -> BarSettings {
    let max_w = widest_sane(dim, s.bar_spacing as int);
    let cap = s.fit_on(dim);
    if s.bars > 0 {
        let bars = if s.bars >= cap && s.wrap_bars { 1 } else { imin(s.bars + 1, cap) };
        BarSettings { bars: bars as usize, ..s }
    } else {
        let current = s.width_on(dim);
        if current <= 1 {
            if s.wrap_bars { BarSettings { bar_width: max_w as usize, ..s } } else { s }
        } else {
            BarSettings { bar_width: (current - 1) as usize, ..s }
        }
    }
}

/// What a bar key leaves behind: the new settings, the bars on screen and
/// the bars per analysed channel.
#[derive(Debug, Clone, Copy, PartialEq, Eq, Structural)]
pub struct BarKeyOutcome {
    pub settings: BarSettings,
    pub num_bars: usize,
    pub per_channel: usize,
}

/// The outcome of a bar key on settings `s` (`more`: Right, else Left).
/// After the step the bars are recounted; a fixed count is then stored as
/// the count actually drawn.
pub open spec fn bar_key_spec(
    s: BarSettings,
    dim: int,
    more: bool,
    audio_channels: int,
    output_channels: int,
) -> BarKeyOutcome {
    let stepped = if more { more_spec(s, dim) } else { fewer_spec(s, dim) };
    let counted = bar_count(stepped, dim, output_channels);
    let (nb, per) = split_spec(counted, audio_channels, output_channels);
    let settings = if stepped.bars > 0 { BarSettings { bars: nb as usize, ..stepped } } else { stepped };
    BarKeyOutcome { settings, num_bars: nb as usize, per_channel: per as usize }
}

fn fewer(s: &BarSettings, dim: usize) -> (r: BarSettings)
    requires
        settings_ok(*s, dim as int),
    ensures
        r == fewer_spec(*s, dim as int),
        settings_ok(r, dim as int),
{
    let max_w = widest_sane_bar_width(dim, s.bar_spacing);
    let current = effective_bar_width(s.bars, s.bar_width, s.bar_spacing, dim);
    if s.bars > 0 {
        let bars = if s.bars <= 1 && s.wrap_bars {
            bars_that_fit(dim, current, s.bar_spacing)
        } else if s.bars - 1 < 1 {
            1
        } else {
            s.bars - 1
        };
        BarSettings { bars, ..*s }
    } else {
        let w = if current >= max_w {
            if s.wrap_bars { 1 } else { max_w }
        } else {
            current + 1
        };
        BarSettings { bar_width: w, ..*s }
    }
}

fn more(s: &BarSettings, dim: usize) -> (r: BarSettings)
    requires
        settings_ok(*s, dim as int),
    ensures
        r == more_spec(*s, dim as int),
        settings_ok(r, dim as int),
{
    let max_w = widest_sane_bar_width(dim, s.bar_spacing);
    let current = effective_bar_width(s.bars, s.bar_width, s.bar_spacing, dim);
    let cap = bars_that_fit(dim, current, s.bar_spacing);
    if s.bars > 0 {
        let bars = if s.bars >= cap && s.wrap_bars {
            1
        } else if s.bars < cap {
            s.bars + 1
        } else {
            cap
        };
        BarSettings { bars, ..*s }
    } else {
        if current <= 1 {
            if s.wrap_bars { BarSettings { bar_width: max_w, ..*s } } else { *s }
        } else {
            BarSettings { bar_width: current - 1, ..*s }
        }
    }
}

/// Applies a bar key (`more`: Right, else Left) and recounts the bars.
pub fn apply_bar_key(
    s: &BarSettings,
    dim: usize,
    more_bars: bool,
    audio_channels: usize,
    output_channels: u32,
) -> (r: BarKeyOutcome)
    requires
        settings_ok(*s, dim as int),
    ensures
        r == bar_key_spec(*s, dim as int, more_bars, audio_channels as int, output_channels as int),
{
    let stepped = if more_bars { more(s, dim) } else { fewer(s, dim) };
    let counted = calculate_bars_count(&stepped, dim, output_channels);
    let (nb, per) = split_bars(counted, audio_channels, output_channels as usize);
    let settings = if stepped.bars > 0 { BarSettings { bars: nb, ..stepped } } else { stepped };
    BarKeyOutcome { settings, num_bars: nb, per_channel: per }
}

/// The foreground colours the `f` key steps through.
pub open spec fn fg_cycle() -> Seq<TerminalColor> {
    seq![
        TerminalColor::Default,
        TerminalColor::Red,
        TerminalColor::Green,
        TerminalColor::Yellow,
        TerminalColor::Blue,
        TerminalColor::Magenta,
        TerminalColor::Cyan,
        TerminalColor::White,
    ]
}

/// The background colours the `b` key steps through.
pub open spec fn bg_cycle() -> Seq<TerminalColor> {
    seq![
        TerminalColor::Default,
        TerminalColor::Black,
        TerminalColor::Blue,
        TerminalColor::Cyan,
        TerminalColor::White,
    ]
}

/// Index of the first `x` in `s` at or after `i`, or 0 when there is none.
pub open spec fn position_from<T>(s: Seq<T>, x: T, i: int) -> int
    decreases s.len() - i,
{
    if i < 0 || i >= s.len() {
        0
    } else if s[i] == x {
        i
    } else {
        position_from(s, x, i + 1)
    }
}

/// Index of the first `x` in `s`, or 0 when `x` is not there.
pub open spec fn position_or_first<T>(s: Seq<T>, x: T) -> int {
    position_from(s, x, 0)
}

/// The entry of a non-empty cycle after `x`; a value not in the cycle
/// counts as its first entry.
pub open spec fn next_in<T>(s: Seq<T>, x: T) -> T {
    s[(position_or_first(s, x) + 1) % (s.len() as int)]
}

pub proof fn lemma_position_bounds<T>(s: Seq<T>, x: T, i: int)
    ensures
        s.len() > 0 ==> 0 <= position_from(s, x, i) < s.len(),
    decreases s.len() - i,
{
    if 0 <= i < s.len() && s[i] != x {
        lemma_position_bounds(s, x, i + 1);
    }
}

/// Index of the first `c` in `table`, or 0 when it is not there.
pub fn color_position(table: &[TerminalColor], c: &TerminalColor) -> (r: usize)
    ensures
        r == position_or_first(table@, *c),
{
    let mut i: usize = 0;
    while i < table.len()
        invariant
            0 <= i <= table@.len(),
            position_from(table@, *c, i as int) == position_or_first(table@, *c),
        decreases table@.len() - i,
    {
        if table[i] == *c {
            return i;
        }
        i = i + 1;
    }
    0
}

fn next_color(table: &[TerminalColor], c: &TerminalColor) -> (r: TerminalColor)
    requires
        table@.len() >= 1,
    ensures
        r == next_in(table@, *c),
{
    proof {
        lemma_position_bounds(table@, *c, 0);
    }
    let i = color_position(table, c);
    assert(i < table@.len());
    assert(table@.len() == table.len());
    table[(i + 1) % table.len()]
}

/// The foreground colour after the `f` key: the next of Default, Red,
/// Green, Yellow, Blue, Magenta, Cyan, White (wrapping); any other colour
/// steps as if it were Default.
pub fn next_foreground(c: &TerminalColor) -> (r: TerminalColor)
    ensures
        r == next_in(fg_cycle(), *c),
{
    let table = [
        TerminalColor::Default,
        TerminalColor::Red,
        TerminalColor::Green,
        TerminalColor::Yellow,
        TerminalColor::Blue,
        TerminalColor::Magenta,
        TerminalColor::Cyan,
        TerminalColor::White,
    ];
    assert(table@ == fg_cycle());
    next_color(&table, c)
}

/// The background colour after the `b` key: the next of Default, Black,
/// Blue, Cyan, White (wrapping); any other colour steps as if it were
/// Default.
pub fn next_background(c: &TerminalColor) -> (r: TerminalColor)
    ensures
        r == next_in(bg_cycle(), *c),
{
    let table = [
        TerminalColor::Default,
        TerminalColor::Black,
        TerminalColor::Blue,
        TerminalColor::Cyan,
        TerminalColor::White,
    ];
    assert(table@ == bg_cycle());
    next_color(&table, c)
}

/// Where one bar on screen takes its level from, as indices into the
/// analysed bands (left channel first, then right).
#[derive(Debug, Clone, Copy, PartialEq, Eq, Structural)]
pub enum BarSource {
    /// Band `i`.
    Band(usize),
    /// The mean of bands `i` and `j`.
    Mean(usize, usize),
    /// Nothing: the bar stays at 0.
    Silent,
}

/// How the analysed bands are placed on screen.
#[derive(Debug, Clone, Copy, PartialEq, Eq, Structural)]
pub struct ChannelLayout {
    /// Bars on screen.
    pub num_bars: usize,
    /// Bands per analysed channel.
    pub per_channel: usize,
    pub audio_channels: usize,
    pub output_channels: usize,
    /// Stereo: each half runs low to high instead of mirroring.
    pub split_stereo: bool,
    pub reverse: bool,
    pub mono_option: MonoOption,
    /// Number of analysed bands available.
    pub bands: usize,
}

impl ChannelLayout {
    /// The layout the analysed band arrays can serve: stereo input has both
    /// channel halves, stereo output has room for both halves.
    pub open spec fn ok(self) -> bool {
        &&& self.audio_channels == 2 ==> 2 * self.per_channel <= self.bands
        &&& self.audio_channels == 2 && self.output_channels == 2 ==> 2 * self.per_channel
            <= self.num_bars
        &&& self.num_bars + self.bands <= usize::MAX
    }

    /// Source of bar `n` before reversal, for mono output.
    pub open spec fn mono_source(self, n: int) -> BarSource {
        if self.audio_channels == 2 {
            let h = self.per_channel as int;
            if n < h {
                match self.mono_option {
                    MonoOption::Left => BarSource::Band(n as usize),
                    MonoOption::Right => BarSource::Band((h + n) as usize),
                    MonoOption::Average => BarSource::Mean(n as usize, (h + n) as usize),
                }
            } else {
                BarSource::Silent
            }
        } else if n < self.bands {
            BarSource::Band(n as usize)
        } else {
            BarSource::Silent
        }
    }

    /// Source of bar `k` on screen.
    pub open spec fn source(self, k: int) -> BarSource {
        let h = self.per_channel as int;
        if self.audio_channels == 2 && self.output_channels == 2 {
            if k < h {
                // Left half: low..high when split or reversed, else mirrored.
                if self.split_stereo || self.reverse {
                    BarSource::Band(k as usize)
                } else {
                    BarSource::Band((h - 1 - k) as usize)
                }
            } else if k < 2 * h {
                let n = k - h;
                if self.split_stereo {
                    BarSource::Band((h + n) as usize)
                } else if self.reverse {
                    BarSource::Band((h + (h - 1 - n)) as usize)
                } else {
                    BarSource::Band((h + n) as usize)
                }
            } else {
                BarSource::Silent
            }
        } else if self.reverse {
            self.mono_source(self.num_bars - 1 - k)
        } else {
            self.mono_source(k)
        }
    }
}

fn mono_source_exec(l: &ChannelLayout, n: usize) -> (r: BarSource)
    requires
        l.ok(),
        n < l.num_bars,
    ensures
        r == l.mono_source(n as int),
{
    if l.audio_channels == 2 {
        let h = l.per_channel;
        if n < h {
            match l.mono_option {
                MonoOption::Left => BarSource::Band(n),
                MonoOption::Right => BarSource::Band(h + n),
                MonoOption::Average => BarSource::Mean(n, h + n),
            }
        } else {
            BarSource::Silent
        }
    } else if n < l.bands {
        BarSource::Band(n)
    } else {
        BarSource::Silent
    }
}

/// The source of every bar on screen, in screen order.
///
/// Stereo drawn in stereo is mirrored around the centre
/// (`[high..low | low..high]`), reversed (`[low..high | high..low]`) or
/// split (`[low..high | low..high]`); anything else is drawn mono, mixing a
/// stereo input by the mono option, optionally reversed.
pub fn bar_sources(l: &ChannelLayout) -> (r: Vec<BarSource>)
    requires
        l.ok(),
    ensures
        r@.len() == l.num_bars,
        forall|k: int| 0 <= k < l.num_bars ==> #[trigger] r@[k] == l.source(k),
{
    let mut out: Vec<BarSource> = Vec::new();
    let mut k: usize = 0;
    let h = l.per_channel;
    while k < l.num_bars
        invariant
            0 <= k <= l.num_bars,
            l.ok(),
            h == l.per_channel,
            out@.len() == k,
            forall|j: int| 0 <= j < k ==> #[trigger] out@[j] == l.source(j),
        decreases l.num_bars - k,
    {
        let src = if l.audio_channels == 2 && l.output_channels == 2 {
            if k < h {
                if l.split_stereo || l.reverse {
                    BarSource::Band(k)
                } else {
                    BarSource::Band(h - 1 - k)
                }
            } else if k < 2 * h {
                let n = k - h;
                if l.split_stereo {
                    BarSource::Band(h + n)
                } else if l.reverse {
                    BarSource::Band(h + (h - 1 - n))
                } else {
                    BarSource::Band(h + n)
                }
            } else {
                BarSource::Silent
            }
        } else if l.reverse {
            mono_source_exec(l, l.num_bars - 1 - k)
        } else {
            mono_source_exec(l, k)
        };
        out.push(src);
        k = k + 1;
    }
    out
}

/// The bar count never exceeds what fits the axis; a fixed count is at
/// least 1, and the auto-fit count is even in stereo.
pub proof fn lemma_bar_count_fits(s: BarSettings, dim: int, output_channels: int)
    requires
        s.bar_spacing >= 0,
    ensures
        bar_count(s, dim, output_channels) <= s.fit_on(dim),
        s.bars > 0 ==> bar_count(s, dim, output_channels) >= 1,
        s.bars == 0 && output_channels == 2 ==> bar_count(s, dim, output_channels) % 2 == 0,
{
    assert(s.fit_on(dim) >= 1);
}

/// A fixed bar count stepped up by the "more bars" key never exceeds what
/// fits, and neither key ever takes a fixed count below 1.
pub proof fn lemma_bar_keys_keep_fixed_count_in_range(s: BarSettings, dim: int)
    requires
        s.bars > 0,
        settings_ok(s, dim),
    ensures
        1 <= more_spec(s, dim).bars <= s.fit_on(dim),
        more_spec(s, dim).bar_width == s.bar_width,
        1 <= fewer_spec(s, dim).bars,
        fewer_spec(s, dim).bar_width == s.bar_width,
{
    lemma_fit_le_axis(dim, s.width_on(dim), s.bar_spacing as int);
}

/// However narrow the bars, at least one and at most one per axis cell
/// fit.
pub proof fn lemma_fit_le_axis(dim: int, w: int, sp: int)
    requires
        sp >= 0,
    ensures
        1 <= fit_count(dim, w, sp) <= crate::render::axis_cells(dim),
{
    let d = crate::render::axis_cells(dim);
    let lw = crate::render::laid_width(dim, w);
    let ls = crate::render::laid_spacing(dim, sp);
    assert((d + ls) / (lw + ls) <= d) by (nonlinear_arith)
        requires d >= 1, lw >= 1, ls >= 0;
}

/// Every bar on screen reads an analysed band that exists.
pub proof fn lemma_sources_in_range(l: ChannelLayout, k: int)
    requires
        l.ok(),
        0 <= k < l.num_bars,
    ensures
        l.source(k) matches BarSource::Band(i) ==> i < l.bands,
        l.source(k) matches BarSource::Mean(i, j) ==> i < l.bands && j < l.bands,
{
}

/// The centred stereo layout mirrors the two channels around the middle:
/// bar `k` of the left half and its mirror image `2h - 1 - k` show the same
/// band of the left and the right channel, with the lowest band in the
/// middle.
pub proof fn lemma_stereo_mirrors_around_centre(l: ChannelLayout, k: int)
    requires
        l.audio_channels == 2,
        l.output_channels == 2,
        !l.split_stereo,
        !l.reverse,
        0 <= k < l.per_channel,
    ensures
        l.source(k) == BarSource::Band((l.per_channel - 1 - k) as usize),
        l.source(2 * l.per_channel - 1 - k) == BarSource::Band((l.per_channel + (l.per_channel - 1
            - k)) as usize),
{
}

/// The `f` key steps each foreground of its cycle to the next one,
/// wrapping from White back to Default.
pub proof fn lemma_foreground_cycle_steps(i: int)
    requires
        0 <= i < 8,
    ensures
        next_in(fg_cycle(), fg_cycle()[i]) == fg_cycle()[(i + 1) % 8],
{
    reveal_with_fuel(position_from, 9);
    assert(position_or_first(fg_cycle(), fg_cycle()[i]) == i);
}

/// The `b` key steps each background of its cycle to the next one,
/// wrapping from White back to Default.
pub proof fn lemma_background_cycle_steps(i: int)
    requires
        0 <= i < 5,
    ensures
        next_in(bg_cycle(), bg_cycle()[i]) == bg_cycle()[(i + 1) % 5],
{
    reveal_with_fuel(position_from, 6);
    assert(position_or_first(bg_cycle(), bg_cycle()[i]) == i);
}

/// A colour outside a cycle (an RGB value, say) steps to the cycle's second
/// entry, as if it were the first.
pub proof fn lemma_colour_outside_cycle_restarts(c: TerminalColor)
    ensures
        !fg_cycle().contains(c) ==> next_in(fg_cycle(), c) == TerminalColor::Red,
        !bg_cycle().contains(c) ==> next_in(bg_cycle(), c) == TerminalColor::Black,
{
    reveal_with_fuel(position_from, 9);
    if !fg_cycle().contains(c) {
        assert(forall|k: int| 0 <= k < 8 ==> fg_cycle()[k] != c);
        assert(position_or_first(fg_cycle(), c) == 0);
    }
    if !bg_cycle().contains(c) {
        assert(forall|k: int| 0 <= k < 5 ==> bg_cycle()[k] != c);
        assert(position_or_first(bg_cycle(), c) == 0);
    }
}

/// Narrower bars never fit fewer bars on an axis.
pub proof fn lemma_fit_grows_as_bars_narrow(dim: int, w1: int, w2: int, sp: int)
    requires
        w1 <= w2,
        sp >= 0,
    ensures
        fit_count(dim, w2, sp) <= fit_count(dim, w1, sp),
{
    let d = crate::render::axis_cells(dim);
    let l1 = crate::render::laid_width(dim, w1);
    let l2 = crate::render::laid_width(dim, w2);
    let ls = crate::render::laid_spacing(dim, sp);
    assert(1 <= l1 + ls <= l2 + ls);
    vstd::arithmetic::div_mod::lemma_div_is_ordered_by_denominator(d + ls, l1 + ls, l2 + ls);
}

/// The auto-fit count and the on-screen split grow with the count of bars
/// that fit.
proof fn lemma_count_monotone(f1: int, f2: int, audio_channels: int, output_channels: int)
    requires
        0 <= f1 <= f2,
    ensures
        even_if(f1, output_channels == 2) <= even_if(f2, output_channels == 2),
        split_spec(even_if(f1, output_channels == 2), audio_channels, output_channels).0
            <= split_spec(even_if(f2, output_channels == 2), audio_channels, output_channels).0,
{
}

/// The "more bars" key (Right) in auto mode, while the bars are wider than
/// one cell: the bar width used drops by exactly one, auto mode stays on,
/// and the bar count (and the bars on screen) never drops; in mono output
/// it rises whenever the narrower bars fit more.
pub proof fn lemma_more_bars_key_narrows_auto_bars(
    s: BarSettings,
    dim: int,
    audio_channels: int,
    output_channels: int,
)
    requires
        s.bars == 0,
        settings_ok(s, dim),
        s.width_on(dim) > 1,
    ensures
        more_spec(s, dim).bars == 0,
        more_spec(s, dim).bar_width == s.width_on(dim) - 1,
        more_spec(s, dim).width_on(dim) == s.width_on(dim) - 1,
        bar_count(more_spec(s, dim), dim, output_channels) >= bar_count(s, dim, output_channels),
        output_channels != 2 && fit_count(dim, s.width_on(dim) - 1, s.bar_spacing as int) > s.fit_on(dim)
            ==> bar_count(more_spec(s, dim), dim, output_channels) > bar_count(s, dim, output_channels),
        bar_key_spec(s, dim, true, audio_channels, output_channels).settings == more_spec(s, dim),
        bar_key_spec(s, dim, true, audio_channels, output_channels).num_bars >= split_spec(
            bar_count(s, dim, output_channels),
            audio_channels,
            output_channels,
        ).0,
{
    let w = s.width_on(dim);
    let sp = s.bar_spacing as int;
    let m = more_spec(s, dim);
    assert(m.width_on(dim) == w - 1);
    lemma_fit_grows_as_bars_narrow(dim, w - 1, w, sp);
    lemma_fit_le_axis(dim, w, sp);
    lemma_fit_le_axis(dim, w - 1, sp);
    lemma_count_monotone(s.fit_on(dim), m.fit_on(dim), audio_channels, output_channels);
}

/// The "fewer bars" key (Left) in auto mode, below the widest sane width:
/// the bar width used grows by exactly one, auto mode stays on, and the bar
/// count never rises.
pub proof fn lemma_fewer_bars_key_widens_auto_bars(s: BarSettings, dim: int, output_channels: int)
    requires
        s.bars == 0,
        settings_ok(s, dim),
        s.width_on(dim) < widest_sane(dim, s.bar_spacing as int),
    ensures
        fewer_spec(s, dim).bars == 0,
        fewer_spec(s, dim).bar_width == s.width_on(dim) + 1,
        fewer_spec(s, dim).width_on(dim) == s.width_on(dim) + 1,
        bar_count(fewer_spec(s, dim), dim, output_channels) <= bar_count(s, dim, output_channels),
{
    let w = s.width_on(dim);
    let sp = s.bar_spacing as int;
    let f = fewer_spec(s, dim);
    crate::render::lemma_widest_from_bounds(dim, sp, 1);
    assert(f.width_on(dim) == w + 1);
    lemma_fit_grows_as_bars_narrow(dim, w, w + 1, sp);
    lemma_fit_le_axis(dim, w, sp);
    lemma_fit_le_axis(dim, w + 1, sp);
    lemma_count_monotone(f.fit_on(dim), s.fit_on(dim), 1, output_channels);
}

/// With a fixed bar count the keys step it by one: Right adds a bar while
/// more fit, Left removes one while more than one is drawn; the bar width is
/// left alone.
pub proof fn lemma_bar_keys_step_fixed_count(s: BarSettings, dim: int)
    requires
        s.bars > 0,
        settings_ok(s, dim),
    ensures
        s.bars < s.fit_on(dim) ==> more_spec(s, dim).bars == s.bars + 1,
        s.bars > 1 ==> fewer_spec(s, dim).bars == s.bars - 1,
        more_spec(s, dim).bar_width == s.bar_width,
        fewer_spec(s, dim).bar_width == s.bar_width,
{
}

/// The bars drawn: a fixed count that fits is drawn exactly, a fixed count
/// that does not fit is cut to what fits (never below one), and auto mode
/// draws every bar that fits (an even number in stereo).
pub proof fn lemma_bar_count_keeps_fitting_counts(s: BarSettings, dim: int, output_channels: int)
    requires
        settings_ok(s, dim),
    ensures
        s.bars > 0 && s.bars <= even_if(s.fit_on(dim), output_channels == 2) ==> bar_count(s, dim, output_channels)
            == s.bars,
        s.bars > even_if(s.fit_on(dim), output_channels == 2) ==> bar_count(s, dim, output_channels) == imax(
            even_if(s.fit_on(dim), output_channels == 2),
            1,
        ),
        s.bars == 0 ==> bar_count(s, dim, output_channels) == even_if(s.fit_on(dim), output_channels == 2),
        output_channels != 2 ==> even_if(s.fit_on(dim), output_channels == 2) == s.fit_on(dim),
        output_channels == 2 ==> s.fit_on(dim) - 1 <= even_if(s.fit_on(dim), true) <= s.fit_on(dim)
            && even_if(s.fit_on(dim), true) % 2 == 0,
{
    lemma_fit_le_axis(dim, s.width_on(dim), s.bar_spacing as int);
}

/// `l` with reversal switched on or off.
pub open spec fn with_reverse(l: ChannelLayout, reverse: bool) -> ChannelLayout {
    ChannelLayout { reverse, ..l }
}

/// Reversing a mono screen mirrors it: with `reverse` on, bar `k` shows
/// what bar `num_bars - 1 - k` shows with it off.
pub proof fn lemma_reverse_mirrors_mono_screen(l: ChannelLayout, k: int)
    requires
        !(l.audio_channels == 2 && l.output_channels == 2),
        0 <= k < l.num_bars,
    ensures
        with_reverse(l, true).source(k) == with_reverse(l, false).source(l.num_bars - 1 - k),
{
}

/// Without reversal a mono screen runs from the lowest band up: a mono
/// input puts band `k` in bar `k`; a stereo input drawn in mono puts band
/// `k` of the left channel (its band `k`), of the right channel (its band
/// `h + k`), or the mean of both, in bar `k`, and leaves bars past one
/// channel's bands silent.
pub proof fn lemma_mono_screen_runs_low_to_high(l: ChannelLayout, k: int)
    requires
        !(l.audio_channels == 2 && l.output_channels == 2),
        !l.reverse,
        0 <= k < l.num_bars,
    ensures
        l.audio_channels != 2 && k < l.bands ==> l.source(k) == BarSource::Band(k as usize),
        l.audio_channels == 2 && k < l.per_channel && l.mono_option == MonoOption::Left ==> l.source(k)
            == BarSource::Band(k as usize),
        l.audio_channels == 2 && k < l.per_channel && l.mono_option == MonoOption::Right ==> l.source(k)
            == BarSource::Band((l.per_channel + k) as usize),
        l.audio_channels == 2 && k < l.per_channel && l.mono_option == MonoOption::Average ==> l.source(k)
            == BarSource::Mean(k as usize, (l.per_channel + k) as usize),
        l.audio_channels == 2 && k >= l.per_channel ==> l.source(k) == BarSource::Silent,
{
}

/// Split stereo shows each channel from its lowest band up, left channel
/// first; reversed stereo runs the left channel up and the right channel
/// down, so the highest bands meet in the middle.
pub proof fn lemma_stereo_split_and_reverse(l: ChannelLayout, k: int)
    requires
        l.audio_channels == 2,
        l.output_channels == 2,
        0 <= k < l.per_channel,
    ensures
        l.split_stereo ==> l.source(k) == BarSource::Band(k as usize) && l.source(l.per_channel + k)
            == BarSource::Band((l.per_channel + k) as usize),
        !l.split_stereo && l.reverse ==> l.source(k) == BarSource::Band(k as usize) && l.source(
            2 * l.per_channel - 1 - k,
        ) == BarSource::Band((l.per_channel + k) as usize),
{
}

/// At either end of the range the bar keys stop, or wrap to the other end
/// when `wrap_bars` is on: in auto mode Right at width one goes to the
/// widest sane width and Left at the widest sane width goes to width one;
/// with a fixed count Right at the most that fit goes to one bar and Left at
/// one bar goes to the most that fit.
pub proof fn lemma_bar_keys_wrap_at_the_ends(s: BarSettings, dim: int)
    requires
        settings_ok(s, dim),
    ensures
        s.bars == 0 && s.width_on(dim) <= 1 ==> more_spec(s, dim) == (if s.wrap_bars {
            BarSettings { bar_width: widest_sane(dim, s.bar_spacing as int) as usize, ..s }
        } else {
            s
        }),
        s.bars == 0 && s.width_on(dim) >= widest_sane(dim, s.bar_spacing as int) ==> fewer_spec(s, dim).bar_width
            == (if s.wrap_bars { 1 } else { widest_sane(dim, s.bar_spacing as int) }),
        s.bars > 0 && s.bars >= s.fit_on(dim) && s.wrap_bars ==> more_spec(s, dim).bars == 1,
        s.bars > 0 && s.bars >= s.fit_on(dim) && !s.wrap_bars ==> more_spec(s, dim).bars == s.fit_on(dim),
        s.bars == 1 && s.wrap_bars ==> fewer_spec(s, dim).bars == s.fit_on(dim),
        s.bars == 1 && !s.wrap_bars ==> fewer_spec(s, dim).bars == 1,
{
    crate::render::lemma_widest_from_bounds(dim, s.bar_spacing as int, 1);
    lemma_fit_le_axis(dim, s.width_on(dim), s.bar_spacing as int);
}

} // verus!
