//! The settings menu: its rows, what Left/Right and typed values do to the
//! integer settings, where a mouse click lands, and how each key or mouse
//! event moves the menu.

use vstd::prelude::*;
use crate::config::{InputMethod, Orientation, OutputMethod, TerminalColor, WaveformStyle};
use crate::control::{even_if, position_from, position_or_first, BarSettings, settings_ok};
use crate::events::Key;
use crate::render::{
    bars_that_fit, effective_bar_width, imax, imin, widest_sane, widest_sane_bar_width,
};
use crate::text::push_char;

verus! {

/// Which way a Left/Right press moves a row.
#[derive(Debug, Clone, Copy, PartialEq, Eq, Structural)]
pub enum MenuDir {
    Inc,
    Dec,
}

/// Settings rows in the menu.
pub const ROW_COUNT: usize = 34;

/// Rows plus the two action rows.
pub const ITEM_COUNT: usize = 36;

/// Index of the "Save && Exit" row.
pub const SAVE_EXIT: usize = 34;

/// Index of the "Discard && Exit" row.
pub const DISCARD_EXIT: usize = 35;

/// Column (relative to the list's left edge) where a row's value starts:
/// left border (1), highlight symbol (3), 20-column label.
pub const VALUE_COLUMN: u16 = 24;

/// Row indices of the numeric rows a typed value can set: Sensitivity,
/// Bars, Bar Width, Bar Spacing, Framerate, Monstercat, Noise Reduction and
/// Gravity.
pub open spec fn row_settable(i: int) -> bool {
    i == 0 || i == 2 || i == 3 || i == 4 || i == 5 || i == 16 || i == 17 || i == 18
}

/// Whether row `i` takes a typed value.
pub fn row_takes_value(i: usize) -> (r: bool)
    ensures
        r == row_settable(i as int),
{
    i == 0 || i == 2 || i == 3 || i == 4 || i == 5 || i == 16 || i == 17 || i == 18
}

/// Step of `dir` in a cycle of `n` entries, as an increment modulo `n`.
pub open spec fn dir_step(dir: MenuDir, n: int) -> int {
    match dir {
        MenuDir::Inc => 1,
        MenuDir::Dec => n - 1,
    }
}

/// The entry of `s` one step from `x` in `dir`, wrapping; a value not in `s`
/// counts as its first entry.
pub open spec fn step_in<T>(s: Seq<T>, x: T, dir: MenuDir) -> T {
    s[(position_or_first(s, x) + dir_step(dir, s.len() as int)) % (s.len() as int)]
}

fn step_index(pos: usize, n: usize, dir: MenuDir) -> (r: usize)
    requires
        pos < n,
    ensures
        r == (pos + dir_step(dir, n as int)) % (n as int),
        r < n,
{
    match dir {
        MenuDir::Inc => (pos + 1) % n,
        MenuDir::Dec => {
            let k = n - 1;
            if pos >= 1 {
                proof {
                    assert((pos + (n - 1)) % (n as int) == pos - 1) by {
                        vstd::arithmetic::div_mod::lemma_mod_add_multiples_vanish((pos - 1) as int, n as int);
                        vstd::arithmetic::div_mod::lemma_small_mod((pos - 1) as nat, n as nat);
                    }
                }
                pos - 1
            } else {
                proof {
                    vstd::arithmetic::div_mod::lemma_small_mod(k as nat, n as nat);
                }
                k % n
            }
        },
    }
}

/// Orientations in the order the Orientation row cycles them.
pub open spec fn orientation_cycle() -> Seq<Orientation> {
    seq![
        Orientation::Bottom,
        Orientation::Top,
        Orientation::Left,
        Orientation::Right,
        Orientation::Horizontal,
    ]
}

/// Input methods in the order the Input Method row cycles them.
pub open spec fn input_cycle() -> Seq<InputMethod> {
    seq![
        InputMethod::Pipewire,
        InputMethod::Pulse,
        InputMethod::Alsa,
        InputMethod::Fifo,
        InputMethod::Cpal,
        InputMethod::Test,
    ]
}

/// Output methods the Output Method row offers. `raw` writes binary data
/// to stdout, which is only meaningful when stdout is not the terminal the
/// menu is drawn on, so it is offered only then.
pub open spec fn output_cycle(stdout_is_terminal: bool) -> Seq<OutputMethod> {
    if stdout_is_terminal {
        seq![OutputMethod::Noncurses, OutputMethod::Ncurses]
    } else {
        seq![OutputMethod::Noncurses, OutputMethod::Ncurses, OutputMethod::Raw]
    }
}

/// Foreground colours in the order the Foreground row cycles them.
pub open spec fn menu_fg_cycle() -> Seq<TerminalColor> {
    seq![
        TerminalColor::Default,
        TerminalColor::White,
        TerminalColor::Red,
        TerminalColor::Green,
        TerminalColor::Yellow,
        TerminalColor::Blue,
        TerminalColor::Magenta,
        TerminalColor::Cyan,
    ]
}

/// Background colours in the order the Background row cycles them.
pub open spec fn menu_bg_cycle() -> Seq<TerminalColor> {
    seq![
        TerminalColor::Default,
        TerminalColor::Black,
        TerminalColor::Blue,
        TerminalColor::Cyan,
        TerminalColor::White,
    ]
}

/// The Orientation row after a step.
pub fn step_orientation(o: Orientation, dir: MenuDir) -> (r: Orientation)
    ensures
        r == step_in(orientation_cycle(), o, dir),
{
    let pos: usize = match o {
        Orientation::Bottom => 0,
        Orientation::Top => 1,
        Orientation::Left => 2,
        Orientation::Right => 3,
        Orientation::Horizontal => 4,
    };
    proof {
        reveal_with_fuel(position_from, 6);
        assert(position_or_first(orientation_cycle(), o) == pos);
    }
    let table = [
        Orientation::Bottom,
        Orientation::Top,
        Orientation::Left,
        Orientation::Right,
        Orientation::Horizontal,
    ];
    assert(table@ == orientation_cycle());
    table[step_index(pos, 5, dir)]
}

/// The Input Method row after a step.
pub fn step_input_method(m: InputMethod, dir: MenuDir) -> (r: InputMethod)
    ensures
        r == step_in(input_cycle(), m, dir),
{
    let pos: usize = match m {
        InputMethod::Pipewire => 0,
        InputMethod::Pulse => 1,
        InputMethod::Alsa => 2,
        InputMethod::Fifo => 3,
        InputMethod::Cpal => 4,
        InputMethod::Test => 5,
    };
    proof {
        reveal_with_fuel(position_from, 7);
        assert(position_or_first(input_cycle(), m) == pos);
    }
    let table = [
        InputMethod::Pipewire,
        InputMethod::Pulse,
        InputMethod::Alsa,
        InputMethod::Fifo,
        InputMethod::Cpal,
        InputMethod::Test,
    ];
    assert(table@ == input_cycle());
    table[step_index(pos, 6, dir)]
}

/// The Output Method row after a step; `raw` is offered only when stdout
/// is not a terminal.
pub fn step_output_method(m: OutputMethod, dir: MenuDir, stdout_is_terminal: bool) -> (r: OutputMethod)
    ensures
        r == step_in(output_cycle(stdout_is_terminal), m, dir),
{
    proof {
        reveal_with_fuel(position_from, 4);
    }
    if stdout_is_terminal {
        let pos: usize = match m {
            OutputMethod::Ncurses => 1,
            _ => 0,
        };
        assert(position_or_first(output_cycle(true), m) == pos);
        let table = [OutputMethod::Noncurses, OutputMethod::Ncurses];
        assert(table@ == output_cycle(true));
        table[step_index(pos, 2, dir)]
    } else {
        let pos: usize = match m {
            OutputMethod::Noncurses => 0,
            OutputMethod::Ncurses => 1,
            OutputMethod::Raw => 2,
        };
        assert(position_or_first(output_cycle(false), m) == pos);
        let table = [OutputMethod::Noncurses, OutputMethod::Ncurses, OutputMethod::Raw];
        assert(table@ == output_cycle(false));
        table[step_index(pos, 3, dir)]
    }
}

fn step_colour(table: &[TerminalColor], c: &TerminalColor, dir: MenuDir) -> (r: TerminalColor)
    requires
        table@.len() >= 1,
    ensures
        r == step_in(table@, *c, dir),
{
    proof {
        crate::control::lemma_position_bounds(table@, *c, 0);
    }
    let pos = crate::control::color_position(table, c);
    assert(pos < table@.len());
    table[step_index(pos, table.len(), dir)]
}

/// The Foreground row after a step; a colour outside the cycle counts as
/// its first entry.
pub fn step_foreground(c: &TerminalColor, dir: MenuDir) -> (r: TerminalColor)
    ensures
        r == step_in(menu_fg_cycle(), *c, dir),
{
    let table = [
        TerminalColor::Default,
        TerminalColor::White,
        TerminalColor::Red,
        TerminalColor::Green,
        TerminalColor::Yellow,
        TerminalColor::Blue,
        TerminalColor::Magenta,
        TerminalColor::Cyan,
    ];
    assert(table@ == menu_fg_cycle());
    step_colour(&table, c, dir)
}

/// The Background row after a step; a colour outside the cycle counts as
/// its first entry.
pub fn step_background(c: &TerminalColor, dir: MenuDir) -> (r: TerminalColor)
    ensures
        r == step_in(menu_bg_cycle(), *c, dir),
{
    let table = [
        TerminalColor::Default,
        TerminalColor::Black,
        TerminalColor::Blue,
        TerminalColor::Cyan,
        TerminalColor::White,
    ];
    assert(table@ == menu_bg_cycle());
    step_colour(&table, c, dir)
}

/// The Waveform Style row after a step: two styles, so either direction
/// toggles.
pub fn step_waveform_style(s: WaveformStyle, dir: MenuDir) -> (r: WaveformStyle)
    ensures
        r == (match (s, dir) {
            (WaveformStyle::Line, MenuDir::Inc) | (WaveformStyle::Area, MenuDir::Dec) => WaveformStyle::Area,
            _ => WaveformStyle::Line,
        }),
{
    match (s, dir) {
        (WaveformStyle::Line, MenuDir::Inc) | (WaveformStyle::Area, MenuDir::Dec) => WaveformStyle::Area,
        _ => WaveformStyle::Line,
    }
}

/// Number of gradient palettes the Gradient Palette row cycles through.
pub const PALETTE_COUNT: usize = 6;

/// Palette `i` as RGB triples.
pub open spec fn palette_rgb(i: int) -> Seq<(u8, u8, u8)> {
    if i == 0 {
        seq![(0x59, 0xcc, 0x33), (0x80, 0xcc, 0x33), (0xa6, 0xcc, 0x33), (0xcc, 0xcc, 0x33),
            (0xcc, 0xa6, 0x33), (0xcc, 0x80, 0x33), (0xcc, 0x59, 0x33), (0xcc, 0x33, 0x33)]
    } else if i == 1 {
        seq![(0x2a, 0x04, 0x04), (0x55, 0x0a, 0x00), (0x8a, 0x1c, 0x00), (0xb4, 0x2e, 0x00),
            (0xd9, 0x4a, 0x10), (0xf2, 0x68, 0x18), (0xff, 0x8c, 0x3c), (0xff, 0xd2, 0x9e)]
    } else if i == 2 {
        seq![(0x00, 0x3b, 0x6f), (0x00, 0x59, 0x95), (0x00, 0x73, 0xb7), (0x16, 0x87, 0xc1),
            (0x3a, 0xa0, 0xd1), (0x64, 0xb8, 0xde), (0x8f, 0xd0, 0xea), (0xbf, 0xe7, 0xf5)]
    } else if i == 3 {
        seq![(0x0a, 0x4d, 0x2c), (0x1a, 0x6b, 0x3a), (0x2e, 0x8a, 0x4c), (0x4c, 0xa8, 0x61),
            (0x6f, 0xc2, 0x79), (0x95, 0xd9, 0x96), (0xbb, 0xeb, 0xae), (0xe4, 0xf8, 0xd4)]
    } else if i == 4 {
        seq![(0xff, 0x3d, 0x81), (0xff, 0x6a, 0x5e), (0xff, 0xd1, 0x66), (0x06, 0xd6, 0xa0),
            (0x11, 0x8a, 0xb2), (0x0b, 0x5f, 0x9e), (0x5e, 0x60, 0xce), (0xbc, 0x4e, 0xd8)]
    } else {
        seq![(0xc4, 0x51, 0x61), (0xe0, 0x94, 0xa0), (0xf2, 0xb6, 0xc0), (0xf2, 0xdd, 0xe1),
            (0xcb, 0xc7, 0xd8), (0x8d, 0xb7, 0xd2), (0x5e, 0x62, 0xa9), (0x43, 0x42, 0x79)]
    }
}

/// Palette `i` as the gradient colours it writes.
pub open spec fn palette_colors_spec(i: int) -> Seq<TerminalColor> {
    palette_rgb(i).map_values(|t: (u8, u8, u8)| TerminalColor::Rgb(t.0, t.1, t.2))
}

/// Name of palette `i`.
pub open spec fn palette_name_spec(i: int) -> Seq<char> {
    if i == 0 {
        "cava"@
    } else if i == 1 {
        "fire"@
    } else if i == 2 {
        "ocean"@
    } else if i == 3 {
        "lush"@
    } else if i == 4 {
        "neon"@
    } else {
        "twilight"@
    }
}

/// Name of palette `i` (`i < PALETTE_COUNT`).
pub fn palette_name(i: usize) -> (r: &'static str)
    requires
        i < 6,
    ensures
        r@ == palette_name_spec(i as int),
{
    if i == 0 {
        "cava"
    } else if i == 1 {
        "fire"
    } else if i == 2 {
        "ocean"
    } else if i == 3 {
        "lush"
    } else if i == 4 {
        "neon"
    } else {
        "twilight"
    }
}

fn palette_table(i: usize) -> (r: [(u8, u8, u8); 8])
    requires
        i < 6,
    ensures
        r@ == palette_rgb(i as int),
{
    let t = if i == 0 {
        [(0x59, 0xcc, 0x33), (0x80, 0xcc, 0x33), (0xa6, 0xcc, 0x33), (0xcc, 0xcc, 0x33),
            (0xcc, 0xa6, 0x33), (0xcc, 0x80, 0x33), (0xcc, 0x59, 0x33), (0xcc, 0x33, 0x33)]
    } else if i == 1 {
        [(0x2a, 0x04, 0x04), (0x55, 0x0a, 0x00), (0x8a, 0x1c, 0x00), (0xb4, 0x2e, 0x00),
            (0xd9, 0x4a, 0x10), (0xf2, 0x68, 0x18), (0xff, 0x8c, 0x3c), (0xff, 0xd2, 0x9e)]
    } else if i == 2 {
        [(0x00, 0x3b, 0x6f), (0x00, 0x59, 0x95), (0x00, 0x73, 0xb7), (0x16, 0x87, 0xc1),
            (0x3a, 0xa0, 0xd1), (0x64, 0xb8, 0xde), (0x8f, 0xd0, 0xea), (0xbf, 0xe7, 0xf5)]
    } else if i == 3 {
        [(0x0a, 0x4d, 0x2c), (0x1a, 0x6b, 0x3a), (0x2e, 0x8a, 0x4c), (0x4c, 0xa8, 0x61),
            (0x6f, 0xc2, 0x79), (0x95, 0xd9, 0x96), (0xbb, 0xeb, 0xae), (0xe4, 0xf8, 0xd4)]
    } else if i == 4 {
        [(0xff, 0x3d, 0x81), (0xff, 0x6a, 0x5e), (0xff, 0xd1, 0x66), (0x06, 0xd6, 0xa0),
            (0x11, 0x8a, 0xb2), (0x0b, 0x5f, 0x9e), (0x5e, 0x60, 0xce), (0xbc, 0x4e, 0xd8)]
    } else {
        [(0xc4, 0x51, 0x61), (0xe0, 0x94, 0xa0), (0xf2, 0xb6, 0xc0), (0xf2, 0xdd, 0xe1),
            (0xcb, 0xc7, 0xd8), (0x8d, 0xb7, 0xd2), (0x5e, 0x62, 0xa9), (0x43, 0x42, 0x79)]
    };
    assert(t@ == palette_rgb(i as int));
    t
}

/// The gradient colours of palette `i` (`i < PALETTE_COUNT`).
pub fn palette_colors(i: usize) -> (r: Vec<TerminalColor>)
    requires
        i < 6,
    ensures
        r@ == palette_colors_spec(i as int),
{
    let t = palette_table(i);
    let mut out: Vec<TerminalColor> = Vec::new();
    let mut k: usize = 0;
    while k < 8
        invariant
            0 <= k <= 8,
            t@ == palette_rgb(i as int),
            out@ == palette_colors_spec(i as int).take(k as int),
        decreases 8 - k,
    {
        let (r, g, b) = t[k];
        out.push(TerminalColor::Rgb(r, g, b));
        proof {
            assert(out@ =~= palette_colors_spec(i as int).take(k + 1));
        }
        k = k + 1;
    }
    assert(out@ =~= palette_colors_spec(i as int));
    out
}

/// Index of the first palette whose colours are exactly `colors`, from
/// palette `i` on, or 0 when none is.
pub open spec fn palette_index_from(colors: Seq<TerminalColor>, i: int) -> int
    decreases 6 - i,
{
    if i < 0 || i >= 6 {
        0
    } else if colors == palette_colors_spec(i) {
        i
    } else {
        palette_index_from(colors, i + 1)
    }
}

fn same_colors(a: &[TerminalColor], b: &[TerminalColor]) -> (r: bool)
    ensures
        r == (a@ == b@),
{
    if a.len() != b.len() {
        return false;
    }
    let mut i: usize = 0;
    while i < a.len()
        invariant
            0 <= i <= a@.len(),
            a@.len() == b@.len(),
            forall|k: int| 0 <= k < i ==> a@[k] == b@[k],
        decreases a@.len() - i,
    {
        if a[i] != b[i] {
            return false;
        }
        i = i + 1;
    }
    assert(a@ =~= b@);
    true
}

/// Which palette `colors` is (0 when it is none of them).
pub fn current_palette(colors: &[TerminalColor]) -> (r: usize)
    ensures
        r == palette_index_from(colors@, 0),
        r < 6,
{
    let mut i: usize = 0;
    while i < PALETTE_COUNT
        invariant
            0 <= i <= 6,
            palette_index_from(colors@, i as int) == palette_index_from(colors@, 0),
        decreases 6 - i,
    {
        let p = palette_colors(i);
        if same_colors(colors, &p) {
            return i;
        }
        i = i + 1;
    }
    0
}

/// The gradient colours after a step of the Gradient Palette row: the
/// palette after (or before) the current one, wrapping.
pub fn step_palette(colors: &[TerminalColor], dir: MenuDir) -> (r: Vec<TerminalColor>)
    ensures
        r@ == palette_colors_spec((palette_index_from(colors@, 0) + dir_step(dir, 6)) % 6),
{
    let i = current_palette(colors);
    palette_colors(step_index(i, PALETTE_COUNT, dir))
}

/// The largest fixed count the menu allows on an axis of `dim` cells: what
/// fits, made even in stereo.
pub open spec fn menu_cap(s: BarSettings, dim: int, stereo: bool) -> int {
    even_if(s.fit_on(dim), stereo)
}

fn menu_cap_exec(s: &BarSettings, dim: usize, stereo: bool) -> (r: usize)
    requires
        settings_ok(*s, dim as int),
    ensures
        r == menu_cap(*s, dim as int, stereo),
{
    let w = effective_bar_width(s.bars, s.bar_width, s.bar_spacing, dim);
    let fit = bars_that_fit(dim, w, s.bar_spacing);
    if stereo { fit - fit % 2 } else { fit }
}

/// The Bars row after a step. Auto mode (`bars == 0`) moves the bar width
/// between 1 and the widest sane width (Right widens); a fixed count moves
/// between 1 and what fits, wrapping when `wrap_bars` is set.
pub open spec fn bars_row_step(s: BarSettings, dim: int, stereo: bool, dir: MenuDir) -> BarSettings {
    let max_w = widest_sane(dim, s.bar_spacing as int);
    let cap = menu_cap(s, dim, stereo);
    if s.bars == 0 {
        let current = s.width_on(dim);
        match dir {
            MenuDir::Inc => if current >= max_w {
                BarSettings { bar_width: (if s.wrap_bars { 1 } else { max_w }) as usize, ..s }
            } else {
                BarSettings { bar_width: (current + 1) as usize, ..s }
            },
            MenuDir::Dec => if current <= 1 {
                if s.wrap_bars { BarSettings { bar_width: max_w as usize, ..s } } else { s }
            } else {
                BarSettings { bar_width: (current - 1) as usize, ..s }
            },
        }
    } else {
        match dir {
            MenuDir::Inc => if s.bars >= cap && s.wrap_bars {
                BarSettings { bars: 1, ..s }
            } else {
                BarSettings { bars: imin(s.bars + 1, cap) as usize, ..s }
            },
            MenuDir::Dec => if s.bars <= 1 && s.wrap_bars {
                BarSettings { bars: imax(cap, 1) as usize, ..s }
            } else {
                BarSettings { bars: imax(s.bars - 1, 1) as usize, ..s }
            },
        }
    }
}

/// Applies a step of the Bars row.
pub fn step_bars_row(s: &BarSettings, dim: usize, stereo: bool, dir: MenuDir) -> (r: BarSettings)
    requires
        settings_ok(*s, dim as int),
    ensures
        r == bars_row_step(*s, dim as int, stereo, dir),
{
    let max_w = widest_sane_bar_width(dim, s.bar_spacing);
    let cap = menu_cap_exec(s, dim, stereo);
    if s.bars == 0 {
        let current = effective_bar_width(s.bars, s.bar_width, s.bar_spacing, dim);
        match dir {
            MenuDir::Inc => if current >= max_w {
                BarSettings { bar_width: if s.wrap_bars { 1 } else { max_w }, ..*s }
            } else {
                BarSettings { bar_width: current + 1, ..*s }
            },
            MenuDir::Dec => if current <= 1 {
                if s.wrap_bars { BarSettings { bar_width: max_w, ..*s } } else { *s }
            } else {
                BarSettings { bar_width: current - 1, ..*s }
            },
        }
    } else {
        match dir {
            MenuDir::Inc => if s.bars >= cap && s.wrap_bars {
                BarSettings { bars: 1, ..*s }
            } else {
                BarSettings { bars: if s.bars < cap { s.bars + 1 } else { cap }, ..*s }
            },
            MenuDir::Dec => if s.bars <= 1 && s.wrap_bars {
                BarSettings { bars: if cap < 1 { 1 } else { cap }, ..*s }
            } else {
                BarSettings { bars: if s.bars - 1 < 1 { 1 } else { s.bars - 1 }, ..*s }
            },
        }
    }
}

/// The Bars row after a typed value `n` (already rounded): 0 or less means
/// auto, a positive count is capped to what fits and kept at least 1.
pub open spec fn bars_row_set(s: BarSettings, dim: int, stereo: bool, n: int) -> BarSettings {
    if n <= 0 {
        BarSettings { bars: 0, ..s }
    } else {
        BarSettings { bars: imax(imin(n, menu_cap(s, dim, stereo)), 1) as usize, ..s }
    }
}

/// Applies a typed value to the Bars row.
pub fn set_bars_row(s: &BarSettings, dim: usize, stereo: bool, n: i64) -> (r: BarSettings)
    requires
        settings_ok(*s, dim as int),
    ensures
        r == bars_row_set(*s, dim as int, stereo, n as int),
{
    if n <= 0 {
        BarSettings { bars: 0, ..*s }
    } else {
        let cap = menu_cap_exec(s, dim, stereo);
        let m = if (n as u64) < (cap as u64) { n as usize } else { cap };
        BarSettings { bars: if m < 1 { 1 } else { m }, ..*s }
    }
}

/// After the bar width changed, a fixed count is capped to what now fits.
pub open spec fn refit_count(s: BarSettings, dim: int, stereo: bool) -> BarSettings {
    if s.bars > 0 {
        BarSettings { bars: imax(imin(s.bars as int, menu_cap(s, dim, stereo)), 1) as usize, ..s }
    } else {
        s
    }
}

/// The Bar Width row after a step: the used width moves by one, between 1
/// and the widest sane width; a fixed count is then capped to what fits.
pub open spec fn width_row_step(s: BarSettings, dim: int, stereo: bool, dir: MenuDir) -> BarSettings {
    let max_w = widest_sane(dim, s.bar_spacing as int);
    let cur = s.width_on(dim);
    let w = match dir {
        MenuDir::Inc => imin(cur + 1, max_w),
        MenuDir::Dec => imax(cur - 1, 1),
    };
    refit_count(BarSettings { bar_width: w as usize, ..s }, dim, stereo)
}

/// The Bar Width row after a typed value `n` (already rounded): at least 1,
/// at most the widest sane width; a fixed count is then capped to what
/// fits.
pub open spec fn width_row_set(s: BarSettings, dim: int, stereo: bool, n: int) -> BarSettings {
    let max_w = widest_sane(dim, s.bar_spacing as int);
    refit_count(BarSettings { bar_width: imin(imax(n, 1), max_w) as usize, ..s }, dim, stereo)
}

fn refit_exec(s: &BarSettings, dim: usize, stereo: bool) -> (r: BarSettings)
    requires
        settings_ok(*s, dim as int),
    ensures
        r == refit_count(*s, dim as int, stereo),
{
    if s.bars > 0 {
        let cap = menu_cap_exec(s, dim, stereo);
        let m = if s.bars < cap { s.bars } else { cap };
        BarSettings { bars: if m < 1 { 1 } else { m }, ..*s }
    } else {
        *s
    }
}

/// Applies a step of the Bar Width row.
pub fn step_width_row(s: &BarSettings, dim: usize, stereo: bool, dir: MenuDir) -> (r: BarSettings)
    requires
        settings_ok(*s, dim as int),
    ensures
        r == width_row_step(*s, dim as int, stereo, dir),
{
    let max_w = widest_sane_bar_width(dim, s.bar_spacing);
    let cur = effective_bar_width(s.bars, s.bar_width, s.bar_spacing, dim);
    let w = match dir {
        MenuDir::Inc => if cur < max_w { cur + 1 } else { max_w },
        MenuDir::Dec => if cur - 1 < 1 { 1 } else { cur - 1 },
    };
    refit_exec(&BarSettings { bar_width: w, ..*s }, dim, stereo)
}

/// Applies a typed value to the Bar Width row.
pub fn set_width_row(s: &BarSettings, dim: usize, stereo: bool, n: i64) -> (r: BarSettings)
    requires
        settings_ok(*s, dim as int),
    ensures
        r == width_row_set(*s, dim as int, stereo, n as int),
{
    let max_w = widest_sane_bar_width(dim, s.bar_spacing);
    let w: usize = if n < 1 { 1 } else if (n as u64) < (max_w as u64) { n as usize } else { max_w };
    refit_exec(&BarSettings { bar_width: w, ..*s }, dim, stereo)
}

/// The Bar Spacing row after a step: one cell more or less, within 0..=16.
/// The spacing is stepped as a signed size, so a value beyond `isize::MAX`
/// reads as negative and comes back as 0; stepping up from `isize::MAX`
/// itself overflows and is left out.
pub fn step_spacing(spacing: usize, dir: MenuDir) -> (r: usize)
    requires
        !(spacing == isize::MAX && dir == MenuDir::Inc),
    ensures
        r == if spacing <= isize::MAX {
            imin(imax(spacing + (match dir { MenuDir::Inc => 1int, MenuDir::Dec => -1int }), 0), 16)
        } else {
            0
        },
{
    if spacing > isize::MAX as usize {
        return 0;
    }
    match dir {
        MenuDir::Inc => if spacing + 1 < 16 { spacing + 1 } else { 16 },
        MenuDir::Dec => if spacing < 1 { 0 } else if spacing - 1 < 16 { spacing - 1 } else { 16 },
    }
}

/// The Bar Spacing row after a typed value `n` (already rounded): within
/// 0..=16.
pub fn set_spacing(n: i64) -> (r: usize)
    ensures
        r == imin(imax(n as int, 0), 16),
{
    if n < 0 { 0 } else if n < 16 { n as usize } else { 16 }
}

/// The Framerate row after a step: five frames per second more or less,
/// within 10..=240.
pub fn step_framerate(framerate: u32, dir: MenuDir) -> (r: u32)
    ensures
        r == imin(imax(framerate + (match dir { MenuDir::Inc => 5int, MenuDir::Dec => -5int }), 10), 240),
{
    let f = framerate as i64;
    let v = match dir {
        MenuDir::Inc => f + 5,
        MenuDir::Dec => f - 5,
    };
    if v < 10 { 10 } else if v > 240 { 240 } else { v as u32 }
}

/// The Framerate row after a typed value `n` (already rounded): within
/// 10..=240.
pub fn set_framerate(n: i64) -> (r: u32)
    ensures
        r == imin(imax(n as int, 10), 240),
{
    if n < 10 { 10 } else if n > 240 { 240 } else { n as u32 }
}

/// The Noise Reduction row after a step, in whole percent: five points more
/// or less, within 0..=100.
pub fn step_noise_percent(pct: i64, dir: MenuDir) -> (r: i64)
    requires
        i64::MIN + 5 <= pct <= i64::MAX - 5,
    ensures
        r == (match dir {
            MenuDir::Inc => imin(pct + 5, 100),
            MenuDir::Dec => imax(pct - 5, 0),
        }),
{
    match dir {
        MenuDir::Inc => if pct + 5 < 100 { pct + 5 } else { 100 },
        MenuDir::Dec => if pct - 5 > 0 { pct - 5 } else { 0 },
    }
}

/// The Bars row's reset: auto mode, width 2, spacing 1.
pub fn reset_bars_row(s: &BarSettings) -> (r: BarSettings)
    ensures
        r == (BarSettings { bars: 0, bar_width: 2, bar_spacing: 1, ..*s }),
{
    BarSettings { bars: 0, bar_width: 2, bar_spacing: 1, ..*s }
}

/// Whether a character may extend a typed value: an ASCII digit, or the
/// first decimal point.
pub open spec fn typed_accepts(buf: Seq<char>, c: char) -> bool {
    ('0' <= c && c <= '9') || (c == '.' && !buf.contains('.'))
}

/// Appends `c` to a typed value when it is an ASCII digit or the first
/// decimal point; returns whether the buffer changed.
pub fn push_typed(buf: &mut String, c: char) -> (ok: bool)
    ensures
        ok == typed_accepts(old(buf)@, c),
        ok ==> final(buf)@ == old(buf)@.push(c),
        !ok ==> final(buf)@ == old(buf)@,
{
    let ok = if '0' <= c && c <= '9' {
        true
    } else if c == '.' {
        let mut has_dot = false;
        let mut i: usize = 0;
        let cs = crate::text::chars_of(buf.as_str());
        while i < cs.len()
            invariant
                0 <= i <= cs@.len(),
                cs@ == buf@,
                has_dot == (exists|j: int| 0 <= j < i && #[trigger] cs@[j] == '.'),
            decreases cs@.len() - i,
        {
            if cs[i] == '.' {
                has_dot = true;
            }
            i = i + 1;
        }
        assert(has_dot == buf@.contains('.'));
        !has_dot
    } else {
        false
    };
    if ok {
        push_char(buf, c);
    }
    ok
}

/// Where the settings list was drawn: its outer rectangle, borders
/// included.
#[derive(Debug, Clone, Copy, PartialEq, Eq, Structural)]
pub struct ListArea {
    pub x: u16,
    pub y: u16,
    pub width: u16,
    pub height: u16,
}

/// `a + b`, or `u16::MAX` when that does not fit.
pub open spec fn sat_add(a: u16, b: u16) -> int {
    imin(a + b, u16::MAX as int)
}

impl ListArea {
    pub fn new(x: u16, y: u16, width: u16, height: u16) -> (r: Self)
        ensures
            r == (ListArea { x, y, width, height }),
    {
        ListArea { x, y, width, height }
    }

    /// Column just past the right edge (saturating).
    pub fn right(&self) -> (r: u16)
        ensures
            r == sat_add(self.x, self.width),
    {
        if self.x as u32 + self.width as u32 > u16::MAX as u32 { u16::MAX } else { self.x + self.width }
    }

    /// Row just past the bottom edge (saturating).
    pub fn bottom(&self) -> (r: u16)
        ensures
            r == sat_add(self.y, self.height),
    {
        if self.y as u32 + self.height as u32 > u16::MAX as u32 { u16::MAX } else { self.y + self.height }
    }
}

/// The list row a click at (`column`, `row`) lands on, given the list's
/// scroll `offset` (the topmost visible row): the first content row sits
/// just inside the top border. Clicks on the borders or outside the list
/// land on no row.
pub open spec fn click_row(a: ListArea, offset: int, column: int, row: int) -> Option<int> {
    if column < a.x || column >= sat_add(a.x, a.width) || row <= a.y || row + 1 >= sat_add(a.y, a.height) {
        None
    } else {
        Some(offset + (row - (a.y + 1)))
    }
}

/// Maps a mouse click onto a list row index.
pub fn click_to_index(list_area: &ListArea, offset: usize, column: u16, row: u16) -> (r: Option<usize>)
    requires
        offset + u16::MAX <= usize::MAX,
    ensures
        r matches Some(i) ==> click_row(*list_area, offset as int, column as int, row as int) == Some(i as int),
        r is None ==> click_row(*list_area, offset as int, column as int, row as int) is None,
{
    if column < list_area.x || column >= list_area.right() || row <= list_area.y
        || (row as u32) + 1 >= list_area.bottom() as u32 {
        return None;
    }
    let visible = row - (list_area.y + 1);
    Some(offset + visible as usize)
}

/// Menu state between events: the selected item and, while a value is
/// being typed, its text.
#[derive(Debug, Clone)]
pub struct MenuState {
    pub selected: usize,
    pub edit: Option<String>,
}

/// An input event, as the menu tells them apart.
#[derive(Debug, Clone, Copy, PartialEq, Eq, Structural)]
pub enum MenuEvent {
    /// A key press (`press` is false for release and repeat reports).
    Key { key: Key, ctrl: bool, press: bool },
    ScrollUp,
    ScrollDown,
    /// A left click at (`column`, `row`) while the list was drawn in `area`
    /// scrolled to `offset`.
    Click { column: u16, row: u16, area: ListArea, offset: usize },
    Other,
}

/// What the caller does after an event.
#[derive(Debug, Clone)]
pub enum MenuAction {
    Nothing,
    /// Leave the menu (after saving what was already saved).
    Close,
    /// Step row `i` in a direction, then save.
    Adjust(usize, MenuDir),
    /// Restore row `i` to its default, then save.
    Reset(usize),
    /// Parse the typed text and, when it is a number, set row `i` to it and
    /// save.
    Apply(usize, String),
    /// Restore the settings the menu was opened with, then save.
    Discard,
}

/// [`MenuAction`] over character sequences.
pub enum ActionModel {
    Nothing,
    Close,
    Adjust(int, MenuDir),
    Reset(int),
    Apply(int, Seq<char>),
    Discard,
}

/// Menu state over character sequences: selected item and typed text.
pub struct StateModel {
    pub selected: int,
    pub edit: Option<Seq<char>>,
}

pub open spec fn state_model(s: MenuState) -> StateModel {
    StateModel {
        selected: s.selected as int,
        edit: match s.edit {
            Some(e) => Some(e@),
            None => None,
        },
    }
}

pub open spec fn action_model(a: MenuAction) -> ActionModel {
    match a {
        MenuAction::Nothing => ActionModel::Nothing,
        MenuAction::Close => ActionModel::Close,
        MenuAction::Adjust(i, d) => ActionModel::Adjust(i as int, d),
        MenuAction::Reset(i) => ActionModel::Reset(i as int),
        MenuAction::Apply(i, t) => ActionModel::Apply(i as int, t@),
        MenuAction::Discard => ActionModel::Discard,
    }
}

/// The item one up, stopping at the first.
pub open spec fn item_up(i: int) -> int {
    imax(i - 1, 0)
}

/// The item one down, stopping at the last.
pub open spec fn item_down(i: int) -> int {
    imin(i + 1, ITEM_COUNT - 1)
}

/// The action a step of the selected item asks for (none on the two
/// action rows).
pub open spec fn adjust_action(i: int, d: MenuDir) -> ActionModel {
    if i < ROW_COUNT { ActionModel::Adjust(i, d) } else { ActionModel::Nothing }
}

/// How the menu answers an event: the state after it and the action for
/// the caller.
pub open spec fn menu_next(s: StateModel, ev: MenuEvent) -> (StateModel, ActionModel) {
    let sel = s.selected;
    match ev {
        MenuEvent::Key { key, ctrl, press } => {
            if !press {
                (s, ActionModel::Nothing)
            } else if ctrl && (key == Key::Char('c') || key == Key::Char('C')) {
                (s, ActionModel::Close)
            } else if s.edit is Some {
                let buf = s.edit->0;
                match key {
                    Key::Enter => {
                        let done = StateModel { edit: None, ..s };
                        if 0 <= sel < ROW_COUNT && row_settable(sel) {
                            (done, ActionModel::Apply(sel, buf))
                        } else {
                            (done, ActionModel::Nothing)
                        }
                    },
                    Key::Esc => (StateModel { edit: None, ..s }, ActionModel::Nothing),
                    Key::Backspace => (
                        StateModel { edit: Some(if buf.len() > 0 { buf.drop_last() } else { buf }), ..s },
                        ActionModel::Nothing,
                    ),
                    Key::Char(c) => (
                        StateModel { edit: Some(if typed_accepts(buf, c) { buf.push(c) } else { buf }), ..s },
                        ActionModel::Nothing,
                    ),
                    _ => (s, ActionModel::Nothing),
                }
            } else {
                match key {
                    Key::Esc | Key::Char('m') | Key::Char('q') => (s, ActionModel::Close),
                    Key::Up => (StateModel { selected: item_up(sel), ..s }, ActionModel::Nothing),
                    Key::Down => (StateModel { selected: item_down(sel), ..s }, ActionModel::Nothing),
                    Key::Home | Key::PageUp => (StateModel { selected: 0, ..s }, ActionModel::Nothing),
                    Key::End | Key::PageDown => (
                        StateModel { selected: ITEM_COUNT - 1, ..s },
                        ActionModel::Nothing,
                    ),
                    Key::Left => (s, adjust_action(sel, MenuDir::Dec)),
                    Key::Right => (s, adjust_action(sel, MenuDir::Inc)),
                    Key::Char('r') | Key::Char('R') => (
                        s,
                        if sel < ROW_COUNT { ActionModel::Reset(sel) } else { ActionModel::Nothing },
                    ),
                    Key::Char(c) => {
                        if ('0' <= c && c <= '9') || c == '.' {
                            if sel < ROW_COUNT && row_settable(sel) {
                                (StateModel { edit: Some(seq![c]), ..s }, ActionModel::Nothing)
                            } else {
                                (s, ActionModel::Nothing)
                            }
                        } else {
                            (s, ActionModel::Nothing)
                        }
                    },
                    Key::Enter => {
                        if sel == SAVE_EXIT {
                            (s, ActionModel::Close)
                        } else if sel == DISCARD_EXIT {
                            (s, ActionModel::Discard)
                        } else {
                            (s, ActionModel::Nothing)
                        }
                    },
                    _ => (s, ActionModel::Nothing),
                }
            }
        },
        MenuEvent::ScrollUp => (StateModel { selected: item_up(sel), ..s }, ActionModel::Nothing),
        MenuEvent::ScrollDown => (StateModel { selected: item_down(sel), ..s }, ActionModel::Nothing),
        MenuEvent::Click { column, row, area, offset } => {
            match click_row(area, offset as int, column as int, row as int) {
                Some(idx) => {
                    if idx < ITEM_COUNT {
                        let t = StateModel { selected: idx, ..s };
                        if idx == SAVE_EXIT {
                            (t, ActionModel::Close)
                        } else if idx == DISCARD_EXIT {
                            (t, ActionModel::Discard)
                        } else if column >= area.x + VALUE_COLUMN {
                            (t, adjust_action(idx, MenuDir::Inc))
                        } else {
                            (t, ActionModel::Nothing)
                        }
                    } else {
                        (s, ActionModel::Nothing)
                    }
                },
                None => (s, ActionModel::Nothing),
            }
        },
        MenuEvent::Other => (s, ActionModel::Nothing),
    }
}

/// A menu state the menu can be in: an item is selected.
pub open spec fn menu_state_ok(s: MenuState) -> bool {
    s.selected < ITEM_COUNT
}

/// An event the menu can take: a click's offset leaves room for the rows
/// below it.
pub open spec fn menu_event_ok(ev: MenuEvent) -> bool {
    ev matches MenuEvent::Click { offset, .. } ==> offset + u16::MAX <= usize::MAX
}

/// Answers one event: updates the state and says what the caller does.
pub fn menu_step(state: &mut MenuState, ev: MenuEvent) -> (a: MenuAction)
    requires
        menu_state_ok(*old(state)),
        menu_event_ok(ev),
    ensures
        menu_state_ok(*final(state)),
        state_model(*final(state)) == menu_next(state_model(*old(state)), ev).0,
        action_model(a) == menu_next(state_model(*old(state)), ev).1,
{
    let sel = state.selected;
    match ev {
        MenuEvent::Key { key, ctrl, press } => {
            if !press {
                return MenuAction::Nothing;
            }
            if ctrl && (key == Key::Char('c') || key == Key::Char('C')) {
                return MenuAction::Close;
            }
            if state.edit.is_some() {
                match key {
                    Key::Enter => {
                        let buf = match state.edit.take() {
                            Some(b) => b,
                            None => String::new(),
                        };
                        if sel < ROW_COUNT && row_takes_value(sel) {
                            MenuAction::Apply(sel, buf)
                        } else {
                            MenuAction::Nothing
                        }
                    },
                    Key::Esc => {
                        state.edit = None;
                        MenuAction::Nothing
                    },
                    Key::Backspace => {
                        let buf = match state.edit.take() {
                            Some(b) => b,
                            None => String::new(),
                        };
                        let mut cs = crate::text::chars_of(buf.as_str());
                        if cs.len() > 0 {
                            cs.pop();
                        }
                        state.edit = Some(crate::text::string_of(&cs));
                        MenuAction::Nothing
                    },
                    Key::Char(c) => {
                        let mut buf = match state.edit.take() {
                            Some(b) => b,
                            None => String::new(),
                        };
                        push_typed(&mut buf, c);
                        state.edit = Some(buf);
                        MenuAction::Nothing
                    },
                    _ => MenuAction::Nothing,
                }
            } else {
                match key {
                    Key::Esc | Key::Char('m') | Key::Char('q') => MenuAction::Close,
                    Key::Up => {
                        state.selected = if sel >= 1 { sel - 1 } else { 0 };
                        MenuAction::Nothing
                    },
                    Key::Down => {
                        state.selected = if sel + 1 < ITEM_COUNT { sel + 1 } else { ITEM_COUNT - 1 };
                        MenuAction::Nothing
                    },
                    Key::Home | Key::PageUp => {
                        state.selected = 0;
                        MenuAction::Nothing
                    },
                    Key::End | Key::PageDown => {
                        state.selected = ITEM_COUNT - 1;
                        MenuAction::Nothing
                    },
                    Key::Left => if sel < ROW_COUNT { MenuAction::Adjust(sel, MenuDir::Dec) } else { MenuAction::Nothing },
                    Key::Right => if sel < ROW_COUNT { MenuAction::Adjust(sel, MenuDir::Inc) } else { MenuAction::Nothing },
                    Key::Char('r') | Key::Char('R') => if sel < ROW_COUNT { MenuAction::Reset(sel) } else { MenuAction::Nothing },
                    Key::Char(c) => {
                        if ('0' <= c && c <= '9') || c == '.' {
                            if sel < ROW_COUNT && row_takes_value(sel) {
                                let mut buf = String::new();
                                push_char(&mut buf, c);
                                state.edit = Some(buf);
                            }
                        }
                        MenuAction::Nothing
                    },
                    Key::Enter => {
                        if sel == SAVE_EXIT {
                            MenuAction::Close
                        } else if sel == DISCARD_EXIT {
                            MenuAction::Discard
                        } else {
                            MenuAction::Nothing
                        }
                    },
                    _ => MenuAction::Nothing,
                }
            }
        },
        MenuEvent::ScrollUp => {
            state.selected = if sel >= 1 { sel - 1 } else { 0 };
            MenuAction::Nothing
        },
        MenuEvent::ScrollDown => {
            state.selected = if sel + 1 < ITEM_COUNT { sel + 1 } else { ITEM_COUNT - 1 };
            MenuAction::Nothing
        },
        MenuEvent::Click { column, row, area, offset } => {
            match click_to_index(&area, offset, column, row) {
                Some(idx) => {
                    if idx < ITEM_COUNT {
                        state.selected = idx;
                        if idx == SAVE_EXIT {
                            MenuAction::Close
                        } else if idx == DISCARD_EXIT {
                            MenuAction::Discard
                        } else if column as u32 >= area.x as u32 + VALUE_COLUMN as u32 {
                            if idx < ROW_COUNT { MenuAction::Adjust(idx, MenuDir::Inc) } else { MenuAction::Nothing }
                        } else {
                            MenuAction::Nothing
                        }
                    } else {
                        MenuAction::Nothing
                    }
                },
                None => MenuAction::Nothing,
            }
        },
        MenuEvent::Other => MenuAction::Nothing,
    }
}

/// Typed text the menu can hold: ASCII digits with at most one decimal
/// point.
pub open spec fn typed_ok(t: Seq<char>) -> bool {
    &&& forall|k: int| 0 <= k < t.len() ==> ('0' <= #[trigger] t[k] && t[k] <= '9') || t[k] == '.'
    &&& forall|a: int, b: int| #![trigger t[a], t[b]] 0 <= a < b < t.len() && t[a] == '.' ==> t[b] != '.'
}

/// Whatever the events, the typed text only ever holds ASCII digits and at
/// most one decimal point.
pub proof fn lemma_typed_text_stays_numeric(s: StateModel, ev: MenuEvent)
    requires
        s.edit matches Some(t) ==> typed_ok(t),
    ensures
        menu_next(s, ev).0.edit matches Some(t) ==> typed_ok(t),
{
    if let Some(buf) = s.edit {
        if let MenuEvent::Key { key, ctrl, press } = ev {
            if let Key::Char(c) = key {
                if press && !(ctrl && (c == 'c' || c == 'C')) && typed_accepts(buf, c) {
                    let t = buf.push(c);
                    assert forall|a: int, b: int| #![trigger t[a], t[b]] 0 <= a < b < t.len() && t[a] == '.' implies t[b] != '.' by {
                        if b == t.len() - 1 && c == '.' {
                            assert(buf[a] == '.');
                            assert(buf.contains('.'));
                        }
                    }
                }
            }
            if let Key::Backspace = key {
                if buf.len() > 0 {
                    let t = buf.drop_last();
                    assert forall|k: int| 0 <= k < t.len() implies ('0' <= #[trigger] t[k] && t[k] <= '9') || t[k] == '.' by {
                        assert(t[k] == buf[k]);
                    }
                    assert forall|a: int, b: int| #![trigger t[a], t[b]] 0 <= a < b < t.len() && t[a] == '.' implies t[b] != '.' by {
                        assert(t[a] == buf[a] && t[b] == buf[b]);
                    }
                }
            }
        }
    }
}

/// A click lands on a visible row: at or below the scroll offset, and
/// fewer rows below it than the list has content rows.
pub proof fn lemma_click_lands_on_visible_row(a: ListArea, offset: int, column: int, row: int)
    ensures
        click_row(a, offset, column, row) matches Some(i) ==> offset <= i && i < offset + a.height - 2,
{
}

/// In the Bars row a fixed count stepped up never exceeds the menu's cap,
/// and a typed count never exceeds it unless the cap is 0 (then it is 1).
pub proof fn lemma_bars_row_respects_cap(s: BarSettings, dim: int, stereo: bool, n: int)
    requires
        s.bars > 0,
        settings_ok(s, dim),
        0 <= dim,
    ensures
        bars_row_step(s, dim, stereo, MenuDir::Inc).bars <= imax(menu_cap(s, dim, stereo), 1),
        n > 0 ==> 1 <= bars_row_set(s, dim, stereo, n).bars <= imax(menu_cap(s, dim, stereo), 1),
{
    crate::control::lemma_fit_le_axis(dim, s.width_on(dim), s.bar_spacing as int);
}

/// No entry of `s` occurs twice.
pub open spec fn distinct<T>(s: Seq<T>) -> bool {
    forall|i: int, j: int| 0 <= i < j < s.len() ==> s[i] != s[j]
}

proof fn lemma_position_of_entry<T>(s: Seq<T>, i: int, k: int)
    requires
        distinct(s),
        0 <= k <= i < s.len(),
    ensures
        position_from(s, s[i], k) == i,
    decreases i - k,
{
    if k < i {
        assert(s[k] != s[i]);
        lemma_position_of_entry(s, i, k + 1);
    }
}

/// On a row that cycles through distinct values, a step one way followed
/// by a step the other way restores the value.
pub proof fn lemma_cycle_steps_undo<T>(s: Seq<T>, i: int)
    requires
        distinct(s),
        0 <= i < s.len(),
    ensures
        step_in(s, step_in(s, s[i], MenuDir::Inc), MenuDir::Dec) == s[i],
        step_in(s, step_in(s, s[i], MenuDir::Dec), MenuDir::Inc) == s[i],
{
    let n = s.len() as int;
    lemma_position_of_entry(s, i, 0);
    let up = (i + 1) % n;
    let down = (i + n - 1) % n;
    assert(0 <= up < n && 0 <= down < n) by {
        vstd::arithmetic::div_mod::lemma_mod_bound(i + 1, n);
        vstd::arithmetic::div_mod::lemma_mod_bound(i + n - 1, n);
    }
    lemma_position_of_entry(s, up, 0);
    lemma_position_of_entry(s, down, 0);
    assert((up + (n - 1)) % n == i) by {
        if i + 1 < n {
            vstd::arithmetic::div_mod::lemma_small_mod((i + 1) as nat, n as nat);
            vstd::arithmetic::div_mod::lemma_mod_add_multiples_vanish(i, n);
            vstd::arithmetic::div_mod::lemma_small_mod(i as nat, n as nat);
        } else {
            vstd::arithmetic::div_mod::lemma_mod_self_0(n);
            vstd::arithmetic::div_mod::lemma_small_mod((n - 1) as nat, n as nat);
        }
    }
    assert((down + 1) % n == i) by {
        if i >= 1 {
            vstd::arithmetic::div_mod::lemma_mod_add_multiples_vanish(i - 1, n);
            vstd::arithmetic::div_mod::lemma_small_mod((i - 1) as nat, n as nat);
            vstd::arithmetic::div_mod::lemma_small_mod(i as nat, n as nat);
        } else {
            vstd::arithmetic::div_mod::lemma_small_mod((n - 1) as nat, n as nat);
            vstd::arithmetic::div_mod::lemma_mod_self_0(n);
        }
    }
}

/// The menu's cycled rows hold distinct values, so Left undoes Right and
/// Right undoes Left on each of them.
pub proof fn lemma_menu_cycles_are_distinct(tty: bool)
    ensures
        distinct(orientation_cycle()),
        distinct(input_cycle()),
        distinct(output_cycle(tty)),
        distinct(menu_fg_cycle()),
        distinct(menu_bg_cycle()),
{
}

} // verus!
