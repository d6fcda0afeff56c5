//! Colour maps: the per-cell colour table, the flat, accent and background
//! escapes, and the ANSI escapes that select colours. The colours of
//! gradients, blends, the spectrum and the background ramp are computed
//! with floating point by the caller and handed in as [`Shades`].

use vstd::prelude::*;
use crate::config::{ColorConfig, RgbColor, TerminalColor};
use crate::text::{chars_of, dec, digit_char, push_all, push_decimal, string_of};

verus! {

/// One channel of the xterm 6x6x6 colour cube.
pub open spec fn cube6(v: u8) -> int {
    if v < 48 {
        0
    } else if v < 115 {
        1
    } else if (v - 35) / 40 < 5 {
        (v - 35) / 40
    } else {
        5
    }
}

/// Nearest xterm-256 index of an sRGB triple.
pub open spec fn spec_color256(r: u8, g: u8, b: u8) -> int {
    16 + 36 * cube6(r) + 6 * cube6(g) + cube6(b)
}

fn cube6_exec(v: u8) -> (r: u8)
    ensures
        r == cube6(v),
{
    if v < 48 {
        0
    } else if v < 115 {
        1
    } else {
        let q = (v - 35) / 40;
        if q < 5 { q } else { 5 }
    }
}

/// Map an sRGB triple to the nearest xterm-256 index for terminals without
/// truecolor support (a 6x6x6 colour cube offset into the ANSI palette).
pub fn color256(r: u8, g: u8, b: u8) -> (c: u8)
    ensures
        c == spec_color256(r, g, b),
{
    16 + 36 * cube6_exec(r) + 6 * cube6_exec(g) + cube6_exec(b)
}

/// `ESC [ <kind> ; 2 ; r ; g ; b m` in truecolor, `ESC [ <kind> ; 5 ; n m`
/// otherwise, where `kind` is `38` (foreground) or `48` (background).
pub open spec fn rgb_escape(kind: char, r: u8, g: u8, b: u8, truecolor: bool) -> Seq<char> {
    if truecolor {
        seq!['\u{1b}', '[', kind, '8', ';', '2', ';'] + dec(r as nat) + seq![';'] + dec(g as nat)
            + seq![';'] + dec(b as nat) + seq!['m']
    } else {
        seq!['\u{1b}', '[', kind, '8', ';', '5', ';'] + dec(spec_color256(r, g, b) as nat) + seq![
            'm',
        ]
    }
}

fn rgb_escape_exec(kind: char, r: u8, g: u8, b: u8, truecolor: bool) -> (s: String)
    ensures
        s@ == rgb_escape(kind, r, g, b, truecolor),
{
    let mut v: Vec<char> = Vec::new();
    v.push('\u{1b}');
    v.push('[');
    v.push(kind);
    v.push('8');
    v.push(';');
    if truecolor {
        v.push('2');
        v.push(';');
        push_decimal(&mut v, r as u64);
        v.push(';');
        push_decimal(&mut v, g as u64);
        v.push(';');
        push_decimal(&mut v, b as u64);
    } else {
        v.push('5');
        v.push(';');
        push_decimal(&mut v, color256(r, g, b) as u64);
    }
    v.push('m');
    proof {
        assert(v@ =~= rgb_escape(kind, r, g, b, truecolor));
    }
    string_of(&v)
}

/// Foreground escape for an sRGB triple.
pub fn rgb_fg_rgb(r: u8, g: u8, b: u8, truecolor: bool) -> (s: String)
    ensures
        s@ == rgb_escape('3', r, g, b, truecolor),
{
    rgb_escape_exec('3', r, g, b, truecolor)
}

/// Background escape for an sRGB triple.
pub fn rgb_bg_rgb(r: u8, g: u8, b: u8, truecolor: bool) -> (s: String)
    ensures
        s@ == rgb_escape('4', r, g, b, truecolor),
{
    rgb_escape_exec('4', r, g, b, truecolor)
}

/// `ESC [ n m` for a two-digit SGR code `n`.
pub open spec fn sgr(d1: char, d2: char) -> Seq<char> {
    seq!['\u{1b}', '[', d1, d2, 'm']
}

/// Foreground escape of a configured colour: the uncoloured `ESC[39m` for
/// the default colour, otherwise the colour's vivid RGB.
pub open spec fn fg_ansi(c: TerminalColor, truecolor: bool) -> Seq<char> {
    match c.rgb() {
        None => sgr('3', '9'),
        Some(rgb) => rgb_escape('3', rgb.r, rgb.g, rgb.b, truecolor),
    }
}

/// Background escape of a configured colour: the eight named colours use
/// their ANSI background codes, RGB its own escape.
pub open spec fn bg_ansi(c: TerminalColor, truecolor: bool) -> Seq<char> {
    match c {
        TerminalColor::Default => sgr('4', '9'),
        TerminalColor::Black => sgr('4', '0'),
        TerminalColor::Red => sgr('4', '1'),
        TerminalColor::Green => sgr('4', '2'),
        TerminalColor::Yellow => sgr('4', '3'),
        TerminalColor::Blue => sgr('4', '4'),
        TerminalColor::Magenta => sgr('4', '5'),
        TerminalColor::Cyan => sgr('4', '6'),
        TerminalColor::White => sgr('4', '7'),
        TerminalColor::Rgb(r, g, b) => rgb_escape('4', r, g, b, truecolor),
    }
}

fn sgr_exec(d1: char, d2: char) -> (s: String)
    ensures
        s@ == sgr(d1, d2),
{
    let mut v: Vec<char> = Vec::new();
    v.push('\u{1b}');
    v.push('[');
    v.push(d1);
    v.push(d2);
    v.push('m');
    proof {
        assert(v@ =~= sgr(d1, d2));
    }
    string_of(&v)
}

/// See [`fg_ansi`].
pub fn color_to_fg_ansi(c: &TerminalColor, truecolor: bool) -> (s: String)
    ensures
        s@ == fg_ansi(*c, truecolor),
{
    match c.to_rgb() {
        None => sgr_exec('3', '9'),
        Some(rgb) => rgb_fg_rgb(rgb.r, rgb.g, rgb.b, truecolor),
    }
}

/// See [`bg_ansi`].
pub fn color_to_bg_ansi(c: &TerminalColor, truecolor: bool) -> (s: String)
    ensures
        s@ == bg_ansi(*c, truecolor),
{
    match c {
        TerminalColor::Default => sgr_exec('4', '9'),
        TerminalColor::Black => sgr_exec('4', '0'),
        TerminalColor::Red => sgr_exec('4', '1'),
        TerminalColor::Green => sgr_exec('4', '2'),
        TerminalColor::Yellow => sgr_exec('4', '3'),
        TerminalColor::Blue => sgr_exec('4', '4'),
        TerminalColor::Magenta => sgr_exec('4', '5'),
        TerminalColor::Cyan => sgr_exec('4', '6'),
        TerminalColor::White => sgr_exec('4', '7'),
        TerminalColor::Rgb(r, g, b) => rgb_bg_rgb(*r, *g, *b, truecolor),
    }
}

pub open spec fn white() -> RgbColor {
    RgbColor { r: 255, g: 255, b: 255 }
}

/// The colours a colour map takes from floating-point work done by its
/// caller: the per-cell gradient, blend or spectrum colour, and the base
/// colour of each line of the dim background ramp.
#[derive(Debug, Clone)]
pub struct Shades {
    pub cells: Vec<Vec<RgbColor>>,
    pub ramp: Vec<RgbColor>,
}

/// Whether `cfg` draws cells in computed colours: a spectrum, or a vertical
/// or horizontal gradient that has colours.
pub open spec fn shaded(cfg: ColorConfig) -> bool {
    cfg.spectrum || (cfg.gradient && cfg.gradient_colors@.len() > 0) || (cfg.horizontal_gradient
        && cfg.horizontal_gradient_colors@.len() > 0)
}

/// The shades cover `lines` x `bars` cells, and every line when the
/// background ramp is on.
pub open spec fn shades_fit(sh: Shades, cfg: ColorConfig, lines: int, bars: int) -> bool {
    &&& sh.cells@.len() == lines
    &&& forall|y: int| 0 <= y < lines ==> (#[trigger] sh.cells@[y])@.len() == bars
    &&& cfg.background_gradient ==> sh.ramp@.len() == lines
}

/// The colour of cell (`y`, `x`): the computed shade when the map is
/// shaded, else the foreground's sRGB (white for the default colour).
pub open spec fn cell_color(cfg: ColorConfig, sh: Shades, y: int, x: int) -> RgbColor {
    if shaded(cfg) {
        sh.cells@[y]@[x]
    } else {
        match cfg.foreground.rgb() {
            Some(c) => c,
            None => white(),
        }
    }
}

/// High-contrast accent ink: white on dark foregrounds, black otherwise.
pub open spec fn accent_ansi(fg: TerminalColor, truecolor: bool) -> Seq<char> {
    match fg.rgb() {
        Some(c) => if c.r + c.g + c.b < 450 {
            rgb_escape('3', 255, 255, 255, truecolor)
        } else {
            rgb_escape('3', 0, 0, 0, truecolor)
        },
        None => rgb_escape('3', 0, 0, 0, truecolor),
    }
}

/// Terminal colour support as `COLORTERM` advertises it: truecolor unless
/// the variable is set and names neither `truecolor` nor `24bit` (in any
/// ASCII case).
pub open spec fn truecolor_from(colorterm: Option<Seq<char>>) -> bool {
    match colorterm {
        None => true,
        Some(v) => contains(ascii_lower_seq(v), "truecolor"@) || contains(ascii_lower_seq(v), "24bit"@),
    }
}

pub open spec fn ascii_lower_seq(s: Seq<char>) -> Seq<char> {
    s.map_values(|c: char| crate::text::ascii_lower(c))
}

pub open spec fn contains(s: Seq<char>, t: Seq<char>) -> bool {
    exists|i: int| 0 <= i && i + t.len() <= s.len() && #[trigger] s.subrange(i, i + t.len()) == t
}

fn contains_exec(s: &Vec<char>, t: &Vec<char>) -> (r: bool)
    ensures
        r == contains(s@, t@),
{
    if t.len() > s.len() {
        return false;
    }
    if t.len() == 0 {
        proof {
            assert(s@.subrange(0, 0 + t@.len() as int) =~= t@);
        }
        return true;
    }
    let mut i: usize = 0;
    let last = s.len() - t.len();
    while i <= last
        invariant
            t@.len() <= s@.len(),
            last == s@.len() - t@.len(),
            t@.len() >= 1,
            0 <= i <= last + 1,
            forall|j: int| 0 <= j < i ==> #[trigger] s@.subrange(j, j + t@.len()) != t@,
        decreases last + 1 - i,
    {
        let tl = t.len();
        let sl = s.len();
        assert(i + tl <= sl);
        let piece = crate::text::sub_chars(s, i, i + tl);
        if crate::text::chars_eq(&piece, t) {
            return true;
        }
        i = i + 1;
    }
    proof {
        assert forall|j: int| 0 <= j && j + t@.len() <= s@.len() implies #[trigger] s@.subrange(j, j + t@.len()) != t@ by {
            assert(j < i);
        }
    }
    false
}

/// See [`truecolor_from`]; `colorterm` is the value of `COLORTERM`, if set.
pub fn truecolor_from_colorterm(colorterm: Option<&str>) -> (r: bool)
    ensures
        r == truecolor_from(match colorterm { Some(v) => Some(v@), None => None }),
{
    match colorterm {
        None => true,
        Some(v) => {
            let chars = chars_of(v);
            let mut low: Vec<char> = Vec::new();
            let mut i: usize = 0;
            while i < chars.len()
                invariant
                    0 <= i <= chars@.len(),
                    low@ == ascii_lower_seq(chars@.take(i as int)),
                decreases chars@.len() - i,
            {
                let c = chars[i];
                let l = if 'A' <= c && c <= 'Z' { ((c as u8) + 32) as char } else { c };
                low.push(l);
                proof {
                    assert(ascii_lower_seq(chars@.take(i + 1)) == ascii_lower_seq(chars@.take(i as int)).push(crate::text::ascii_lower(chars@[i as int])));
                }
                i = i + 1;
            }
            proof {
                assert(chars@.take(chars@.len() as int) == chars@);
            }
            contains_exec(&low, &chars_of("truecolor")) || contains_exec(&low, &chars_of("24bit"))
        },
    }
}

/// Colours of one terminal frame: the per-cell colour table, the flat
/// foreground/background escapes, the accent ink and the optional dim
/// background ramp.
pub struct ColorMap {
    /// 2D grid of RGB colours [line][bar].
    pub table: Vec<Vec<RgbColor>>,
    pub fg_ansi: String,
    pub bg_ansi: String,
    pub has_gradient: bool,
    pub truecolor: bool,
    /// High-contrast ink (white on dark, black on light foregrounds) used for
    /// peak caps and beat/highlight accents.
    pub accent_ansi: String,
    pub fg_rgb: Option<RgbColor>,
    pub spectrum: bool,
    /// Per-line background escapes when `background_gradient` is active (a
    /// dim vertical ramp); empty when flat.
    pub bg_rows: Vec<String>,
}

impl ColorMap {
    /// The table is a non-empty rectangle whose sides fit in 32 bits.
    pub open spec fn wf(&self) -> bool {
        &&& 1 <= self.table@.len() <= u32::MAX
        &&& 1 <= self.table@[0]@.len() <= u32::MAX
        &&& forall|y: int| 0 <= y < self.table@.len() ==> (#[trigger] self.table@[y])@.len()
            == self.table@[0]@.len()
    }

    pub open spec fn lines(&self) -> int {
        self.table@.len() as int
    }

    pub open spec fn bars(&self) -> int {
        self.table@[0]@.len() as int
    }

    /// The colour map `new_tc(cfg, lines, bars, truecolor, sh)` builds.
    pub open spec fn built_from(&self, cfg: ColorConfig, lines: int, bars: int, truecolor: bool, sh: Shades) -> bool {
        let l = if lines < 1 { 1 } else { lines };
        let b = if bars < 1 { 1 } else { bars };
        &&& self.wf()
        &&& self.lines() == l
        &&& self.bars() == b
        &&& forall|y: int, x: int|
            0 <= y < l && 0 <= x < b ==> #[trigger] self.table@[y]@[x] == cell_color(cfg, sh, y, x)
        &&& self.fg_ansi@ == fg_ansi(cfg.foreground, truecolor)
        &&& self.bg_ansi@ == bg_ansi(cfg.background, truecolor)
        &&& self.has_gradient == (cfg.spectrum || cfg.gradient || cfg.horizontal_gradient)
        &&& self.truecolor == truecolor
        &&& self.accent_ansi@ == accent_ansi(cfg.foreground, truecolor)
        &&& self.fg_rgb == cfg.foreground.rgb()
        &&& self.spectrum == cfg.spectrum
        &&& (cfg.background_gradient ==> self.bg_rows@.len() == l && forall|y: int|
            0 <= y < l ==> #[trigger] self.bg_rows@[y]@ == rgb_escape('4', sh.ramp@[y].r, sh.ramp@[y].g,
            sh.ramp@[y].b, truecolor))
        &&& (!cfg.background_gradient ==> self.bg_rows@.len() == 0)
    }

    /// Builds the colour map for `lines` x `bars` cells with the given
    /// shades, reading the terminal's colour support from `COLORTERM`
    /// (`colorterm` is its value, if set).
    pub fn new(config: &ColorConfig, lines: usize, bars: usize, colorterm: Option<&str>, shades: &Shades) -> (m: Self)
        requires
            lines <= u32::MAX,
            bars <= u32::MAX,
            shades_fit(*shades, *config, if lines < 1 { 1 } else { lines as int }, if bars < 1 { 1 } else {
                bars as int
            }),
        ensures
            m.built_from(*config, lines as int, bars as int, truecolor_from(match colorterm {
                Some(v) => Some(v@),
                None => None,
            }), *shades),
    {
        let tc = truecolor_from_colorterm(colorterm);
        Self::new_tc(config, lines, bars, tc, shades)
    }

    /// Builds the colour map with an explicit truecolor flag.
    pub fn new_tc(config: &ColorConfig, lines: usize, bars: usize, truecolor: bool, shades: &Shades) -> (m: Self)
        requires
            lines <= u32::MAX,
            bars <= u32::MAX,
            shades_fit(*shades, *config, if lines < 1 { 1 } else { lines as int }, if bars < 1 { 1 } else {
                bars as int
            }),
        ensures
            m.built_from(*config, lines as int, bars as int, truecolor, *shades),
    {
        let lines = if lines < 1 { 1 } else { lines };
        let bars = if bars < 1 { 1 } else { bars };
        let fg_ansi = color_to_fg_ansi(&config.foreground, truecolor);
        let bg_ansi = color_to_bg_ansi(&config.background, truecolor);
        let fg_rgb = config.foreground.to_rgb();
        let accent_ansi = match &fg_rgb {
            Some(c) => {
                if (c.r as u16) + (c.g as u16) + (c.b as u16) < 450 {
                    rgb_fg_rgb(255, 255, 255, truecolor)
                } else {
                    rgb_fg_rgb(0, 0, 0, truecolor)
                }
            },
            None => rgb_fg_rgb(0, 0, 0, truecolor),
        };
        let on = config.spectrum || (config.gradient && config.gradient_colors.len() > 0) || (
        config.horizontal_gradient && config.horizontal_gradient_colors.len() > 0);
        let flat = match config.foreground.to_rgb() {
            Some(c) => c,
            None => RgbColor { r: 255, g: 255, b: 255 },
        };
        let has_gradient = config.spectrum || config.gradient || config.horizontal_gradient;
        let mut table: Vec<Vec<RgbColor>> = Vec::new();
        let mut y: usize = 0;
        while y < lines
            invariant
                0 <= y <= lines <= u32::MAX,
                1 <= bars <= u32::MAX,
                on == shaded(*config),
                shades_fit(*shades, *config, lines as int, bars as int),
                flat == (match config.foreground.rgb() { Some(c) => c, None => white() }),
                table@.len() == y,
                forall|j: int| 0 <= j < y ==> (#[trigger] table@[j])@.len() == bars,
                forall|j: int, x: int| 0 <= j < y && 0 <= x < bars ==> #[trigger] table@[j]@[x] == cell_color(*config, *shades, j, x),
            decreases lines - y,
        {
            let mut row: Vec<RgbColor> = Vec::new();
            let mut x: usize = 0;
            while x < bars
                invariant
                    0 <= x <= bars <= u32::MAX,
                    0 <= y < lines <= u32::MAX,
                    on == shaded(*config),
                    shades_fit(*shades, *config, lines as int, bars as int),
                    flat == (match config.foreground.rgb() { Some(c) => c, None => white() }),
                    row@.len() == x,
                    forall|i: int| 0 <= i < x ==> #[trigger] row@[i] == cell_color(*config, *shades, y as int, i),
                decreases bars - x,
            {
                let c = if on {
                    assert(shades.cells@[y as int]@.len() == bars);
                    shades.cells[y][x]
                } else {
                    flat
                };
                row.push(c);
                x = x + 1;
            }
            table.push(row);
            y = y + 1;
        }
        let mut bg_rows: Vec<String> = Vec::new();
        if config.background_gradient {
            let mut y: usize = 0;
            while y < lines
                invariant
                    0 <= y <= lines <= u32::MAX,
                    config.background_gradient,
                    shades_fit(*shades, *config, lines as int, bars as int),
                    bg_rows@.len() == y,
                    forall|j: int| 0 <= j < y ==> #[trigger] bg_rows@[j]@ == rgb_escape('4', shades.ramp@[j].r,
                        shades.ramp@[j].g, shades.ramp@[j].b, truecolor),
                decreases lines - y,
            {
                let c = shades.ramp[y];
                bg_rows.push(rgb_bg_rgb(c.r, c.g, c.b, truecolor));
                y = y + 1;
            }
        }
        ColorMap {
            table,
            fg_ansi,
            bg_ansi,
            has_gradient,
            truecolor,
            accent_ansi,
            fg_rgb,
            spectrum: config.spectrum,
            bg_rows,
        }
    }

    /// The colour of cell (`y`, `x`) when a gradient or the spectrum is
    /// active (see [`ColorMap::color_at`]).
    pub open spec fn color_of(&self, y: int, x: int) -> Option<RgbColor> {
        if !self.has_gradient {
            None
        } else if 0 <= y < self.lines() && 0 <= x < self.table@[y]@.len() {
            Some(self.table@[y]@[x])
        } else {
            None
        }
    }

    /// The gradient colour at (line, bar), when a gradient is active;
    /// `None` means no gradient, and the caller falls back to the configured
    /// foreground.
    pub fn color_at(&self, y: usize, x: usize) -> (r: Option<RgbColor>)
        requires
            self.wf(),
        ensures
            r == self.color_of(y as int, x as int),
    {
        if !self.has_gradient {
            return None;
        }
        if y < self.table.len() && x < self.table[y].len() {
            Some(self.table[y][x])
        } else {
            None
        }
    }

    /// Foreground escape for cell (`y`, `x`): the gradient colour there, or
    /// the flat foreground.
    pub fn get_fg_escape(&self, y: usize, x: usize) -> (s: String)
        requires
            self.wf(),
        ensures
            s@ == match self.color_of(y as int, x as int) {
                Some(c) => rgb_escape('3', c.r, c.g, c.b, self.truecolor),
                None => self.fg_ansi@,
            },
    {
        match self.color_at(y, x) {
            Some(c) => rgb_fg_rgb(c.r, c.g, c.b, self.truecolor),
            None => self.fg_ansi.clone(),
        }
    }

    /// A dimmed copy (`percent` of each channel, truncated) of the colour at
    /// (`y`, `x`), for shadows and reflected copies of the spectrum.
    pub fn dim_fg(&self, y: usize, x: usize, percent: u8) -> (s: String)
        requires
            self.wf(),
            percent <= 100,
        ensures
            s@ == ({
                let c = match self.color_of(y as int, x as int) {
                    Some(c) => c,
                    None => match self.fg_rgb {
                        Some(f) => f,
                        None => RgbColor { r: 90, g: 90, b: 90 },
                    },
                };
                rgb_escape(
                    '3',
                    (c.r * percent / 100) as u8,
                    (c.g * percent / 100) as u8,
                    (c.b * percent / 100) as u8,
                    self.truecolor,
                )
            }),
    {
        let c = match self.color_at(y, x) {
            Some(c) => c,
            None => match self.fg_rgb {
                Some(f) => f,
                None => RgbColor { r: 90, g: 90, b: 90 },
            },
        };
        let p = percent as u16;
        proof {
            assert((c.r as int) * (p as int) <= 25500) by (nonlinear_arith)
                requires c.r <= 255, p <= 100;
            assert((c.g as int) * (p as int) <= 25500) by (nonlinear_arith)
                requires c.g <= 255, p <= 100;
            assert((c.b as int) * (p as int) <= 25500) by (nonlinear_arith)
                requires c.b <= 255, p <= 100;
            assert((c.r as int) * (p as int) / 100 <= 255);
            assert((c.g as int) * (p as int) / 100 <= 255);
            assert((c.b as int) * (p as int) / 100 <= 255);
        }
        rgb_fg_rgb(
            ((c.r as u16) * p / 100) as u8,
            ((c.g as u16) * p / 100) as u8,
            ((c.b as u16) * p / 100) as u8,
            self.truecolor,
        )
    }

    /// High-contrast accent ink (white on dark foregrounds, black on light).
    pub fn accent_escape(&self) -> (s: &str)
        ensures
            s@ == self.accent_ansi@,
    {
        self.accent_ansi.as_str()
    }

    /// The background escape for line `y` of a vertical background ramp.
    pub fn bg_row(&self, y: usize) -> (r: Option<&str>)
        ensures
            r is Some <==> y < self.bg_rows@.len(),
            r matches Some(s) ==> s@ == self.bg_rows@[y as int]@,
    {
        if y < self.bg_rows.len() {
            Some(self.bg_rows[y].as_str())
        } else {
            None
        }
    }
}

/// Two colour maps built from the same settings, size, shades and colour
/// support are the same map. With the contracts of [`ColorMap::new`] and
/// [`ColorMap::new_tc`] this says that building from `COLORTERM` is
/// building with the truecolor flag that `COLORTERM` advertises.
pub proof fn lemma_built_maps_agree(
    a: ColorMap,
    b: ColorMap,
    cfg: ColorConfig,
    lines: int,
    bars: int,
    truecolor: bool,
    sh: Shades,
)
    requires
        a.built_from(cfg, lines, bars, truecolor, sh),
        b.built_from(cfg, lines, bars, truecolor, sh),
    ensures
        a.table@.len() == b.table@.len(),
        forall|y: int| 0 <= y < a.table@.len() ==> (#[trigger] a.table@[y])@ == b.table@[y]@,
        a.fg_ansi@ == b.fg_ansi@,
        a.bg_ansi@ == b.bg_ansi@,
        a.has_gradient == b.has_gradient,
        a.truecolor == b.truecolor,
        a.accent_ansi@ == b.accent_ansi@,
        a.fg_rgb == b.fg_rgb,
        a.spectrum == b.spectrum,
        a.bg_rows@.len() == b.bg_rows@.len(),
        forall|y: int| 0 <= y < a.bg_rows@.len() ==> (#[trigger] a.bg_rows@[y])@ == b.bg_rows@[y]@,
{
    assert forall|y: int| 0 <= y < a.table@.len() implies (#[trigger] a.table@[y])@ == b.table@[y]@ by {
        assert(a.table@[y]@.len() == a.table@[0]@.len());
        assert(b.table@[y]@.len() == b.table@[0]@.len());
        assert forall|x: int| 0 <= x < a.table@[y]@.len() implies a.table@[y]@[x] == b.table@[y]@[x] by {
            assert(a.table@[y]@[x] == cell_color(cfg, sh, y, x));
            assert(b.table@[y]@[x] == cell_color(cfg, sh, y, x));
        }
        assert(a.table@[y]@ =~= b.table@[y]@);
    }
}

/// The ANSI colour number of a colour whose channels are each off or on:
/// red counts 1, green 2 and blue 4.
pub open spec fn ansi_number(c: RgbColor) -> int {
    (if c.r > 0 { 1int } else { 0int }) + (if c.g > 0 { 2int } else { 0int }) + (if c.b > 0 { 4int } else { 0int })
}

/// The eight named colours in ANSI order (colour numbers 0 to 7).
pub open spec fn ansi_order() -> Seq<TerminalColor> {
    seq![
        TerminalColor::Black,
        TerminalColor::Red,
        TerminalColor::Green,
        TerminalColor::Yellow,
        TerminalColor::Blue,
        TerminalColor::Magenta,
        TerminalColor::Cyan,
        TerminalColor::White,
    ]
}

/// The background escape of each of the eight named colours selects the
/// ANSI colour of that name: `ESC [ 4 n m`, where `n` is the colour's place
/// in the ANSI order and also the number its RGB channels make (red 1,
/// green 2, blue 4, each channel fully off or fully on), so the background
/// agrees with the foreground drawn from the colour's RGB. The terminal default colour resets with
/// `ESC [ 4 9 m`.
pub proof fn lemma_named_backgrounds_follow_ansi(n: int, truecolor: bool)
    requires
        0 <= n < 8,
    ensures
        bg_ansi(ansi_order()[n], truecolor) == seq!['\u{1b}', '[', '4', digit_char(n), 'm'],
        ansi_order()[n].rgb() matches Some(rgb) && ansi_number(rgb) == n && (rgb.r == 0 || rgb.r == 255)
            && (rgb.g == 0 || rgb.g == 255) && (rgb.b == 0 || rgb.b == 255),
        bg_ansi(TerminalColor::Default, truecolor) == seq!['\u{1b}', '[', '4', '9', 'm'],
{
    let c = ansi_order()[n];
    assert(n == 0 ==> c == TerminalColor::Black);
    assert(n == 1 ==> c == TerminalColor::Red);
    assert(n == 2 ==> c == TerminalColor::Green);
    assert(n == 3 ==> c == TerminalColor::Yellow);
    assert(n == 4 ==> c == TerminalColor::Blue);
    assert(n == 5 ==> c == TerminalColor::Magenta);
    assert(n == 6 ==> c == TerminalColor::Cyan);
    assert(n == 7 ==> c == TerminalColor::White);
}

/// Level of the xterm colour cube for cube index `k`: 0, 95, 135, 175,
/// 215, 255.
pub open spec fn cube_level(k: int) -> int {
    if k == 0 { 0 } else { 55 + 40 * k }
}

/// The 256-colour index of an RGB colour picks, channel by channel, the
/// cube level nearest to the channel's value, and lies in the colour cube
/// (16 to 231).
pub proof fn lemma_color256_picks_nearest_levels(r: u8, g: u8, b: u8, k: int)
    requires
        0 <= k < 6,
    ensures
        0 <= cube6(r) < 6 && 0 <= cube6(g) < 6 && 0 <= cube6(b) < 6,
        spec_color256(r, g, b) == 16 + 36 * cube6(r) + 6 * cube6(g) + cube6(b),
        16 <= spec_color256(r, g, b) <= 231,
        abs_diff(cube_level(cube6(r)), r as int) <= abs_diff(cube_level(k), r as int),
        abs_diff(cube_level(cube6(g)), g as int) <= abs_diff(cube_level(k), g as int),
        abs_diff(cube_level(cube6(b)), b as int) <= abs_diff(cube_level(k), b as int),
{
    lemma_cube6_nearest(r, k);
    lemma_cube6_nearest(g, k);
    lemma_cube6_nearest(b, k);
}

pub open spec fn abs_diff(a: int, b: int) -> int {
    if a < b { b - a } else { a - b }
}

proof fn lemma_cube6_nearest(v: u8, k: int)
    requires
        0 <= k < 6,
    ensures
        0 <= cube6(v) < 6,
        abs_diff(cube_level(cube6(v)), v as int) <= abs_diff(cube_level(k), v as int),
{
}

} // verus!
