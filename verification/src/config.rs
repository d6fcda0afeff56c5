//! Configuration values, their INI spellings, and the INI reader.

use vstd::prelude::*;
use crate::text::{
    chars_eq, chars_eq_ignore_ascii_case, chars_of, chars_starts_with, eq_ignore_ascii_case, lower,
    lower_chars, parse_uint, parse_uint_chars, string_of, strip, strip_chars, sub_chars, trim,
    Strip, lines, split_lines, is_ascii_ws,
};

verus! {

#[derive(Debug, Clone, Copy, PartialEq, Eq, Structural)]
pub enum ScalingMode {
    Linear,
    Decibel,
}

impl ScalingMode {
    /// The INI spelling of the value.
    pub open spec fn name(self) -> Seq<char> {
        match self {
            ScalingMode::Linear => "linear"@,
            ScalingMode::Decibel => "decibel"@,
        }
    }

    pub fn as_str(&self) -> (r: &'static str)
        ensures
            r@ == self.name(),
    {
        match self {
            ScalingMode::Linear => "linear",
            ScalingMode::Decibel => "decibel",
        }
    }
}

#[derive(Debug, Clone, Copy, PartialEq, Eq, Structural)]
pub enum InputMethod {
    Pulse,
    Pipewire,
    Alsa,
    Fifo,
    Cpal,
    Test,
}

impl InputMethod {
    /// The INI spelling of the value.
    pub open spec fn name(self) -> Seq<char> {
        match self {
            InputMethod::Pulse => "pulse"@,
            InputMethod::Pipewire => "pipewire"@,
            InputMethod::Alsa => "alsa"@,
            InputMethod::Fifo => "fifo"@,
            InputMethod::Cpal => "cpal"@,
            InputMethod::Test => "test"@,
        }
    }

    pub fn as_str(&self) -> (r: &'static str)
        ensures
            r@ == self.name(),
    {
        match self {
            InputMethod::Pulse => "pulse",
            InputMethod::Pipewire => "pipewire",
            InputMethod::Alsa => "alsa",
            InputMethod::Fifo => "fifo",
            InputMethod::Cpal => "cpal",
            InputMethod::Test => "test",
        }
    }
}

#[derive(Debug, Clone, Copy, PartialEq, Eq, Structural)]
pub enum OutputMethod {
    Noncurses,
    Ncurses,
    Raw,
}

impl OutputMethod {
    /// The INI spelling of the value.
    pub open spec fn name(self) -> Seq<char> {
        match self {
            OutputMethod::Noncurses => "noncurses"@,
            OutputMethod::Ncurses => "ncurses"@,
            OutputMethod::Raw => "raw"@,
        }
    }

    pub fn as_str(&self) -> (r: &'static str)
        ensures
            r@ == self.name(),
    {
        match self {
            OutputMethod::Noncurses => "noncurses",
            OutputMethod::Ncurses => "ncurses",
            OutputMethod::Raw => "raw",
        }
    }
}

#[derive(Debug, Clone, Copy, PartialEq, Eq, Structural)]
pub enum Orientation {
    Bottom,
    Top,
    Left,
    Right,
    Horizontal,
}

impl Orientation {
    /// The INI spelling of the value.
    pub open spec fn name(self) -> Seq<char> {
        match self {
            Orientation::Bottom => "bottom"@,
            Orientation::Top => "top"@,
            Orientation::Left => "left"@,
            Orientation::Right => "right"@,
            Orientation::Horizontal => "horizontal"@,
        }
    }

    pub fn as_str(&self) -> (r: &'static str)
        ensures
            r@ == self.name(),
    {
        match self {
            Orientation::Bottom => "bottom",
            Orientation::Top => "top",
            Orientation::Left => "left",
            Orientation::Right => "right",
            Orientation::Horizontal => "horizontal",
        }
    }
}

#[derive(Debug, Clone, Copy, PartialEq, Eq, Structural)]
pub enum MonoOption {
    Average,
    Left,
    Right,
}

impl MonoOption {
    /// The INI spelling of the value.
    pub open spec fn name(self) -> Seq<char> {
        match self {
            MonoOption::Average => "average"@,
            MonoOption::Left => "left"@,
            MonoOption::Right => "right"@,
        }
    }

    pub fn as_str(&self) -> (r: &'static str)
        ensures
            r@ == self.name(),
    {
        match self {
            MonoOption::Average => "average",
            MonoOption::Left => "left",
            MonoOption::Right => "right",
        }
    }
}

#[derive(Debug, Clone, Copy, PartialEq, Eq, Structural)]
pub enum DataFormat {
    Binary,
    Ascii,
}

impl DataFormat {
    /// The INI spelling of the value.
    pub open spec fn name(self) -> Seq<char> {
        match self {
            DataFormat::Binary => "binary"@,
            DataFormat::Ascii => "ascii"@,
        }
    }

    pub fn as_str(&self) -> (r: &'static str)
        ensures
            r@ == self.name(),
    {
        match self {
            DataFormat::Binary => "binary",
            DataFormat::Ascii => "ascii",
        }
    }
}

#[derive(Debug, Clone, Copy, PartialEq, Eq, Structural)]
pub enum BitFormat {
    Bits8,
    Bits16,
}

impl BitFormat {
    /// The INI spelling of the value.
    pub open spec fn name(self) -> Seq<char> {
        match self {
            BitFormat::Bits8 => "8bit"@,
            BitFormat::Bits16 => "16bit"@,
        }
    }

    pub fn as_str(&self) -> (r: &'static str)
        ensures
            r@ == self.name(),
    {
        match self {
            BitFormat::Bits8 => "8bit",
            BitFormat::Bits16 => "16bit",
        }
    }
}

#[derive(Debug, Clone, Copy, PartialEq, Eq, Structural)]
pub enum XAxis {
    Off,
    Frequency,
}

impl XAxis {
    /// The INI spelling of the value.
    pub open spec fn name(self) -> Seq<char> {
        match self {
            XAxis::Off => "none"@,
            XAxis::Frequency => "scale"@,
        }
    }

    pub fn as_str(&self) -> (r: &'static str)
        ensures
            r@ == self.name(),
    {
        match self {
            XAxis::Off => "none",
            XAxis::Frequency => "scale",
        }
    }
}

#[derive(Debug, Clone, Copy, PartialEq, Eq, Structural)]
pub enum BlendDirection {
    Up,
    Down,
    Left,
    Right,
}

impl BlendDirection {
    /// The INI spelling of the value.
    pub open spec fn name(self) -> Seq<char> {
        match self {
            BlendDirection::Up => "up"@,
            BlendDirection::Down => "down"@,
            BlendDirection::Left => "left"@,
            BlendDirection::Right => "right"@,
        }
    }

    pub fn as_str(&self) -> (r: &'static str)
        ensures
            r@ == self.name(),
    {
        match self {
            BlendDirection::Up => "up",
            BlendDirection::Down => "down",
            BlendDirection::Left => "left",
            BlendDirection::Right => "right",
        }
    }
}

/// How the oscilloscope draws the trace: a thin line (half-block glyphs) or a
/// filled area (8-level sub-character blocks).
#[derive(Debug, Clone, Copy, PartialEq, Eq, Structural)]
pub enum WaveformStyle {
    Line,
    Area,
}

impl WaveformStyle {
    /// The INI spelling of the value.
    pub open spec fn name(self) -> Seq<char> {
        match self {
            WaveformStyle::Line => "line"@,
            WaveformStyle::Area => "area"@,
        }
    }

    pub fn as_str(&self) -> (r: &'static str)
        ensures
            r@ == self.name(),
    {
        match self {
            WaveformStyle::Line => "line",
            WaveformStyle::Area => "area",
        }
    }
}


impl Orientation {
    /// The orientation the `o` key switches to under `output_method`.
    pub open spec fn next(self, output_method: OutputMethod) -> Orientation {
        match output_method {
            OutputMethod::Noncurses => match self {
                Orientation::Bottom => Orientation::Top,
                Orientation::Top => Orientation::Left,
                Orientation::Left => Orientation::Right,
                Orientation::Right => Orientation::Horizontal,
                Orientation::Horizontal => Orientation::Bottom,
            },
            OutputMethod::Ncurses => match self {
                Orientation::Bottom => Orientation::Top,
                Orientation::Top => Orientation::Left,
                Orientation::Left => Orientation::Right,
                Orientation::Right => Orientation::Bottom,
                Orientation::Horizontal => Orientation::Bottom,
            },
            OutputMethod::Raw => self,
        }
    }

    pub fn cycle(&self, output_method: OutputMethod) -> (r: Self)
        ensures
            r == self.next(output_method),
    {
        match output_method {
            OutputMethod::Noncurses => match self {
                Orientation::Bottom => Orientation::Top,
                Orientation::Top => Orientation::Left,
                Orientation::Left => Orientation::Right,
                Orientation::Right => Orientation::Horizontal,
                Orientation::Horizontal => Orientation::Bottom,
            },
            OutputMethod::Ncurses => match self {
                Orientation::Bottom => Orientation::Top,
                Orientation::Top => Orientation::Left,
                Orientation::Left => Orientation::Right,
                Orientation::Right => Orientation::Bottom,
                Orientation::Horizontal => Orientation::Bottom,
            },
            OutputMethod::Raw => *self,
        }
    }
}

/// Cycling with the `noncurses` output visits all five orientations and
/// comes back after five presses; `ncurses` cycles through the four
/// classic ones; `raw` never changes the orientation.
pub proof fn lemma_orientation_cycle_period(o: Orientation)
    ensures
        o.next(OutputMethod::Noncurses).next(OutputMethod::Noncurses).next(
            OutputMethod::Noncurses,
        ).next(OutputMethod::Noncurses).next(OutputMethod::Noncurses) == o,
        o != Orientation::Horizontal ==> o.next(OutputMethod::Ncurses).next(
            OutputMethod::Ncurses,
        ).next(OutputMethod::Ncurses).next(OutputMethod::Ncurses) == o,
        o.next(OutputMethod::Ncurses) != Orientation::Horizontal,
        o.next(OutputMethod::Raw) == o,
{
}

#[derive(Debug, Clone, Copy, PartialEq, Eq, Structural)]
pub struct RgbColor {
    pub r: u8,
    pub g: u8,
    pub b: u8,
}

#[derive(Debug, Clone, Copy, PartialEq, Eq, Structural)]
pub enum TerminalColor {
    Default,
    Black,
    Red,
    Green,
    Yellow,
    Blue,
    Magenta,
    Cyan,
    White,
    Rgb(u8, u8, u8),
}

pub open spec fn is_hex_digit(c: char) -> bool {
    ('0' <= c && c <= '9') || ('a' <= c && c <= 'f') || ('A' <= c && c <= 'F')
}

pub open spec fn hex_value(c: char) -> int {
    if '0' <= c && c <= '9' {
        c as int - '0' as int
    } else if 'a' <= c && c <= 'f' {
        c as int - 'a' as int + 10
    } else {
        c as int - 'A' as int + 10
    }
}

/// `u8::from_str_radix(pair, 16)` for a two-character string: two hex
/// digits, or a `+` sign and one hex digit.
pub open spec fn hex_pair(a: char, b: char) -> Option<u8> {
    if is_hex_digit(a) && is_hex_digit(b) {
        Some((hex_value(a) * 16 + hex_value(b)) as u8)
    } else if a == '+' && is_hex_digit(b) {
        Some(hex_value(b) as u8)
    } else {
        None
    }
}

/// The colour of a `#rrggbb` body (the six characters after `#`).
pub open spec fn hex_rgb(h: Seq<char>) -> Option<TerminalColor> {
    if h.len() == 6 {
        match (hex_pair(h[0], h[1]), hex_pair(h[2], h[3]), hex_pair(h[4], h[5])) {
            (Some(r), Some(g), Some(b)) => Some(TerminalColor::Rgb(r, g, b)),
            _ => None,
        }
    } else {
        None
    }
}

/// A colour value as written in a config: surrounding whitespace and
/// quotes removed.
pub open spec fn clean_color_text(s: Seq<char>) -> Seq<char> {
    trim(strip(strip(trim(s), Strip::Ch('\'')), Strip::Ch('"')))
}

/// The colour that a config value names: `#rrggbb`, one of the eight
/// colour names in any letter case, otherwise the terminal default.
pub open spec fn parse_color(s: Seq<char>) -> TerminalColor {
    let c = clean_color_text(s);
    if c.len() > 0 && c[0] == '#' && hex_rgb(c.drop_first()) is Some {
        hex_rgb(c.drop_first())->0
    } else if lower(c) == "black"@ {
        TerminalColor::Black
    } else if lower(c) == "red"@ {
        TerminalColor::Red
    } else if lower(c) == "green"@ {
        TerminalColor::Green
    } else if lower(c) == "yellow"@ {
        TerminalColor::Yellow
    } else if lower(c) == "blue"@ {
        TerminalColor::Blue
    } else if lower(c) == "magenta"@ {
        TerminalColor::Magenta
    } else if lower(c) == "cyan"@ {
        TerminalColor::Cyan
    } else if lower(c) == "white"@ {
        TerminalColor::White
    } else {
        TerminalColor::Default
    }
}

pub open spec fn hex_char(n: int) -> char {
    if n < 10 {
        (('0' as int) + n) as char
    } else {
        (('a' as int) + n - 10) as char
    }
}

/// Two lower-case hex digits.
pub open spec fn hex2(v: u8) -> Seq<char> {
    seq![hex_char((v / 16) as int), hex_char((v % 16) as int)]
}

proof fn lemma_strip_keeps(s: Seq<char>, k: Strip)
    requires
        s.len() > 0,
        !crate::text::strips(k, s[0]),
        !crate::text::strips(k, s.last()),
    ensures
        strip(s, k) == s,
{
    assert(crate::text::front_run(s, k) == 0);
    assert(s.skip(0) =~= s);
    assert(crate::text::back_run(s, k) == 0);
    assert(s.take(s.len() as int) =~= s);
}

pub(crate) proof fn lemma_clean_keeps(s: Seq<char>)
    requires
        s.len() > 0,
        !crate::text::is_ws(s[0]) && s[0] != '\'' && s[0] != '"',
        !crate::text::is_ws(s.last()) && s.last() != '\'' && s.last() != '"',
    ensures
        clean_color_text(s) == s,
{
    lemma_strip_keeps(s, Strip::Ws);
    lemma_strip_keeps(s, Strip::Ch('\''));
    lemma_strip_keeps(s, Strip::Ch('"'));
}

proof fn lemma_hex_digit_back(n: int)
    requires
        0 <= n < 16,
    ensures
        is_hex_digit(hex_char(n)),
        hex_value(hex_char(n)) == n,
{
}

proof fn lemma_hex2_back(v: u8)
    ensures
        hex_pair(hex2(v)[0], hex2(v)[1]) == Some(v),
{
    lemma_hex_digit_back((v / 16) as int);
    lemma_hex_digit_back((v % 16) as int);
    assert((v / 16) * 16 + v % 16 == v);
}

/// Writing a colour into a config and reading it back gives the same
/// colour: every colour's INI spelling parses to itself.
pub proof fn lemma_color_ini_round_trip(c: TerminalColor)
    ensures
        parse_color(c.ini_name()) == c,
{
    reveal_strlit("default");
    reveal_strlit("black");
    reveal_strlit("red");
    reveal_strlit("green");
    reveal_strlit("yellow");
    reveal_strlit("blue");
    reveal_strlit("magenta");
    reveal_strlit("cyan");
    reveal_strlit("white");
    let n = c.ini_name();
    match c {
        TerminalColor::Rgb(r, g, b) => {
            lemma_hex_digit_back((b % 16) as int);
            lemma_clean_keeps(n);
            assert(n.drop_first() =~= hex2(r) + hex2(g) + hex2(b));
            lemma_hex2_back(r);
            lemma_hex2_back(g);
            lemma_hex2_back(b);
            assert(hex_rgb(n.drop_first()) == Some(TerminalColor::Rgb(r, g, b)));
        },
        _ => {
            lemma_clean_keeps(n);
            assert(lower(n) =~= n);
        },
    }
}

fn hex_char_exec(n: u8) -> (c: char)
    requires
        n < 16,
    ensures
        c == hex_char(n as int),
{
    if n < 10 {
        (48u8 + n) as char
    } else {
        (87u8 + n) as char
    }
}

fn hex_digit_value(c: char) -> (r: Option<u8>)
    ensures
        r matches Some(v) ==> is_hex_digit(c) && v == hex_value(c),
        r is None ==> !is_hex_digit(c),
{
    if '0' <= c && c <= '9' {
        Some((c as u8) - 48)
    } else if 'a' <= c && c <= 'f' {
        Some((c as u8) - 87)
    } else if 'A' <= c && c <= 'F' {
        Some((c as u8) - 55)
    } else {
        None
    }
}

fn hex_pair_exec(a: char, b: char) -> (r: Option<u8>)
    ensures
        r == hex_pair(a, b),
{
    match (hex_digit_value(a), hex_digit_value(b)) {
        (Some(x), Some(y)) => Some(x * 16 + y),
        (None, Some(y)) => {
            if a == '+' {
                Some(y)
            } else {
                None
            }
        },
        _ => None,
    }
}

impl TerminalColor {
    /// The INI spelling: lower-case names, `#rrggbb` for RGB.
    pub open spec fn ini_name(self) -> Seq<char> {
        match self {
            TerminalColor::Default => "default"@,
            TerminalColor::Black => "black"@,
            TerminalColor::Red => "red"@,
            TerminalColor::Green => "green"@,
            TerminalColor::Yellow => "yellow"@,
            TerminalColor::Blue => "blue"@,
            TerminalColor::Magenta => "magenta"@,
            TerminalColor::Cyan => "cyan"@,
            TerminalColor::White => "white"@,
            TerminalColor::Rgb(r, g, b) => seq!['#'] + hex2(r) + hex2(g) + hex2(b),
        }
    }

    /// The sRGB triple a colour stands for (`None` for the default colour).
    pub open spec fn rgb(self) -> Option<RgbColor> {
        match self {
            TerminalColor::Rgb(r, g, b) => Some(RgbColor { r, g, b }),
            TerminalColor::Black => Some(RgbColor { r: 0, g: 0, b: 0 }),
            TerminalColor::Red => Some(RgbColor { r: 255, g: 0, b: 0 }),
            TerminalColor::Green => Some(RgbColor { r: 0, g: 255, b: 0 }),
            TerminalColor::Yellow => Some(RgbColor { r: 255, g: 255, b: 0 }),
            TerminalColor::Blue => Some(RgbColor { r: 0, g: 0, b: 255 }),
            TerminalColor::Magenta => Some(RgbColor { r: 255, g: 0, b: 255 }),
            TerminalColor::Cyan => Some(RgbColor { r: 0, g: 255, b: 255 }),
            TerminalColor::White => Some(RgbColor { r: 255, g: 255, b: 255 }),
            TerminalColor::Default => None,
        }
    }

    /// Reads a colour value: `#rrggbb` or one of the eight names, in any
    /// letter case, with surrounding whitespace and quotes ignored; anything
    /// else is the terminal default.
    pub fn parse(s: &str) -> (r: Self)
        ensures
            r == parse_color(s@),
    {
        let raw = chars_of(s);
        let t1 = strip_chars(&raw, &Strip::Ws);
        let t2 = strip_chars(&t1, &Strip::Ch('\''));
        let t3 = strip_chars(&t2, &Strip::Ch('"'));
        let clean = strip_chars(&t3, &Strip::Ws);
        if clean.len() == 7 && clean[0] == '#' {
            let r = hex_pair_exec(clean[1], clean[2]);
            let g = hex_pair_exec(clean[3], clean[4]);
            let b = hex_pair_exec(clean[5], clean[6]);
            if let (Some(r), Some(g), Some(b)) = (r, g, b) {
                proof {
                    let h = clean@.drop_first();
                    assert(h[0] == clean@[1] && h[1] == clean@[2] && h[2] == clean@[3]);
                    assert(h[3] == clean@[4] && h[4] == clean@[5] && h[5] == clean@[6]);
                }
                return TerminalColor::Rgb(r, g, b);
            }
        }
        proof {
            let h = clean@.drop_first();
            if clean@.len() > 0 && clean@[0] == '#' && h.len() == 6 {
                assert(h[0] == clean@[1] && h[1] == clean@[2] && h[2] == clean@[3]);
                assert(h[3] == clean@[4] && h[4] == clean@[5] && h[5] == clean@[6]);
            }
        }
        let low = lower_chars(&clean);
        if chars_eq(&low, &chars_of("black")) {
            TerminalColor::Black
        } else if chars_eq(&low, &chars_of("red")) {
            TerminalColor::Red
        } else if chars_eq(&low, &chars_of("green")) {
            TerminalColor::Green
        } else if chars_eq(&low, &chars_of("yellow")) {
            TerminalColor::Yellow
        } else if chars_eq(&low, &chars_of("blue")) {
            TerminalColor::Blue
        } else if chars_eq(&low, &chars_of("magenta")) {
            TerminalColor::Magenta
        } else if chars_eq(&low, &chars_of("cyan")) {
            TerminalColor::Cyan
        } else if chars_eq(&low, &chars_of("white")) {
            TerminalColor::White
        } else {
            TerminalColor::Default
        }
    }

    /// INI representation: named colours as lower-case names, RGB as
    /// `#rrggbb`.
    pub fn to_ini(&self) -> (r: String)
        ensures
            r@ == self.ini_name(),
    {
        match self {
            TerminalColor::Default => "default".to_string(),
            TerminalColor::Black => "black".to_string(),
            TerminalColor::Red => "red".to_string(),
            TerminalColor::Green => "green".to_string(),
            TerminalColor::Yellow => "yellow".to_string(),
            TerminalColor::Blue => "blue".to_string(),
            TerminalColor::Magenta => "magenta".to_string(),
            TerminalColor::Cyan => "cyan".to_string(),
            TerminalColor::White => "white".to_string(),
            TerminalColor::Rgb(r, g, b) => {
                let mut v: Vec<char> = Vec::new();
                v.push('#');
                v.push(hex_char_exec(*r / 16));
                v.push(hex_char_exec(*r % 16));
                v.push(hex_char_exec(*g / 16));
                v.push(hex_char_exec(*g % 16));
                v.push(hex_char_exec(*b / 16));
                v.push(hex_char_exec(*b % 16));
                proof {
                    assert(v@ =~= self.ini_name());
                }
                string_of(&v)
            },
        }
    }

    pub fn to_rgb(&self) -> (r: Option<RgbColor>)
        ensures
            r == self.rgb(),
    {
        match self {
            TerminalColor::Rgb(r, g, b) => Some(RgbColor { r: *r, g: *g, b: *b }),
            TerminalColor::Black => Some(RgbColor { r: 0, g: 0, b: 0 }),
            TerminalColor::Red => Some(RgbColor { r: 255, g: 0, b: 0 }),
            TerminalColor::Green => Some(RgbColor { r: 0, g: 255, b: 0 }),
            TerminalColor::Yellow => Some(RgbColor { r: 255, g: 255, b: 0 }),
            TerminalColor::Blue => Some(RgbColor { r: 0, g: 0, b: 255 }),
            TerminalColor::Magenta => Some(RgbColor { r: 255, g: 0, b: 255 }),
            TerminalColor::Cyan => Some(RgbColor { r: 0, g: 255, b: 255 }),
            TerminalColor::White => Some(RgbColor { r: 255, g: 255, b: 255 }),
            TerminalColor::Default => None,
        }
    }
}

/// A boolean setting (`1` or `true`, in any case, means on).
#[derive(Debug, Clone, Copy, PartialEq, Eq, Structural)]
pub enum FlagKey {
    CenterAlign,
    WrapBars,
    LiveConfig,
    Reverse,
    SplitStereo,
    ShowIdleBarHeads,
    Waveform,
    WaveformBaseline,
    WaveformDynamics,
    WaveformGraticule,
    BarReflection,
    StereoDivider,
    BaselineRuler,
    BarCap,
    BrightPeaks,
    BeatPulse,
    AsciiGlyphs,
    ReduceMotion,
    DrawPeaks,
    Gradient,
    HorizontalGradient,
    Spectrum,
    BackgroundGradient,
    Waves,
}

/// An unsigned integer setting.
#[derive(Debug, Clone, Copy, PartialEq, Eq, Structural)]
pub enum CountKey {
    Framerate,
    Autosens,
    Bars,
    BarWidth,
    BarSpacing,
    LowerCutoffFreq,
    HigherCutoffFreq,
    SleepTimer,
    SampleRate,
    SampleBits,
    InputChannels,
    AsciiMaxRange,
    BarDelimiter,
    FrameDelimiter,
}

/// A setting whose value is kept as text: free-form strings and the
/// numbers that the application reads as decimals.
#[derive(Debug, Clone, Copy, PartialEq, Eq, Structural)]
pub enum TextKey {
    Sensitivity,
    MaxHeight,
    Source,
    RawTarget,
    PeakDecay,
    Theme,
    Monstercat,
    NoiseReduction,
    Gravity,
}

/// One setting read from a config file.
#[derive(Debug, Clone, Copy, PartialEq, Eq, Structural)]
pub enum IniSetting {
    Flag(FlagKey, bool),
    /// An integer already clamped to the range the setting allows.
    Count(CountKey, u64),
    /// The value is the entry's text.
    Text(TextKey),
    Scaling(ScalingMode),
    Input(InputMethod),
    Output(OutputMethod),
    Orient(Orientation),
    Mono(MonoOption),
    Data(DataFormat),
    Bits(BitFormat),
    Axis(XAxis),
    Style(WaveformStyle),
    Blend(BlendDirection),
    /// Output channel count: 1 (mono) or 2.
    OutputChannels(u32),
    Background(TerminalColor),
    Foreground(TerminalColor),
    /// `gradient_color_N`.
    GradientColor(usize, TerminalColor),
    /// `horizontal_gradient_color_N`.
    HorizontalGradientColor(usize, TerminalColor),
    /// `[eq]` control point `N`; the gain is the entry's text.
    EqPoint(usize),
}

/// One setting of a config file, with the cleaned value text it was read from.
#[derive(Debug, Clone)]
pub struct IniEntry {
    pub setting: IniSetting,
    pub text: String,
}

/// `1` or `true` (any case).
pub open spec fn ini_flag(val: Seq<char>) -> bool {
    val == "1"@ || eq_ignore_ascii_case(val, "true"@)
}

/// Largest value of each integer setting's type.
pub open spec fn count_max(k: CountKey) -> nat {
    match k {
        CountKey::Framerate => u32::MAX as nat,
        CountKey::Autosens => u32::MAX as nat,
        CountKey::Bars => usize::MAX as nat,
        CountKey::BarWidth => usize::MAX as nat,
        CountKey::BarSpacing => usize::MAX as nat,
        CountKey::LowerCutoffFreq => u32::MAX as nat,
        CountKey::HigherCutoffFreq => u32::MAX as nat,
        CountKey::SleepTimer => u32::MAX as nat,
        CountKey::SampleRate => u32::MAX as nat,
        CountKey::SampleBits => u32::MAX as nat,
        CountKey::InputChannels => u32::MAX as nat,
        CountKey::AsciiMaxRange => u32::MAX as nat,
        CountKey::BarDelimiter => u8::MAX as nat,
        CountKey::FrameDelimiter => u8::MAX as nat,
    }
}

/// The stored value of an integer setting read as `v`.
pub open spec fn count_clamp(k: CountKey, v: nat) -> nat {
    match k {
        CountKey::Framerate => if v < 1 { 1 } else if v > 500 { 500 } else { v },
        CountKey::BarWidth => if v < 1 { 1 } else { v },
        CountKey::InputChannels => if v < 1 { 1 } else if v > 2 { 2 } else { v },
        _ => v,
    }
}

pub open spec fn count_setting(k: CountKey, val: Seq<char>) -> Option<IniSetting> {
    match parse_uint(val, count_max(k)) {
        Some(v) => Some(IniSetting::Count(k, count_clamp(k, v) as u64)),
        None => None,
    }
}

/// The setting that `key = val` means in section `section` (names already
/// lower-cased), if any.
pub open spec fn ini_setting(section: Seq<char>, key: Seq<char>, val: Seq<char>) -> Option<IniSetting> {
    if section == "general"@ {
        if key == "scaling"@ {
            Some(IniSetting::Scaling(if eq_ignore_ascii_case(val, "decibel"@) { ScalingMode::Decibel } else { ScalingMode::Linear }))
        } else if key == "live-config"@ || key == "live_config"@ {
            Some(IniSetting::Flag(FlagKey::LiveConfig, ini_flag(val)))
        } else if key == "center_align"@ {
            Some(IniSetting::Flag(FlagKey::CenterAlign, ini_flag(val)))
        } else if key == "wrap_bars"@ {
            Some(IniSetting::Flag(FlagKey::WrapBars, ini_flag(val)))
        } else if key == "framerate"@ {
            count_setting(CountKey::Framerate, val)
        } else if key == "autosens"@ {
            count_setting(CountKey::Autosens, val)
        } else if key == "bars"@ {
            count_setting(CountKey::Bars, val)
        } else if key == "bar_width"@ {
            count_setting(CountKey::BarWidth, val)
        } else if key == "bar_spacing"@ {
            count_setting(CountKey::BarSpacing, val)
        } else if key == "lower_cutoff_freq"@ {
            count_setting(CountKey::LowerCutoffFreq, val)
        } else if key == "higher_cutoff_freq"@ {
            count_setting(CountKey::HigherCutoffFreq, val)
        } else if key == "sleep_timer"@ {
            count_setting(CountKey::SleepTimer, val)
        } else if key == "sensitivity"@ {
            Some(IniSetting::Text(TextKey::Sensitivity))
        } else if key == "max_height"@ {
            Some(IniSetting::Text(TextKey::MaxHeight))
        } else {
            None
        }
    } else if section == "input"@ {
        if key == "method"@ {
            let m = lower(val);
            if m == "pipewire"@ {
                Some(IniSetting::Input(InputMethod::Pipewire))
            } else if m == "pulse"@ {
                Some(IniSetting::Input(InputMethod::Pulse))
            } else if m == "alsa"@ {
                Some(IniSetting::Input(InputMethod::Alsa))
            } else if m == "fifo"@ {
                Some(IniSetting::Input(InputMethod::Fifo))
            } else if m == "cpal"@ || m == "portaudio"@ || m == "coreaudio"@ {
                Some(IniSetting::Input(InputMethod::Cpal))
            } else if m == "test"@ {
                Some(IniSetting::Input(InputMethod::Test))
            } else {
                None
            }
        } else if key == "sample_rate"@ {
            count_setting(CountKey::SampleRate, val)
        } else if key == "sample_bits"@ {
            count_setting(CountKey::SampleBits, val)
        } else if key == "channels"@ {
            count_setting(CountKey::InputChannels, val)
        } else if key == "source"@ {
            Some(IniSetting::Text(TextKey::Source))
        } else {
            None
        }
    } else if section == "output"@ {
        if key == "method"@ {
            let m = lower(val);
            if m == "noncurses"@ {
                Some(IniSetting::Output(OutputMethod::Noncurses))
            } else if m == "ncurses"@ {
                Some(IniSetting::Output(OutputMethod::Ncurses))
            } else if m == "raw"@ {
                Some(IniSetting::Output(OutputMethod::Raw))
            } else {
                None
            }
        } else if key == "orientation"@ {
            let m = lower(val);
            if m == "bottom"@ || m == "vertical"@ {
                Some(IniSetting::Orient(Orientation::Bottom))
            } else if m == "top"@ {
                Some(IniSetting::Orient(Orientation::Top))
            } else if m == "left"@ {
                Some(IniSetting::Orient(Orientation::Left))
            } else if m == "right"@ {
                Some(IniSetting::Orient(Orientation::Right))
            } else if m == "horizontal"@ {
                Some(IniSetting::Orient(Orientation::Horizontal))
            } else {
                None
            }
        } else if key == "channels"@ {
            Some(IniSetting::OutputChannels(if eq_ignore_ascii_case(val, "mono"@) || val == "1"@ { 1 } else { 2 }))
        } else if key == "mono_option"@ {
            let m = lower(val);
            Some(IniSetting::Mono(if m == "left"@ { MonoOption::Left } else if m == "right"@ { MonoOption::Right } else { MonoOption::Average }))
        } else if key == "data_format"@ {
            Some(IniSetting::Data(if eq_ignore_ascii_case(val, "ascii"@) { DataFormat::Ascii } else { DataFormat::Binary }))
        } else if key == "bit_format"@ {
            Some(IniSetting::Bits(if eq_ignore_ascii_case(val, "8bit"@) { BitFormat::Bits8 } else { BitFormat::Bits16 }))
        } else if key == "xaxis"@ {
            Some(IniSetting::Axis(if eq_ignore_ascii_case(val, "frequency"@) || eq_ignore_ascii_case(val, "scale"@) {
                XAxis::Frequency
            } else {
                XAxis::Off
            }))
        } else if key == "waveform_style"@ {
            Some(IniSetting::Style(if eq_ignore_ascii_case(val, "area"@) { WaveformStyle::Area } else { WaveformStyle::Line }))
        } else if key == "reverse"@ {
            Some(IniSetting::Flag(FlagKey::Reverse, ini_flag(val)))
        } else if key == "split_stereo"@ {
            Some(IniSetting::Flag(FlagKey::SplitStereo, ini_flag(val)))
        } else if key == "show_idle_bar_heads"@ {
            Some(IniSetting::Flag(FlagKey::ShowIdleBarHeads, ini_flag(val)))
        } else if key == "waveform"@ {
            Some(IniSetting::Flag(FlagKey::Waveform, ini_flag(val)))
        } else if key == "waveform_baseline"@ {
            Some(IniSetting::Flag(FlagKey::WaveformBaseline, ini_flag(val)))
        } else if key == "waveform_dynamics"@ {
            Some(IniSetting::Flag(FlagKey::WaveformDynamics, ini_flag(val)))
        } else if key == "waveform_graticule"@ {
            Some(IniSetting::Flag(FlagKey::WaveformGraticule, ini_flag(val)))
        } else if key == "bar_reflection"@ {
            Some(IniSetting::Flag(FlagKey::BarReflection, ini_flag(val)))
        } else if key == "stereo_divider"@ {
            Some(IniSetting::Flag(FlagKey::StereoDivider, ini_flag(val)))
        } else if key == "baseline_ruler"@ {
            Some(IniSetting::Flag(FlagKey::BaselineRuler, ini_flag(val)))
        } else if key == "bar_cap"@ {
            Some(IniSetting::Flag(FlagKey::BarCap, ini_flag(val)))
        } else if key == "bright_peaks"@ {
            Some(IniSetting::Flag(FlagKey::BrightPeaks, ini_flag(val)))
        } else if key == "beat_pulse"@ {
            Some(IniSetting::Flag(FlagKey::BeatPulse, ini_flag(val)))
        } else if key == "ascii_glyphs"@ {
            Some(IniSetting::Flag(FlagKey::AsciiGlyphs, ini_flag(val)))
        } else if key == "reduce_motion"@ {
            Some(IniSetting::Flag(FlagKey::ReduceMotion, ini_flag(val)))
        } else if key == "draw_peaks"@ {
            Some(IniSetting::Flag(FlagKey::DrawPeaks, ini_flag(val)))
        } else if key == "ascii_max_range"@ {
            count_setting(CountKey::AsciiMaxRange, val)
        } else if key == "bar_delimiter"@ {
            count_setting(CountKey::BarDelimiter, val)
        } else if key == "frame_delimiter"@ {
            count_setting(CountKey::FrameDelimiter, val)
        } else if key == "raw_target"@ {
            Some(IniSetting::Text(TextKey::RawTarget))
        } else if key == "peak_decay"@ {
            Some(IniSetting::Text(TextKey::PeakDecay))
        } else {
            None
        }
    } else if section == "color"@ {
        if key == "background"@ {
            Some(IniSetting::Background(parse_color(val)))
        } else if key == "foreground"@ {
            Some(IniSetting::Foreground(parse_color(val)))
        } else if key == "gradient"@ {
            Some(IniSetting::Flag(FlagKey::Gradient, ini_flag(val)))
        } else if key == "gradient_count"@ {
            None
        } else if key.len() >= 15 && key.take(15) == "gradient_color_"@ {
            match parse_uint(key.skip(15), usize::MAX as nat) {
                Some(i) => Some(IniSetting::GradientColor(i as usize, parse_color(val))),
                None => None,
            }
        } else if key == "horizontal_gradient"@ {
            Some(IniSetting::Flag(FlagKey::HorizontalGradient, ini_flag(val)))
        } else if key == "horizontal_gradient_count"@ {
            None
        } else if key.len() >= 26 && key.take(26) == "horizontal_gradient_color_"@ {
            match parse_uint(key.skip(26), usize::MAX as nat) {
                Some(i) => Some(IniSetting::HorizontalGradientColor(i as usize, parse_color(val))),
                None => None,
            }
        } else if key == "blend_direction"@ {
            let m = lower(val);
            Some(IniSetting::Blend(if m == "down"@ { BlendDirection::Down } else if m == "left"@ { BlendDirection::Left } else if m == "right"@ { BlendDirection::Right } else { BlendDirection::Up }))
        } else if key == "spectrum"@ {
            Some(IniSetting::Flag(FlagKey::Spectrum, ini_flag(val)))
        } else if key == "background_gradient"@ {
            Some(IniSetting::Flag(FlagKey::BackgroundGradient, ini_flag(val)))
        } else if key == "theme"@ {
            Some(IniSetting::Text(TextKey::Theme))
        } else {
            None
        }
    } else if section == "smoothing"@ {
        if key == "waves"@ {
            Some(IniSetting::Flag(FlagKey::Waves, ini_flag(val)))
        } else if key == "monstercat"@ {
            Some(IniSetting::Text(TextKey::Monstercat))
        } else if key == "noise_reduction"@ {
            Some(IniSetting::Text(TextKey::NoiseReduction))
        } else if key == "gravity"@ {
            Some(IniSetting::Text(TextKey::Gravity))
        } else {
            None
        }
    } else if section == "eq"@ {
        match parse_uint(key, usize::MAX as nat) {
            Some(i) => Some(IniSetting::EqPoint(i as usize)),
            None => None,
        }
    } else {
        None
    }
}

/// Whether `v` holds exactly the characters of `lit`.
fn is(v: &Vec<char>, lit: &str) -> (r: bool)
    ensures
        r == (v@ == lit@),
{
    chars_eq(v, &chars_of(lit))
}

fn flag_exec(val: &Vec<char>) -> (r: bool)
    ensures
        r == ini_flag(val@),
{
    is(val, "1") || chars_eq_ignore_ascii_case(val, &chars_of("true"))
}

fn eq_nocase(val: &Vec<char>, lit: &str) -> (r: bool)
    ensures
        r == eq_ignore_ascii_case(val@, lit@),
{
    chars_eq_ignore_ascii_case(val, &chars_of(lit))
}

fn count_exec(k: CountKey, val: &Vec<char>) -> (r: Option<IniSetting>)
    ensures
        r == count_setting(k, val@),
{
    let max: u64 = match k {
        CountKey::Framerate => u32::MAX as u64,
        CountKey::Autosens => u32::MAX as u64,
        CountKey::Bars => usize::MAX as u64,
        CountKey::BarWidth => usize::MAX as u64,
        CountKey::BarSpacing => usize::MAX as u64,
        CountKey::LowerCutoffFreq => u32::MAX as u64,
        CountKey::HigherCutoffFreq => u32::MAX as u64,
        CountKey::SleepTimer => u32::MAX as u64,
        CountKey::SampleRate => u32::MAX as u64,
        CountKey::SampleBits => u32::MAX as u64,
        CountKey::InputChannels => u32::MAX as u64,
        CountKey::AsciiMaxRange => u32::MAX as u64,
        CountKey::BarDelimiter => u8::MAX as u64,
        CountKey::FrameDelimiter => u8::MAX as u64,
    };
    match parse_uint_chars(val, max) {
        Some(v) => {
            let c = match k {
                CountKey::Framerate => if v < 1 { 1 } else if v > 500 { 500 } else { v },
                CountKey::BarWidth => if v < 1 { 1 } else { v },
                CountKey::InputChannels => if v < 1 { 1 } else if v > 2 { 2 } else { v },
                _ => v,
            };
            Some(IniSetting::Count(k, c))
        },
        None => None,
    }
}

/// See [`ini_setting`].
pub fn setting_for(section: &Vec<char>, key: &Vec<char>, val: &Vec<char>) -> (r: Option<IniSetting>)
    ensures
        r == ini_setting(section@, key@, val@),
{
    if is(section, "general") {
        if is(key, "scaling") {
            Some(IniSetting::Scaling(if eq_nocase(val, "decibel") { ScalingMode::Decibel } else { ScalingMode::Linear }))
        } else if is(key, "live-config") || is(key, "live_config") {
            Some(IniSetting::Flag(FlagKey::LiveConfig, flag_exec(val)))
        } else if is(key, "center_align") {
            Some(IniSetting::Flag(FlagKey::CenterAlign, flag_exec(val)))
        } else if is(key, "wrap_bars") {
            Some(IniSetting::Flag(FlagKey::WrapBars, flag_exec(val)))
        } else if is(key, "framerate") {
            count_exec(CountKey::Framerate, val)
        } else if is(key, "autosens") {
            count_exec(CountKey::Autosens, val)
        } else if is(key, "bars") {
            count_exec(CountKey::Bars, val)
        } else if is(key, "bar_width") {
            count_exec(CountKey::BarWidth, val)
        } else if is(key, "bar_spacing") {
            count_exec(CountKey::BarSpacing, val)
        } else if is(key, "lower_cutoff_freq") {
            count_exec(CountKey::LowerCutoffFreq, val)
        } else if is(key, "higher_cutoff_freq") {
            count_exec(CountKey::HigherCutoffFreq, val)
        } else if is(key, "sleep_timer") {
            count_exec(CountKey::SleepTimer, val)
        } else if is(key, "sensitivity") {
            Some(IniSetting::Text(TextKey::Sensitivity))
        } else if is(key, "max_height") {
            Some(IniSetting::Text(TextKey::MaxHeight))
        } else {
            None
        }
    } else if is(section, "input") {
        if is(key, "method") {
            let m = lower_chars(val);
            if is(&m, "pipewire") {
                Some(IniSetting::Input(InputMethod::Pipewire))
            } else if is(&m, "pulse") {
                Some(IniSetting::Input(InputMethod::Pulse))
            } else if is(&m, "alsa") {
                Some(IniSetting::Input(InputMethod::Alsa))
            } else if is(&m, "fifo") {
                Some(IniSetting::Input(InputMethod::Fifo))
            } else if is(&m, "cpal") || is(&m, "portaudio") || is(&m, "coreaudio") {
                Some(IniSetting::Input(InputMethod::Cpal))
            } else if is(&m, "test") {
                Some(IniSetting::Input(InputMethod::Test))
            } else {
                None
            }
        } else if is(key, "sample_rate") {
            count_exec(CountKey::SampleRate, val)
        } else if is(key, "sample_bits") {
            count_exec(CountKey::SampleBits, val)
        } else if is(key, "channels") {
            count_exec(CountKey::InputChannels, val)
        } else if is(key, "source") {
            Some(IniSetting::Text(TextKey::Source))
        } else {
            None
        }
    } else if is(section, "output") {
        if is(key, "method") {
            let m = lower_chars(val);
            if is(&m, "noncurses") {
                Some(IniSetting::Output(OutputMethod::Noncurses))
            } else if is(&m, "ncurses") {
                Some(IniSetting::Output(OutputMethod::Ncurses))
            } else if is(&m, "raw") {
                Some(IniSetting::Output(OutputMethod::Raw))
            } else {
                None
            }
        } else if is(key, "orientation") {
            let m = lower_chars(val);
            if is(&m, "bottom") || is(&m, "vertical") {
                Some(IniSetting::Orient(Orientation::Bottom))
            } else if is(&m, "top") {
                Some(IniSetting::Orient(Orientation::Top))
            } else if is(&m, "left") {
                Some(IniSetting::Orient(Orientation::Left))
            } else if is(&m, "right") {
                Some(IniSetting::Orient(Orientation::Right))
            } else if is(&m, "horizontal") {
                Some(IniSetting::Orient(Orientation::Horizontal))
            } else {
                None
            }
        } else if is(key, "channels") {
            Some(IniSetting::OutputChannels(if eq_nocase(val, "mono") || is(val, "1") { 1 } else { 2 }))
        } else if is(key, "mono_option") {
            let m = lower_chars(val);
            Some(IniSetting::Mono(if is(&m, "left") { MonoOption::Left } else if is(&m, "right") { MonoOption::Right } else { MonoOption::Average }))
        } else if is(key, "data_format") {
            Some(IniSetting::Data(if eq_nocase(val, "ascii") { DataFormat::Ascii } else { DataFormat::Binary }))
        } else if is(key, "bit_format") {
            Some(IniSetting::Bits(if eq_nocase(val, "8bit") { BitFormat::Bits8 } else { BitFormat::Bits16 }))
        } else if is(key, "xaxis") {
            Some(IniSetting::Axis(if eq_nocase(val, "frequency") || eq_nocase(val, "scale") {
                XAxis::Frequency
            } else {
                XAxis::Off
            }))
        } else if is(key, "waveform_style") {
            Some(IniSetting::Style(if eq_nocase(val, "area") { WaveformStyle::Area } else { WaveformStyle::Line }))
        } else if is(key, "reverse") {
            Some(IniSetting::Flag(FlagKey::Reverse, flag_exec(val)))
        } else if is(key, "split_stereo") {
            Some(IniSetting::Flag(FlagKey::SplitStereo, flag_exec(val)))
        } else if is(key, "show_idle_bar_heads") {
            Some(IniSetting::Flag(FlagKey::ShowIdleBarHeads, flag_exec(val)))
        } else if is(key, "waveform") {
            Some(IniSetting::Flag(FlagKey::Waveform, flag_exec(val)))
        } else if is(key, "waveform_baseline") {
            Some(IniSetting::Flag(FlagKey::WaveformBaseline, flag_exec(val)))
        } else if is(key, "waveform_dynamics") {
            Some(IniSetting::Flag(FlagKey::WaveformDynamics, flag_exec(val)))
        } else if is(key, "waveform_graticule") {
            Some(IniSetting::Flag(FlagKey::WaveformGraticule, flag_exec(val)))
        } else if is(key, "bar_reflection") {
            Some(IniSetting::Flag(FlagKey::BarReflection, flag_exec(val)))
        } else if is(key, "stereo_divider") {
            Some(IniSetting::Flag(FlagKey::StereoDivider, flag_exec(val)))
        } else if is(key, "baseline_ruler") {
            Some(IniSetting::Flag(FlagKey::BaselineRuler, flag_exec(val)))
        } else if is(key, "bar_cap") {
            Some(IniSetting::Flag(FlagKey::BarCap, flag_exec(val)))
        } else if is(key, "bright_peaks") {
            Some(IniSetting::Flag(FlagKey::BrightPeaks, flag_exec(val)))
        } else if is(key, "beat_pulse") {
            Some(IniSetting::Flag(FlagKey::BeatPulse, flag_exec(val)))
        } else if is(key, "ascii_glyphs") {
            Some(IniSetting::Flag(FlagKey::AsciiGlyphs, flag_exec(val)))
        } else if is(key, "reduce_motion") {
            Some(IniSetting::Flag(FlagKey::ReduceMotion, flag_exec(val)))
        } else if is(key, "draw_peaks") {
            Some(IniSetting::Flag(FlagKey::DrawPeaks, flag_exec(val)))
        } else if is(key, "ascii_max_range") {
            count_exec(CountKey::AsciiMaxRange, val)
        } else if is(key, "bar_delimiter") {
            count_exec(CountKey::BarDelimiter, val)
        } else if is(key, "frame_delimiter") {
            count_exec(CountKey::FrameDelimiter, val)
        } else if is(key, "raw_target") {
            Some(IniSetting::Text(TextKey::RawTarget))
        } else if is(key, "peak_decay") {
            Some(IniSetting::Text(TextKey::PeakDecay))
        } else {
            None
        }
    } else if is(section, "color") {
        if is(key, "background") {
            Some(IniSetting::Background(TerminalColor::parse(&string_of(val))))
        } else if is(key, "foreground") {
            Some(IniSetting::Foreground(TerminalColor::parse(&string_of(val))))
        } else if is(key, "gradient") {
            Some(IniSetting::Flag(FlagKey::Gradient, flag_exec(val)))
        } else if is(key, "gradient_count") {
            None
        } else if chars_starts_with(key, &chars_of("gradient_color_")) {
            proof {
                reveal_strlit("gradient_color_");
            }
            let rest = sub_chars(key, 15, key.len());
            match parse_uint_chars(&rest, usize::MAX as u64) {
                Some(i) => Some(IniSetting::GradientColor(i as usize, TerminalColor::parse(&string_of(val)))),
                None => None,
            }
        } else if is(key, "horizontal_gradient") {
            Some(IniSetting::Flag(FlagKey::HorizontalGradient, flag_exec(val)))
        } else if is(key, "horizontal_gradient_count") {
            None
        } else if chars_starts_with(key, &chars_of("horizontal_gradient_color_")) {
            proof {
                reveal_strlit("horizontal_gradient_color_");
            }
            let rest = sub_chars(key, 26, key.len());
            match parse_uint_chars(&rest, usize::MAX as u64) {
                Some(i) => Some(IniSetting::HorizontalGradientColor(i as usize, TerminalColor::parse(&string_of(val)))),
                None => None,
            }
        } else if is(key, "blend_direction") {
            let m = lower_chars(val);
            Some(IniSetting::Blend(if is(&m, "down") { BlendDirection::Down } else if is(&m, "left") { BlendDirection::Left } else if is(&m, "right") { BlendDirection::Right } else { BlendDirection::Up }))
        } else if is(key, "spectrum") {
            Some(IniSetting::Flag(FlagKey::Spectrum, flag_exec(val)))
        } else if is(key, "background_gradient") {
            Some(IniSetting::Flag(FlagKey::BackgroundGradient, flag_exec(val)))
        } else if is(key, "theme") {
            Some(IniSetting::Text(TextKey::Theme))
        } else {
            None
        }
    } else if is(section, "smoothing") {
        if is(key, "waves") {
            Some(IniSetting::Flag(FlagKey::Waves, flag_exec(val)))
        } else if is(key, "monstercat") {
            Some(IniSetting::Text(TextKey::Monstercat))
        } else if is(key, "noise_reduction") {
            Some(IniSetting::Text(TextKey::NoiseReduction))
        } else if is(key, "gravity") {
            Some(IniSetting::Text(TextKey::Gravity))
        } else {
            None
        }
    } else if is(section, "eq") {
        match parse_uint_chars(key, usize::MAX as u64) {
            Some(i) => Some(IniSetting::EqPoint(i as usize)),
            None => None,
        }
    } else {
        None
    }
}

/// Where an inline comment starts in a trimmed value: the first `#` or `;`
/// outside quotes that follows an ASCII whitespace character (scanning from
/// `i` with open quote `q`); the value's length if there is none.
pub open spec fn comment_cut(t: Seq<char>, i: int, q: Option<char>) -> int
    decreases t.len() - i,
{
    if i < 0 || i >= t.len() {
        t.len() as int
    } else {
        match q {
            Some(qc) => if t[i] == qc {
                comment_cut(t, i + 1, None)
            } else {
                comment_cut(t, i + 1, q)
            },
            None => if t[i] == '\'' || t[i] == '"' {
                comment_cut(t, i + 1, Some(t[i]))
            } else if (t[i] == '#' || t[i] == ';') && i > 0 && is_ascii_ws(t[i - 1]) {
                i
            } else {
                comment_cut(t, i + 1, None)
            },
        }
    }
}

/// The value text of `key = raw`: trimmed, inline comment removed, then
/// trimmed of whitespace and surrounding quotes.
pub open spec fn ini_value(raw: Seq<char>) -> Seq<char> {
    let t = trim(raw);
    clean_color_text(t.take(comment_cut(t, 0, None)))
}

proof fn lemma_comment_cut_bounds(t: Seq<char>, i: int, q: Option<char>)
    requires
        0 <= i,
    ensures
        comment_cut(t, i, q) <= t.len(),
        i <= t.len() ==> i <= comment_cut(t, i, q),
        comment_cut(t, i, q) >= 0,
    decreases t.len() - i,
{
    if i < t.len() {
        match q {
            Some(qc) => if t[i] == qc {
                lemma_comment_cut_bounds(t, i + 1, None);
            } else {
                lemma_comment_cut_bounds(t, i + 1, q);
            },
            None => if t[i] == '\'' || t[i] == '"' {
                lemma_comment_cut_bounds(t, i + 1, Some(t[i]));
            } else if (t[i] == '#' || t[i] == ';') && i > 0 && is_ascii_ws(t[i - 1]) {
            } else {
                lemma_comment_cut_bounds(t, i + 1, None);
            },
        }
    }
}

pub(crate) fn ascii_ws_exec(c: char) -> (r: bool)
    ensures
        r == is_ascii_ws(c),
{
    c == ' ' || c == '\t' || c == '\n' || c == '\u{c}' || c == '\r'
}

fn comment_cut_exec(t: &Vec<char>) -> (r: usize)
    ensures
        r == comment_cut(t@, 0, None),
{
    let mut q: Option<char> = None;
    let mut i: usize = 0;
    while i < t.len()
        invariant
            0 <= i <= t@.len(),
            comment_cut(t@, 0, None) == comment_cut(t@, i as int, q),
        decreases t@.len() - i,
    {
        let c = t[i];
        match q {
            Some(qc) => {
                if c == qc {
                    q = None;
                }
            },
            None => {
                if c == '\'' || c == '"' {
                    q = Some(c);
                } else if (c == '#' || c == ';') && i > 0 && ascii_ws_exec(t[i - 1]) {
                    return i;
                }
            },
        }
        i = i + 1;
    }
    t.len()
}

/// See [`ini_value`].
pub fn clean_value(raw: &[char]) -> (r: Vec<char>)
    ensures
        r@ == ini_value(raw@),
{
    let t = strip_chars(raw, &Strip::Ws);
    let cut = comment_cut_exec(&t);
    proof {
        lemma_comment_cut_bounds(t@, 0, None);
    }
    let body = sub_chars(&t, 0, cut);
    proof {
        assert(body@ == t@.take(cut as int));
    }
    let a = strip_chars(&body, &Strip::Ws);
    let b = strip_chars(&a, &Strip::Ch('\''));
    let c = strip_chars(&b, &Strip::Ch('"'));
    strip_chars(&c, &Strip::Ws)
}

/// A trimmed line that is a `[section]` header.
pub open spec fn is_header(t: Seq<char>) -> bool {
    t.len() > 0 && t[0] == '[' && t.last() == ']'
}

/// A trimmed line that holds no setting: blank or a comment.
pub open spec fn is_blank_or_comment(t: Seq<char>) -> bool {
    t.len() == 0 || t[0] == '#' || t[0] == ';'
}

/// Position of the first `=` in `t`, if any.
pub open spec fn first_eq(t: Seq<char>) -> Option<int> {
    if exists|i: int| 0 <= i < t.len() && t[i] == '=' {
        Some(choose|i: int| 0 <= i < t.len() && t[i] == '=' && forall|j: int| 0 <= j < i ==> t[j] != '=')
    } else {
        None
    }
}

/// Section name of a header line (lower-cased, trimmed).
pub open spec fn header_name(t: Seq<char>) -> Seq<char> {
    lower(trim(t.subrange(1, t.len() - 1)))
}

/// The section in effect after the first `n` lines.
pub open spec fn section_after(ls: Seq<Seq<char>>, n: int) -> Seq<char>
    decreases n,
{
    if n <= 0 {
        Seq::empty()
    } else {
        let t = trim(ls[n - 1]);
        if !is_blank_or_comment(t) && is_header(t) {
            header_name(t)
        } else {
            section_after(ls, n - 1)
        }
    }
}

/// The setting, with its value text, that line `t` (trimmed) holds in
/// section `section`.
pub open spec fn line_entry(section: Seq<char>, t: Seq<char>) -> Option<(IniSetting, Seq<char>)> {
    if is_blank_or_comment(t) || is_header(t) {
        None
    } else {
        match first_eq(t) {
            Some(e) => {
                let key = lower(trim(t.take(e)));
                let val = ini_value(t.skip(e + 1));
                match ini_setting(section, key, val) {
                    Some(st) => Some((st, val)),
                    None => None,
                }
            },
            None => None,
        }
    }
}

/// The settings of the first `n` lines, in order.
pub open spec fn entries_upto(ls: Seq<Seq<char>>, n: int) -> Seq<(IniSetting, Seq<char>)>
    decreases n,
{
    if n <= 0 {
        Seq::empty()
    } else {
        let prev = entries_upto(ls, n - 1);
        match line_entry(section_after(ls, n - 1), trim(ls[n - 1])) {
            Some(e) => prev.push(e),
            None => prev,
        }
    }
}

/// Every setting of an INI text, in file order, each with its value text.
pub open spec fn ini_entries(content: Seq<char>) -> Seq<(IniSetting, Seq<char>)> {
    entries_upto(lines(content), lines(content).len() as int)
}

pub(crate) fn find_eq(t: &Vec<char>) -> (r: Option<usize>)
    ensures
        r matches Some(e) ==> first_eq(t@) == Some(e as int) && e < t@.len(),
        r is None ==> first_eq(t@) is None,
{
    let mut i: usize = 0;
    while i < t.len()
        invariant
            0 <= i <= t@.len(),
            forall|j: int| 0 <= j < i ==> t@[j] != '=',
        decreases t@.len() - i,
    {
        if t[i] == '=' {
            proof {
                let w = choose|k: int| 0 <= k < t@.len() && t@[k] == '=' && forall|j: int| 0 <= j < k ==> t@[j] != '=';
                assert(0 <= i < t@.len() && t@[i as int] == '=' && forall|j: int| 0 <= j < i ==> t@[j] != '=');
                assert(w == i) by {
                    if w < i {
                    } else if w > i {
                    }
                }
            }
            return Some(i);
        }
        i = i + 1;
    }
    None
}

/// The setting held by trimmed line `t` in section `section`, with its
/// value text (see [`line_entry`]).
fn entry_of_line(section: &Vec<char>, t: &Vec<char>) -> (r: Option<IniEntry>)
    ensures
        r is Some <==> line_entry(section@, t@) is Some,
        r matches Some(e) ==> e.setting == (line_entry(section@, t@)->0).0 && e.text@ == (
        line_entry(section@, t@)->0).1,
        r matches Some(e) ==> valid_entry(e.setting),
{
    let blank = t.len() == 0 || t[0] == '#' || t[0] == ';';
    if blank || (t[0] == '[' && t[t.len() - 1] == ']') {
        return None;
    }
    match find_eq(t) {
        Some(e) => {
            let raw_key = sub_chars(t, 0, e);
            let k1 = strip_chars(&raw_key, &Strip::Ws);
            let key = lower_chars(&k1);
            let raw_val = sub_chars(t, e + 1, t.len());
            let val = clean_value(&raw_val);
            proof {
                lemma_ini_setting_valid(section@, key@, val@);
            }
            match setting_for(section, &key, &val) {
                Some(st) => {
                    let text = string_of(&val);
                    Some(IniEntry { setting: st, text })
                },
                None => None,
            }
        },
        None => None,
    }
}

/// The section named by trimmed line `t` if it is a header.
pub(crate) fn header_of_line(t: &Vec<char>) -> (r: Option<Vec<char>>)
    ensures
        r is Some <==> (!is_blank_or_comment(t@) && is_header(t@)),
        r matches Some(n) ==> n@ == header_name(t@),
{
    let blank = t.len() == 0 || t[0] == '#' || t[0] == ';';
    if !blank && t[0] == '[' && t[t.len() - 1] == ']' {
        let inner = sub_chars(t, 1, t.len() - 1);
        let name = strip_chars(&inner, &Strip::Ws);
        Some(lower_chars(&name))
    } else {
        None
    }
}

/// Reads every setting of an INI text in file order: `[section]` headers
/// (any case), `key = value` lines with inline `#`/`;` comments and
/// quotes removed from the value; blank lines, comments, unknown keys and
/// unreadable values are skipped.
pub fn parse_ini_entries(content: &str) -> (r: Vec<IniEntry>)
    ensures
        r@.len() == ini_entries(content@).len(),
        forall|i: int| 0 <= i < r@.len() ==> (#[trigger] r@[i]).setting == ini_entries(content@)[i].0
            && r@[i].text@ == ini_entries(content@)[i].1,
        forall|i: int| 0 <= i < r@.len() ==> valid_entry(#[trigger] r@[i].setting),
{
    let chars = chars_of(content);
    let ls = split_lines(&chars);
    let ghost gl = lines(content@);
    let mut section: Vec<char> = Vec::new();
    let mut out: Vec<IniEntry> = Vec::new();
    let mut n: usize = 0;
    while n < ls.len()
        invariant
            0 <= n <= ls@.len() == gl.len(),
            gl == lines(content@),
            forall|i: int| 0 <= i < ls@.len() ==> #[trigger] ls@[i]@ == gl[i],
            section@ == section_after(gl, n as int),
            out@.len() == entries_upto(gl, n as int).len(),
            forall|i: int| 0 <= i < out@.len() ==> (#[trigger] out@[i]).setting == entries_upto(gl, n as int)[i].0
                && out@[i].text@ == entries_upto(gl, n as int)[i].1,
            forall|i: int| 0 <= i < out@.len() ==> valid_entry(#[trigger] out@[i].setting),
        decreases ls@.len() - n,
    {
        let t = strip_chars(&ls[n], &Strip::Ws);
        let ghost prev = entries_upto(gl, n as int);
        proof {
            assert(t@ == trim(gl[n as int]));
        }
        let e = entry_of_line(&section, &t);
        match e {
            Some(entry) => {
                out.push(entry);
            },
            None => {},
        }
        proof {
            assert(entries_upto(gl, n + 1) == match line_entry(section_after(gl, n as int), t@) {
                Some(x) => prev.push(x),
                None => prev,
            });
        }
        match header_of_line(&t) {
            Some(name) => {
                section = name;
            },
            None => {},
        }
        n = n + 1;
    }
    out
}

#[derive(Debug, Clone)]
pub struct InputConfig {
    pub method: InputMethod,
    pub source: String,
    pub sample_rate: u32,
    pub sample_bits: u32,
    pub channels: u32,
}

#[derive(Debug, Clone)]
pub struct ColorConfig {
    pub background: TerminalColor,
    pub foreground: TerminalColor,
    pub gradient: bool,
    pub gradient_colors: Vec<TerminalColor>,
    pub horizontal_gradient: bool,
    pub horizontal_gradient_colors: Vec<TerminalColor>,
    pub blend_direction: BlendDirection,
    /// Hue sweeps across the bar axis (low = warm, high = cool), overriding
    /// the palette gradients.
    pub spectrum: bool,
    /// A dim vertical ramp behind the bars instead of a flat background.
    pub background_gradient: bool,
    pub theme: String,
}

impl Default for InputConfig {
    /// PipeWire from the `auto` source, 44.1 kHz, 16-bit, stereo.
    fn default() -> (r: Self)
        ensures
            r.method == InputMethod::Pipewire,
            r.source@ == "auto"@,
            r.sample_rate == 44100,
            r.sample_bits == 16,
            r.channels == 2,
    {
        InputConfig {
            method: InputMethod::Pipewire,
            source: "auto".to_string(),
            sample_rate: 44100,
            sample_bits: 16,
            channels: 2,
        }
    }
}

impl Default for ColorConfig {
    /// Terminal default colours, no gradients (the green-to-red vertical and
    /// the rose-to-indigo horizontal palettes are ready to switch on),
    /// upward blending, no theme.
    fn default() -> (r: Self)
        ensures
            r.background == TerminalColor::Default,
            r.foreground == TerminalColor::Default,
            !r.gradient,
            r.gradient_colors@ == crate::menu::palette_colors_spec(0),
            !r.horizontal_gradient,
            r.horizontal_gradient_colors@ == crate::menu::palette_colors_spec(5),
            r.blend_direction == BlendDirection::Up,
            !r.spectrum,
            !r.background_gradient,
            r.theme@ == "none"@,
    {
        ColorConfig {
            background: TerminalColor::Default,
            foreground: TerminalColor::Default,
            gradient: false,
            gradient_colors: crate::menu::palette_colors(0),
            horizontal_gradient: false,
            horizontal_gradient_colors: crate::menu::palette_colors(5),
            blend_direction: BlendDirection::Up,
            spectrum: false,
            background_gradient: false,
            theme: "none".to_string(),
        }
    }
}

/// The value of flag `k` after reading `es`, starting from `d`.
pub open spec fn last_flag(es: Seq<IniEntry>, k: FlagKey, d: bool) -> bool
    decreases es.len(),
{
    if es.len() == 0 {
        d
    } else {
        match es.last().setting {
            IniSetting::Flag(k2, v) => if k2 == k { v } else { last_flag(es.drop_last(), k, d) },
            _ => last_flag(es.drop_last(), k, d),
        }
    }
}

/// The value of integer setting `k` after reading `es`, starting from `d`.
pub open spec fn last_count(es: Seq<IniEntry>, k: CountKey, d: nat) -> nat
    decreases es.len(),
{
    if es.len() == 0 {
        d
    } else {
        match es.last().setting {
            IniSetting::Count(k2, v) => if k2 == k { v as nat } else { last_count(es.drop_last(), k, d) },
            _ => last_count(es.drop_last(), k, d),
        }
    }
}

/// The text of text setting `k` after reading `es`, starting from `d`.
pub open spec fn last_text(es: Seq<IniEntry>, k: TextKey, d: Seq<char>) -> Seq<char>
    decreases es.len(),
{
    if es.len() == 0 {
        d
    } else {
        match es.last().setting {
            IniSetting::Text(k2) => if k2 == k { es.last().text@ } else { last_text(es.drop_last(), k, d) },
            _ => last_text(es.drop_last(), k, d),
        }
    }
}

/// The setting that wins among `es` by `pick` (the last one it accepts),
/// or `d`.
pub open spec fn last_background(es: Seq<IniEntry>, d: TerminalColor) -> TerminalColor
    decreases es.len(),
{
    if es.len() == 0 {
        d
    } else {
        match es.last().setting {
            IniSetting::Background(c) => c,
            _ => last_background(es.drop_last(), d),
        }
    }
}

pub open spec fn last_foreground(es: Seq<IniEntry>, d: TerminalColor) -> TerminalColor
    decreases es.len(),
{
    if es.len() == 0 {
        d
    } else {
        match es.last().setting {
            IniSetting::Foreground(c) => c,
            _ => last_foreground(es.drop_last(), d),
        }
    }
}

pub open spec fn last_blend(es: Seq<IniEntry>, d: BlendDirection) -> BlendDirection
    decreases es.len(),
{
    if es.len() == 0 {
        d
    } else {
        match es.last().setting {
            IniSetting::Blend(b) => b,
            _ => last_blend(es.drop_last(), d),
        }
    }
}

pub open spec fn last_input(es: Seq<IniEntry>, d: InputMethod) -> InputMethod
    decreases es.len(),
{
    if es.len() == 0 {
        d
    } else {
        match es.last().setting {
            IniSetting::Input(m) => m,
            _ => last_input(es.drop_last(), d),
        }
    }
}

/// The colour given last for gradient slot `i` (horizontal or vertical).
pub open spec fn gradient_slot(es: Seq<IniEntry>, horizontal: bool, i: int) -> Option<TerminalColor>
    decreases es.len(),
{
    if es.len() == 0 {
        None
    } else {
        match es.last().setting {
            IniSetting::GradientColor(j, c) => if !horizontal && j == i { Some(c) } else { gradient_slot(es.drop_last(), horizontal, i) },
            IniSetting::HorizontalGradientColor(j, c) => if horizontal && j == i { Some(c) } else { gradient_slot(es.drop_last(), horizontal, i) },
            _ => gradient_slot(es.drop_last(), horizontal, i),
        }
    }
}

/// The gradient colours that slots `1..=k` define, in slot order.
pub open spec fn gradient_list(es: Seq<IniEntry>, horizontal: bool, k: int) -> Seq<TerminalColor>
    decreases k,
{
    if k <= 0 {
        Seq::empty()
    } else {
        let prev = gradient_list(es, horizontal, k - 1);
        match gradient_slot(es, horizontal, k) {
            Some(c) => prev.push(c),
            None => prev,
        }
    }
}

fn slot_exec(es: &Vec<IniEntry>, horizontal: bool, i: usize) -> (r: Option<TerminalColor>)
    ensures
        r == gradient_slot(es@, horizontal, i as int),
{
    let mut k = es.len();
    proof {
        assert(es@.take(es@.len() as int) == es@);
    }
    while k > 0
        invariant
            k <= es@.len(),
            gradient_slot(es@, horizontal, i as int) == gradient_slot(es@.take(k as int), horizontal, i as int),
        decreases k,
    {
        proof {
            assert(es@.take(k as int).drop_last() == es@.take(k - 1));
            assert(es@.take(k as int).last() == es@[k - 1]);
        }
        match es[k - 1].setting {
            IniSetting::GradientColor(j, c) => {
                if !horizontal && j == i {
                    return Some(c);
                }
            },
            IniSetting::HorizontalGradientColor(j, c) => {
                if horizontal && j == i {
                    return Some(c);
                }
            },
            _ => {},
        }
        k = k - 1;
    }
    None
}

/// The gradient colours the entries define for slots 1 to 8, in slot order
/// (the last colour given for a slot wins; empty slots are skipped).
pub fn gradient_from_entries(es: &Vec<IniEntry>, horizontal: bool) -> (r: Vec<TerminalColor>)
    ensures
        r@ == gradient_list(es@, horizontal, 8),
{
    let mut r: Vec<TerminalColor> = Vec::new();
    let mut i: usize = 1;
    while i <= 8
        invariant
            1 <= i <= 9,
            r@ == gradient_list(es@, horizontal, i - 1),
        decreases 9 - i,
    {
        match slot_exec(es, horizontal, i) {
            Some(c) => r.push(c),
            None => {},
        }
        i = i + 1;
    }
    r
}

impl ColorConfig {
    /// Applies the `[color]` settings of `es` in order: later values win,
    /// and the gradient lists are replaced by the colours of slots 1..=8
    /// whenever at least one of those slots is given.
    pub fn apply_ini(&mut self, es: &Vec<IniEntry>)
        ensures
            final(self).background == last_background(es@, old(self).background),
            final(self).foreground == last_foreground(es@, old(self).foreground),
            final(self).gradient == last_flag(es@, FlagKey::Gradient, old(self).gradient),
            final(self).horizontal_gradient == last_flag(es@, FlagKey::HorizontalGradient, old(self).horizontal_gradient),
            final(self).spectrum == last_flag(es@, FlagKey::Spectrum, old(self).spectrum),
            final(self).background_gradient == last_flag(es@, FlagKey::BackgroundGradient, old(self).background_gradient),
            final(self).blend_direction == last_blend(es@, old(self).blend_direction),
            final(self).theme@ == last_text(es@, TextKey::Theme, old(self).theme@),
            final(self).gradient_colors@ == if gradient_list(es@, false, 8).len() > 0 {
                gradient_list(es@, false, 8)
            } else {
                old(self).gradient_colors@
            },
            final(self).horizontal_gradient_colors@ == if gradient_list(es@, true, 8).len() > 0 {
                gradient_list(es@, true, 8)
            } else {
                old(self).horizontal_gradient_colors@
            },
    {
        let mut i: usize = 0;
        while i < es.len()
            invariant
                0 <= i <= es@.len(),
                self.background == last_background(es@.take(i as int), old(self).background),
                self.foreground == last_foreground(es@.take(i as int), old(self).foreground),
                self.gradient == last_flag(es@.take(i as int), FlagKey::Gradient, old(self).gradient),
                self.horizontal_gradient == last_flag(es@.take(i as int), FlagKey::HorizontalGradient, old(self).horizontal_gradient),
                self.spectrum == last_flag(es@.take(i as int), FlagKey::Spectrum, old(self).spectrum),
                self.background_gradient == last_flag(es@.take(i as int), FlagKey::BackgroundGradient, old(self).background_gradient),
                self.blend_direction == last_blend(es@.take(i as int), old(self).blend_direction),
                self.theme@ == last_text(es@.take(i as int), TextKey::Theme, old(self).theme@),
                self.gradient_colors@ == old(self).gradient_colors@,
                self.horizontal_gradient_colors@ == old(self).horizontal_gradient_colors@,
            decreases es@.len() - i,
        {
            proof {
                assert(es@.take(i + 1).drop_last() == es@.take(i as int));
                assert(es@.take(i + 1).last() == es@[i as int]);
            }
            match es[i].setting {
                IniSetting::Background(c) => self.background = c,
                IniSetting::Foreground(c) => self.foreground = c,
                IniSetting::Flag(FlagKey::Gradient, v) => self.gradient = v,
                IniSetting::Flag(FlagKey::HorizontalGradient, v) => self.horizontal_gradient = v,
                IniSetting::Flag(FlagKey::Spectrum, v) => self.spectrum = v,
                IniSetting::Flag(FlagKey::BackgroundGradient, v) => self.background_gradient = v,
                IniSetting::Blend(b) => self.blend_direction = b,
                IniSetting::Text(TextKey::Theme) => self.theme = string_of(&chars_of(es[i].text.as_str())),
                _ => {},
            }
            i = i + 1;
        }
        proof {
            assert(es@.take(es@.len() as int) == es@);
        }
        let v = gradient_from_entries(es, false);
        if v.len() > 0 {
            self.gradient_colors = v;
        }
        let h = gradient_from_entries(es, true);
        if h.len() > 0 {
            self.horizontal_gradient_colors = h;
        }
    }
}

/// `v` fits the field that integer setting `k` sets and lies in the range
/// the setting allows (clamping leaves it as it is).
pub open spec fn count_in_range(k: CountKey, v: nat) -> bool {
    v <= count_max(k) && count_clamp(k, v) == v
}

/// A setting's value lies in the range its field allows: integers fit their
/// type and their clamp range, and the output has one or two channels.
pub open spec fn valid_entry(s: IniSetting) -> bool {
    match s {
        IniSetting::Count(k, v) => count_in_range(k, v as nat),
        IniSetting::OutputChannels(c) => c == 1 || c == 2,
        _ => true,
    }
}

/// Reading settings never takes an integer setting out of its range: a
/// value in range before stays in range whatever valid entries are read.
pub proof fn lemma_reading_keeps_counts_in_range(es: Seq<IniEntry>, k: CountKey, d: nat)
    requires
        forall|j: int| 0 <= j < es.len() ==> valid_entry(#[trigger] es[j].setting),
        count_in_range(k, d),
    ensures
        count_in_range(k, last_count(es, k, d)),
    decreases es.len(),
{
    if es.len() > 0 {
        assert(valid_entry(es[es.len() - 1].setting));
        lemma_reading_keeps_counts_in_range(es.drop_last(), k, d);
    }
}

/// Reading the same settings a second time changes nothing: each field
/// ends with the value the first reading gave it, and the gradient lists
/// are rebuilt from the same slots.
pub proof fn lemma_reading_twice_is_reading_once(
    es: Seq<IniEntry>,
    fk: FlagKey,
    ck: CountKey,
    tk: TextKey,
    b: bool,
    n: nat,
    t: Seq<char>,
    bg: TerminalColor,
    fg: TerminalColor,
    bl: BlendDirection,
    m: InputMethod,
    horizontal: bool,
    colors: Seq<TerminalColor>,
)
    ensures
        last_flag(es, fk, last_flag(es, fk, b)) == last_flag(es, fk, b),
        last_count(es, ck, last_count(es, ck, n)) == last_count(es, ck, n),
        last_text(es, tk, last_text(es, tk, t)) == last_text(es, tk, t),
        last_background(es, last_background(es, bg)) == last_background(es, bg),
        last_foreground(es, last_foreground(es, fg)) == last_foreground(es, fg),
        last_blend(es, last_blend(es, bl)) == last_blend(es, bl),
        last_input(es, last_input(es, m)) == last_input(es, m),
        ({
            let g = gradient_list(es, horizontal, 8);
            let once = if g.len() > 0 { g } else { colors };
            (if g.len() > 0 { g } else { once }) == once
        }),
    decreases es.len(),
{
    if es.len() > 0 {
        let p = es.drop_last();
        lemma_reading_twice_is_reading_once(p, fk, ck, tk, b, n, t, bg, fg, bl, m, horizontal, colors);
    }
}


proof fn lemma_ini_setting_valid(section: Seq<char>, key: Seq<char>, val: Seq<char>)
    ensures
        ini_setting(section, key, val) matches Some(st) ==> valid_entry(st),
{
}

impl InputConfig {
    /// Applies the `[input]` settings of `es` in order (later values win).
    pub fn apply_ini(&mut self, es: &Vec<IniEntry>)
        requires
            forall|j: int| 0 <= j < es@.len() ==> valid_entry(#[trigger] es@[j].setting),
        ensures
            final(self).method == last_input(es@, old(self).method),
            final(self).source@ == last_text(es@, TextKey::Source, old(self).source@),
            final(self).sample_rate == last_count(es@, CountKey::SampleRate, old(self).sample_rate as nat),
            final(self).sample_bits == last_count(es@, CountKey::SampleBits, old(self).sample_bits as nat),
            final(self).channels == last_count(es@, CountKey::InputChannels, old(self).channels as nat),
    {
        let mut i: usize = 0;
        while i < es.len()
            invariant
                0 <= i <= es@.len(),
                forall|j: int| 0 <= j < es@.len() ==> valid_entry(#[trigger] es@[j].setting),
                self.method == last_input(es@.take(i as int), old(self).method),
                self.source@ == last_text(es@.take(i as int), TextKey::Source, old(self).source@),
                self.sample_rate == last_count(es@.take(i as int), CountKey::SampleRate, old(self).sample_rate as nat),
                self.sample_bits == last_count(es@.take(i as int), CountKey::SampleBits, old(self).sample_bits as nat),
                self.channels == last_count(es@.take(i as int), CountKey::InputChannels, old(self).channels as nat),
            decreases es@.len() - i,
        {
            proof {
                assert(es@.take(i + 1).drop_last() == es@.take(i as int));
                assert(es@.take(i + 1).last() == es@[i as int]);
            }
            match es[i].setting {
                IniSetting::Input(m) => self.method = m,
                IniSetting::Text(TextKey::Source) => self.source = string_of(&chars_of(es[i].text.as_str())),
                IniSetting::Count(CountKey::SampleRate, v) => self.sample_rate = v as u32,
                IniSetting::Count(CountKey::SampleBits, v) => self.sample_bits = v as u32,
                IniSetting::Count(CountKey::InputChannels, v) => self.channels = v as u32,
                _ => {},
            }
            i = i + 1;
        }
        proof {
            assert(es@.take(es@.len() as int) == es@);
        }
    }
}

/// A word of lower-case letters and digits is its own lower case.
proof fn lemma_lower_word(w: Seq<char>)
    requires
        forall|i: int| 0 <= i < w.len() ==> ('a' <= #[trigger] w[i] <= 'z') || ('0' <= w[i] <= '9'),
    ensures
        lower(w) == w,
{
    assert(lower(w) =~= w);
}

/// Every orientation's INI name, written as `orientation` in `[output]`,
/// reads back as that orientation.
pub proof fn lemma_orientation_names_read_back(o: Orientation)
    ensures
        ini_setting("output"@, "orientation"@, o.name()) == Some(IniSetting::Orient(o)),
{
    reveal_strlit("general");
    reveal_strlit("input");
    reveal_strlit("output");
    reveal_strlit("method");
    reveal_strlit("orientation");
    reveal_strlit("bottom");
    reveal_strlit("vertical");
    reveal_strlit("top");
    reveal_strlit("left");
    reveal_strlit("right");
    reveal_strlit("horizontal");
    lemma_lower_word(o.name());
    let m = lower(o.name());
    assert("output"@.len() == 6 && "general"@.len() == 7 && "input"@.len() == 5);
    assert("orientation"@.len() == 11 && "method"@.len() == 6);
    match o {
        Orientation::Bottom => assert(m == "bottom"@),
        Orientation::Top => {
            assert(m == "top"@);
            assert(m != "bottom"@ && m != "vertical"@);
        },
        Orientation::Left => {
            assert(m == "left"@);
            assert(m != "bottom"@ && m != "vertical"@ && m != "top"@);
        },
        Orientation::Right => {
            assert(m == "right"@);
            assert(m != "bottom"@ && m != "vertical"@ && m != "top"@ && m != "left"@);
        },
        Orientation::Horizontal => {
            assert(m == "horizontal"@);
            assert(m != "bottom"@ && m != "vertical"@ && m != "top"@ && m != "left"@ && m != "right"@);
        },
    }
}

/// Every input method's INI name, written as `method` in `[input]`, reads
/// back as that method.
pub proof fn lemma_input_method_names_read_back(m: InputMethod)
    ensures
        ini_setting("input"@, "method"@, m.name()) == Some(IniSetting::Input(m)),
{
    reveal_strlit("general");
    reveal_strlit("input");
    reveal_strlit("method");
    reveal_strlit("pipewire");
    reveal_strlit("pulse");
    reveal_strlit("alsa");
    reveal_strlit("fifo");
    reveal_strlit("cpal");
    reveal_strlit("portaudio");
    reveal_strlit("coreaudio");
    reveal_strlit("test");
    lemma_lower_word(m.name());
    assert("input"@.len() == 5 && "general"@.len() == 7);
    let l = lower(m.name());
    assert(l == m.name());
    assert("alsa"@[0] == 'a' && "fifo"@[0] == 'f' && "cpal"@[0] == 'c' && "test"@[0] == 't');
    assert("pipewire"@.len() == 8 && "pulse"@.len() == 5 && "portaudio"@.len() == 9 && "coreaudio"@.len() == 9);
}

/// Every output method's INI name, written as `method` in `[output]`, reads
/// back as that method.
pub proof fn lemma_output_method_names_read_back(m: OutputMethod)
    ensures
        ini_setting("output"@, "method"@, m.name()) == Some(IniSetting::Output(m)),
{
    reveal_strlit("general");
    reveal_strlit("input");
    reveal_strlit("output");
    reveal_strlit("method");
    reveal_strlit("noncurses");
    reveal_strlit("ncurses");
    reveal_strlit("raw");
    lemma_lower_word(m.name());
    assert("output"@.len() == 6 && "general"@.len() == 7 && "input"@.len() == 5);
    assert("noncurses"@.len() == 9 && "ncurses"@.len() == 7 && "raw"@.len() == 3);
}

/// Every mono option's INI name reads back as that option.
pub proof fn lemma_mono_names_read_back(m: MonoOption)
    ensures
        ini_setting("output"@, "mono_option"@, m.name()) == Some(IniSetting::Mono(m)),
{
    reveal_strlit("general");
    reveal_strlit("input");
    reveal_strlit("output");
    reveal_strlit("method");
    reveal_strlit("orientation");
    reveal_strlit("channels");
    reveal_strlit("mono_option");
    reveal_strlit("average");
    reveal_strlit("left");
    reveal_strlit("right");
    lemma_lower_word(m.name());
    assert("output"@.len() == 6 && "general"@.len() == 7 && "input"@.len() == 5);
    assert("method"@.len() == 6 && "channels"@.len() == 8 && "orientation"@[0] == 'o' && "mono_option"@[0] == 'm');
    assert("average"@.len() == 7 && "left"@.len() == 4 && "right"@.len() == 5);
}

/// Every raw data format's INI name reads back as that format.
pub proof fn lemma_data_format_names_read_back(d: DataFormat)
    ensures
        ini_setting("output"@, "data_format"@, d.name()) == Some(IniSetting::Data(d)),
{
    reveal_strlit("general");
    reveal_strlit("input");
    reveal_strlit("output");
    reveal_strlit("method");
    reveal_strlit("orientation");
    reveal_strlit("channels");
    reveal_strlit("mono_option");
    reveal_strlit("data_format");
    reveal_strlit("binary");
    reveal_strlit("ascii");
    assert("output"@.len() == 6 && "general"@.len() == 7 && "input"@.len() == 5);
    assert("method"@.len() == 6 && "channels"@.len() == 8 && "orientation"@[0] == 'o' && "mono_option"@[0] == 'm');
    assert("data_format"@[0] == 'd');
    assert("binary"@.len() == 6 && "ascii"@.len() == 5);
}

/// Every raw bit format's INI name reads back as that format.
pub proof fn lemma_bit_format_names_read_back(b: BitFormat)
    ensures
        ini_setting("output"@, "bit_format"@, b.name()) == Some(IniSetting::Bits(b)),
{
    reveal_strlit("general");
    reveal_strlit("input");
    reveal_strlit("output");
    reveal_strlit("method");
    reveal_strlit("orientation");
    reveal_strlit("channels");
    reveal_strlit("mono_option");
    reveal_strlit("data_format");
    reveal_strlit("bit_format");
    reveal_strlit("8bit");
    reveal_strlit("16bit");
    assert("output"@.len() == 6 && "general"@.len() == 7 && "input"@.len() == 5);
    assert("method"@.len() == 6 && "channels"@.len() == 8 && "orientation"@.len() == 11);
    assert("mono_option"@.len() == 11 && "data_format"@.len() == 11 && "bit_format"@.len() == 10);
    assert("8bit"@.len() == 4 && "16bit"@.len() == 5);
}

/// Both frequency-axis names that a save writes read back as what was
/// saved.
pub proof fn lemma_axis_names_read_back(x: XAxis)
    ensures
        ini_setting("output"@, "xaxis"@, x.name()) == Some(IniSetting::Axis(x)),
{
    reveal_strlit("general");
    reveal_strlit("input");
    reveal_strlit("output");
    reveal_strlit("method");
    reveal_strlit("orientation");
    reveal_strlit("channels");
    reveal_strlit("mono_option");
    reveal_strlit("data_format");
    reveal_strlit("bit_format");
    reveal_strlit("xaxis");
    reveal_strlit("frequency");
    reveal_strlit("scale");
    reveal_strlit("none");
    assert("output"@.len() == 6 && "general"@.len() == 7 && "input"@.len() == 5);
    assert("method"@.len() == 6 && "channels"@.len() == 8 && "orientation"@.len() == 11);
    assert("mono_option"@.len() == 11 && "data_format"@.len() == 11 && "bit_format"@.len() == 10);
    assert("xaxis"@.len() == 5);
    assert("none"@.len() == 4 && "frequency"@.len() == 9 && "scale"@.len() == 5);
}

/// Every waveform style's INI name reads back as that style.
pub proof fn lemma_style_names_read_back(w: WaveformStyle)
    ensures
        ini_setting("output"@, "waveform_style"@, w.name()) == Some(IniSetting::Style(w)),
{
    reveal_strlit("general");
    reveal_strlit("input");
    reveal_strlit("output");
    reveal_strlit("method");
    reveal_strlit("orientation");
    reveal_strlit("channels");
    reveal_strlit("mono_option");
    reveal_strlit("data_format");
    reveal_strlit("bit_format");
    reveal_strlit("xaxis");
    reveal_strlit("waveform_style");
    reveal_strlit("line");
    reveal_strlit("area");
    assert("output"@.len() == 6 && "general"@.len() == 7 && "input"@.len() == 5);
    assert("method"@.len() == 6 && "channels"@.len() == 8 && "orientation"@.len() == 11);
    assert("mono_option"@.len() == 11 && "data_format"@.len() == 11 && "bit_format"@.len() == 10);
    assert("xaxis"@.len() == 5 && "waveform_style"@.len() == 14);
    assert("line"@[0] == 'l' && "area"@[0] == 'a');
    assert(crate::text::ascii_lower('l') != crate::text::ascii_lower('a'));
}

/// Both scaling modes' INI names read back as that mode.
pub proof fn lemma_scaling_names_read_back(m: ScalingMode)
    ensures
        ini_setting("general"@, "scaling"@, m.name()) == Some(IniSetting::Scaling(m)),
{
    reveal_strlit("general");
    reveal_strlit("scaling");
    reveal_strlit("linear");
    reveal_strlit("decibel");
    assert("linear"@.len() == 6 && "decibel"@.len() == 7);
}

/// Every blend direction's INI name reads back as that direction.
pub proof fn lemma_blend_names_read_back(b: BlendDirection)
    ensures
        ini_setting("color"@, "blend_direction"@, b.name()) == Some(IniSetting::Blend(b)),
{
    reveal_strlit("general");
    reveal_strlit("input");
    reveal_strlit("output");
    reveal_strlit("color");
    reveal_strlit("background");
    reveal_strlit("foreground");
    reveal_strlit("gradient");
    reveal_strlit("gradient_count");
    reveal_strlit("gradient_color_");
    reveal_strlit("horizontal_gradient");
    reveal_strlit("horizontal_gradient_count");
    reveal_strlit("horizontal_gradient_color_");
    reveal_strlit("blend_direction");
    reveal_strlit("up");
    reveal_strlit("down");
    reveal_strlit("left");
    reveal_strlit("right");
    lemma_lower_word(b.name());
    assert("color"@.len() == 5 && "general"@.len() == 7 && "input"@.len() == 5 && "output"@.len() == 6);
    assert("color"@[0] == 'c' && "input"@[0] == 'i');
    assert("background"@.len() == 10 && "foreground"@.len() == 10 && "gradient"@.len() == 8);
    assert("gradient_count"@.len() == 14 && "horizontal_gradient"@.len() == 19);
    assert("horizontal_gradient_count"@.len() == 25 && "blend_direction"@.len() == 15);
    assert("blend_direction"@.take(15) == "blend_direction"@);
    assert("gradient_color_"@[0] == 'g' && "blend_direction"@[0] == 'b');
    assert("up"@.len() == 2 && "down"@[0] == 'd' && "left"@[0] == 'l' && "right"@.len() == 5);
}

/// The section and key under which each on/off setting is written.
pub open spec fn flag_key_name(k: FlagKey) -> (Seq<char>, Seq<char>) {
    match k {
        FlagKey::CenterAlign => ("general"@, "center_align"@),
        FlagKey::WrapBars => ("general"@, "wrap_bars"@),
        FlagKey::LiveConfig => ("general"@, "live_config"@),
        FlagKey::Reverse => ("output"@, "reverse"@),
        FlagKey::SplitStereo => ("output"@, "split_stereo"@),
        FlagKey::ShowIdleBarHeads => ("output"@, "show_idle_bar_heads"@),
        FlagKey::Waveform => ("output"@, "waveform"@),
        FlagKey::WaveformBaseline => ("output"@, "waveform_baseline"@),
        FlagKey::WaveformDynamics => ("output"@, "waveform_dynamics"@),
        FlagKey::WaveformGraticule => ("output"@, "waveform_graticule"@),
        FlagKey::BarReflection => ("output"@, "bar_reflection"@),
        FlagKey::StereoDivider => ("output"@, "stereo_divider"@),
        FlagKey::BaselineRuler => ("output"@, "baseline_ruler"@),
        FlagKey::BarCap => ("output"@, "bar_cap"@),
        FlagKey::BrightPeaks => ("output"@, "bright_peaks"@),
        FlagKey::BeatPulse => ("output"@, "beat_pulse"@),
        FlagKey::AsciiGlyphs => ("output"@, "ascii_glyphs"@),
        FlagKey::ReduceMotion => ("output"@, "reduce_motion"@),
        FlagKey::DrawPeaks => ("output"@, "draw_peaks"@),
        FlagKey::Gradient => ("color"@, "gradient"@),
        FlagKey::HorizontalGradient => ("color"@, "horizontal_gradient"@),
        FlagKey::Spectrum => ("color"@, "spectrum"@),
        FlagKey::BackgroundGradient => ("color"@, "background_gradient"@),
        FlagKey::Waves => ("smoothing"@, "waves"@),
    }
}

/// The section and key under which each integer setting is written.
pub open spec fn count_key_name(k: CountKey) -> (Seq<char>, Seq<char>) {
    match k {
        CountKey::Framerate => ("general"@, "framerate"@),
        CountKey::Autosens => ("general"@, "autosens"@),
        CountKey::Bars => ("general"@, "bars"@),
        CountKey::BarWidth => ("general"@, "bar_width"@),
        CountKey::BarSpacing => ("general"@, "bar_spacing"@),
        CountKey::LowerCutoffFreq => ("general"@, "lower_cutoff_freq"@),
        CountKey::HigherCutoffFreq => ("general"@, "higher_cutoff_freq"@),
        CountKey::SleepTimer => ("general"@, "sleep_timer"@),
        CountKey::SampleRate => ("input"@, "sample_rate"@),
        CountKey::SampleBits => ("input"@, "sample_bits"@),
        CountKey::InputChannels => ("input"@, "channels"@),
        CountKey::AsciiMaxRange => ("output"@, "ascii_max_range"@),
        CountKey::BarDelimiter => ("output"@, "bar_delimiter"@),
        CountKey::FrameDelimiter => ("output"@, "frame_delimiter"@),
    }
}

/// The section and key under which each text setting is written.
pub open spec fn text_key_name(k: TextKey) -> (Seq<char>, Seq<char>) {
    match k {
        TextKey::Sensitivity => ("general"@, "sensitivity"@),
        TextKey::MaxHeight => ("general"@, "max_height"@),
        TextKey::Source => ("input"@, "source"@),
        TextKey::RawTarget => ("output"@, "raw_target"@),
        TextKey::PeakDecay => ("output"@, "peak_decay"@),
        TextKey::Theme => ("color"@, "theme"@),
        TextKey::Monstercat => ("smoothing"@, "monstercat"@),
        TextKey::NoiseReduction => ("smoothing"@, "noise_reduction"@),
        TextKey::Gravity => ("smoothing"@, "gravity"@),
    }
}

/// Every on/off setting, written under its own section and key, reads as that
/// setting with the value `1` or `true` (any case) means on.
#[verifier::rlimit(50)]
pub proof fn lemma_flag_keys_read_back(k: FlagKey, v: Seq<char>)
    ensures
        ini_setting(flag_key_name(k).0, flag_key_name(k).1, v) == Some(IniSetting::Flag(k, ini_flag(v))),
{
    match k {
        FlagKey::CenterAlign => {
            reveal_strlit("center_align");
            reveal_strlit("general");
            reveal_strlit("live-config");
            reveal_strlit("live_config");
            reveal_strlit("scaling");
            assert("general"@.len() == 7 && "center_align"@.len() == 12);
            assert("scaling"@.len() == 7);
            assert("live-config"@.len() == 11);
            assert("live_config"@.len() == 11);
        },
        FlagKey::WrapBars => {
            reveal_strlit("center_align");
            reveal_strlit("general");
            reveal_strlit("live-config");
            reveal_strlit("live_config");
            reveal_strlit("scaling");
            reveal_strlit("wrap_bars");
            assert("general"@.len() == 7 && "wrap_bars"@.len() == 9);
            assert("scaling"@.len() == 7);
            assert("live-config"@.len() == 11);
            assert("live_config"@.len() == 11);
            assert("center_align"@.len() == 12);
        },
        FlagKey::LiveConfig => {
            reveal_strlit("general");
            reveal_strlit("live-config");
            reveal_strlit("live_config");
            reveal_strlit("scaling");
            assert("general"@.len() == 7 && "live_config"@.len() == 11);
            assert("scaling"@.len() == 7);
            assert("live-config"@[4] == '-' && "live_config"@[4] == '_');
        },
        FlagKey::Reverse => {
            reveal_strlit("bit_format");
            reveal_strlit("channels");
            reveal_strlit("data_format");
            reveal_strlit("general");
            reveal_strlit("input");
            reveal_strlit("method");
            reveal_strlit("mono_option");
            reveal_strlit("orientation");
            reveal_strlit("output");
            reveal_strlit("reverse");
            reveal_strlit("waveform_style");
            reveal_strlit("xaxis");
            assert("general"@.len() == 7);
            assert("input"@.len() == 5);
            assert("output"@.len() == 6 && "reverse"@.len() == 7);
            assert("method"@.len() == 6);
            assert("orientation"@.len() == 11);
            assert("channels"@.len() == 8);
            assert("mono_option"@.len() == 11);
            assert("data_format"@.len() == 11);
            assert("bit_format"@.len() == 10);
            assert("xaxis"@.len() == 5);
            assert("waveform_style"@.len() == 14);
        },
        FlagKey::SplitStereo => {
            reveal_strlit("bit_format");
            reveal_strlit("channels");
            reveal_strlit("data_format");
            reveal_strlit("general");
            reveal_strlit("input");
            reveal_strlit("method");
            reveal_strlit("mono_option");
            reveal_strlit("orientation");
            reveal_strlit("output");
            reveal_strlit("reverse");
            reveal_strlit("split_stereo");
            reveal_strlit("waveform_style");
            reveal_strlit("xaxis");
            assert("general"@.len() == 7);
            assert("input"@.len() == 5);
            assert("output"@.len() == 6 && "split_stereo"@.len() == 12);
            assert("method"@.len() == 6);
            assert("orientation"@.len() == 11);
            assert("channels"@.len() == 8);
            assert("mono_option"@.len() == 11);
            assert("data_format"@.len() == 11);
            assert("bit_format"@.len() == 10);
            assert("xaxis"@.len() == 5);
            assert("waveform_style"@.len() == 14);
            assert("reverse"@.len() == 7);
        },
        FlagKey::ShowIdleBarHeads => {
            reveal_strlit("bit_format");
            reveal_strlit("channels");
            reveal_strlit("data_format");
            reveal_strlit("general");
            reveal_strlit("input");
            reveal_strlit("method");
            reveal_strlit("mono_option");
            reveal_strlit("orientation");
            reveal_strlit("output");
            reveal_strlit("reverse");
            reveal_strlit("show_idle_bar_heads");
            reveal_strlit("split_stereo");
            reveal_strlit("waveform_style");
            reveal_strlit("xaxis");
            assert("general"@.len() == 7);
            assert("input"@.len() == 5);
            assert("output"@.len() == 6 && "show_idle_bar_heads"@.len() == 19);
            assert("method"@.len() == 6);
            assert("orientation"@.len() == 11);
            assert("channels"@.len() == 8);
            assert("mono_option"@.len() == 11);
            assert("data_format"@.len() == 11);
            assert("bit_format"@.len() == 10);
            assert("xaxis"@.len() == 5);
            assert("waveform_style"@.len() == 14);
            assert("reverse"@.len() == 7);
            assert("split_stereo"@.len() == 12);
        },
        FlagKey::Waveform => {
            reveal_strlit("bit_format");
            reveal_strlit("channels");
            reveal_strlit("data_format");
            reveal_strlit("general");
            reveal_strlit("input");
            reveal_strlit("method");
            reveal_strlit("mono_option");
            reveal_strlit("orientation");
            reveal_strlit("output");
            reveal_strlit("reverse");
            reveal_strlit("show_idle_bar_heads");
            reveal_strlit("split_stereo");
            reveal_strlit("waveform");
            reveal_strlit("waveform_style");
            reveal_strlit("xaxis");
            assert("general"@.len() == 7);
            assert("input"@.len() == 5);
            assert("output"@.len() == 6 && "waveform"@.len() == 8);
            assert("method"@.len() == 6);
            assert("orientation"@.len() == 11);
            assert("channels"@[0] == 'c' && "waveform"@[0] == 'w');
            assert("mono_option"@.len() == 11);
            assert("data_format"@.len() == 11);
            assert("bit_format"@.len() == 10);
            assert("xaxis"@.len() == 5);
            assert("waveform_style"@.len() == 14);
            assert("reverse"@.len() == 7);
            assert("split_stereo"@.len() == 12);
            assert("show_idle_bar_heads"@.len() == 19);
        },
        FlagKey::WaveformBaseline => {
            reveal_strlit("bit_format");
            reveal_strlit("channels");
            reveal_strlit("data_format");
            reveal_strlit("general");
            reveal_strlit("input");
            reveal_strlit("method");
            reveal_strlit("mono_option");
            reveal_strlit("orientation");
            reveal_strlit("output");
            reveal_strlit("reverse");
            reveal_strlit("show_idle_bar_heads");
            reveal_strlit("split_stereo");
            reveal_strlit("waveform");
            reveal_strlit("waveform_baseline");
            reveal_strlit("waveform_style");
            reveal_strlit("xaxis");
            assert("general"@.len() == 7);
            assert("input"@.len() == 5);
            assert("output"@.len() == 6 && "waveform_baseline"@.len() == 17);
            assert("method"@.len() == 6);
            assert("orientation"@.len() == 11);
            assert("channels"@.len() == 8);
            assert("mono_option"@.len() == 11);
            assert("data_format"@.len() == 11);
            assert("bit_format"@.len() == 10);
            assert("xaxis"@.len() == 5);
            assert("waveform_style"@.len() == 14);
            assert("reverse"@.len() == 7);
            assert("split_stereo"@.len() == 12);
            assert("show_idle_bar_heads"@.len() == 19);
            assert("waveform"@.len() == 8);
        },
        FlagKey::WaveformDynamics => {
            reveal_strlit("bit_format");
            reveal_strlit("channels");
            reveal_strlit("data_format");
            reveal_strlit("general");
            reveal_strlit("input");
            reveal_strlit("method");
            reveal_strlit("mono_option");
            reveal_strlit("orientation");
            reveal_strlit("output");
            reveal_strlit("reverse");
            reveal_strlit("show_idle_bar_heads");
            reveal_strlit("split_stereo");
            reveal_strlit("waveform");
            reveal_strlit("waveform_baseline");
            reveal_strlit("waveform_dynamics");
            reveal_strlit("waveform_style");
            reveal_strlit("xaxis");
            assert("general"@.len() == 7);
            assert("input"@.len() == 5);
            assert("output"@.len() == 6 && "waveform_dynamics"@.len() == 17);
            assert("method"@.len() == 6);
            assert("orientation"@.len() == 11);
            assert("channels"@.len() == 8);
            assert("mono_option"@.len() == 11);
            assert("data_format"@.len() == 11);
            assert("bit_format"@.len() == 10);
            assert("xaxis"@.len() == 5);
            assert("waveform_style"@.len() == 14);
            assert("reverse"@.len() == 7);
            assert("split_stereo"@.len() == 12);
            assert("show_idle_bar_heads"@.len() == 19);
            assert("waveform"@.len() == 8);
            assert("waveform_baseline"@[9] == 'b' && "waveform_dynamics"@[9] == 'd');
        },
        FlagKey::WaveformGraticule => {
            reveal_strlit("bit_format");
            reveal_strlit("channels");
            reveal_strlit("data_format");
            reveal_strlit("general");
            reveal_strlit("input");
            reveal_strlit("method");
            reveal_strlit("mono_option");
            reveal_strlit("orientation");
            reveal_strlit("output");
            reveal_strlit("reverse");
            reveal_strlit("show_idle_bar_heads");
            reveal_strlit("split_stereo");
            reveal_strlit("waveform");
            reveal_strlit("waveform_baseline");
            reveal_strlit("waveform_dynamics");
            reveal_strlit("waveform_graticule");
            reveal_strlit("waveform_style");
            reveal_strlit("xaxis");
            assert("general"@.len() == 7);
            assert("input"@.len() == 5);
            assert("output"@.len() == 6 && "waveform_graticule"@.len() == 18);
            assert("method"@.len() == 6);
            assert("orientation"@.len() == 11);
            assert("channels"@.len() == 8);
            assert("mono_option"@.len() == 11);
            assert("data_format"@.len() == 11);
            assert("bit_format"@.len() == 10);
            assert("xaxis"@.len() == 5);
            assert("waveform_style"@.len() == 14);
            assert("reverse"@.len() == 7);
            assert("split_stereo"@.len() == 12);
            assert("show_idle_bar_heads"@.len() == 19);
            assert("waveform"@.len() == 8);
            assert("waveform_baseline"@.len() == 17);
            assert("waveform_dynamics"@.len() == 17);
        },
        FlagKey::BarReflection => {
            reveal_strlit("bar_reflection");
            reveal_strlit("bit_format");
            reveal_strlit("channels");
            reveal_strlit("data_format");
            reveal_strlit("general");
            reveal_strlit("input");
            reveal_strlit("method");
            reveal_strlit("mono_option");
            reveal_strlit("orientation");
            reveal_strlit("output");
            reveal_strlit("reverse");
            reveal_strlit("show_idle_bar_heads");
            reveal_strlit("split_stereo");
            reveal_strlit("waveform");
            reveal_strlit("waveform_baseline");
            reveal_strlit("waveform_dynamics");
            reveal_strlit("waveform_graticule");
            reveal_strlit("waveform_style");
            reveal_strlit("xaxis");
            assert("general"@.len() == 7);
            assert("input"@.len() == 5);
            assert("output"@.len() == 6 && "bar_reflection"@.len() == 14);
            assert("method"@.len() == 6);
            assert("orientation"@.len() == 11);
            assert("channels"@.len() == 8);
            assert("mono_option"@.len() == 11);
            assert("data_format"@.len() == 11);
            assert("bit_format"@.len() == 10);
            assert("xaxis"@.len() == 5);
            assert("waveform_style"@[0] == 'w' && "bar_reflection"@[0] == 'b');
            assert("reverse"@.len() == 7);
            assert("split_stereo"@.len() == 12);
            assert("show_idle_bar_heads"@.len() == 19);
            assert("waveform"@.len() == 8);
            assert("waveform_baseline"@.len() == 17);
            assert("waveform_dynamics"@.len() == 17);
            assert("waveform_graticule"@.len() == 18);
        },
        FlagKey::StereoDivider => {
            reveal_strlit("bar_reflection");
            reveal_strlit("bit_format");
            reveal_strlit("channels");
            reveal_strlit("data_format");
            reveal_strlit("general");
            reveal_strlit("input");
            reveal_strlit("method");
            reveal_strlit("mono_option");
            reveal_strlit("orientation");
            reveal_strlit("output");
            reveal_strlit("reverse");
            reveal_strlit("show_idle_bar_heads");
            reveal_strlit("split_stereo");
            reveal_strlit("stereo_divider");
            reveal_strlit("waveform");
            reveal_strlit("waveform_baseline");
            reveal_strlit("waveform_dynamics");
            reveal_strlit("waveform_graticule");
            reveal_strlit("waveform_style");
            reveal_strlit("xaxis");
            assert("general"@.len() == 7);
            assert("input"@.len() == 5);
            assert("output"@.len() == 6 && "stereo_divider"@.len() == 14);
            assert("method"@.len() == 6);
            assert("orientation"@.len() == 11);
            assert("channels"@.len() == 8);
            assert("mono_option"@.len() == 11);
            assert("data_format"@.len() == 11);
            assert("bit_format"@.len() == 10);
            assert("xaxis"@.len() == 5);
            assert("waveform_style"@[0] == 'w' && "stereo_divider"@[0] == 's');
            assert("reverse"@.len() == 7);
            assert("split_stereo"@.len() == 12);
            assert("show_idle_bar_heads"@.len() == 19);
            assert("waveform"@.len() == 8);
            assert("waveform_baseline"@.len() == 17);
            assert("waveform_dynamics"@.len() == 17);
            assert("waveform_graticule"@.len() == 18);
            assert("bar_reflection"@[0] == 'b' && "stereo_divider"@[0] == 's');
        },
        FlagKey::BaselineRuler => {
            reveal_strlit("bar_reflection");
            reveal_strlit("baseline_ruler");
            reveal_strlit("bit_format");
            reveal_strlit("channels");
            reveal_strlit("data_format");
            reveal_strlit("general");
            reveal_strlit("input");
            reveal_strlit("method");
            reveal_strlit("mono_option");
            reveal_strlit("orientation");
            reveal_strlit("output");
            reveal_strlit("reverse");
            reveal_strlit("show_idle_bar_heads");
            reveal_strlit("split_stereo");
            reveal_strlit("stereo_divider");
            reveal_strlit("waveform");
            reveal_strlit("waveform_baseline");
            reveal_strlit("waveform_dynamics");
            reveal_strlit("waveform_graticule");
            reveal_strlit("waveform_style");
            reveal_strlit("xaxis");
            assert("general"@.len() == 7);
            assert("input"@.len() == 5);
            assert("output"@.len() == 6 && "baseline_ruler"@.len() == 14);
            assert("method"@.len() == 6);
            assert("orientation"@.len() == 11);
            assert("channels"@.len() == 8);
            assert("mono_option"@.len() == 11);
            assert("data_format"@.len() == 11);
            assert("bit_format"@.len() == 10);
            assert("xaxis"@.len() == 5);
            assert("waveform_style"@[0] == 'w' && "baseline_ruler"@[0] == 'b');
            assert("reverse"@.len() == 7);
            assert("split_stereo"@.len() == 12);
            assert("show_idle_bar_heads"@.len() == 19);
            assert("waveform"@.len() == 8);
            assert("waveform_baseline"@.len() == 17);
            assert("waveform_dynamics"@.len() == 17);
            assert("waveform_graticule"@.len() == 18);
            assert("bar_reflection"@[2] == 'r' && "baseline_ruler"@[2] == 's');
            assert("stereo_divider"@[0] == 's' && "baseline_ruler"@[0] == 'b');
        },
        FlagKey::BarCap => {
            reveal_strlit("bar_cap");
            reveal_strlit("bar_reflection");
            reveal_strlit("baseline_ruler");
            reveal_strlit("bit_format");
            reveal_strlit("channels");
            reveal_strlit("data_format");
            reveal_strlit("general");
            reveal_strlit("input");
            reveal_strlit("method");
            reveal_strlit("mono_option");
            reveal_strlit("orientation");
            reveal_strlit("output");
            reveal_strlit("reverse");
            reveal_strlit("show_idle_bar_heads");
            reveal_strlit("split_stereo");
            reveal_strlit("stereo_divider");
            reveal_strlit("waveform");
            reveal_strlit("waveform_baseline");
            reveal_strlit("waveform_dynamics");
            reveal_strlit("waveform_graticule");
            reveal_strlit("waveform_style");
            reveal_strlit("xaxis");
            assert("general"@.len() == 7);
            assert("input"@.len() == 5);
            assert("output"@.len() == 6 && "bar_cap"@.len() == 7);
            assert("method"@.len() == 6);
            assert("orientation"@.len() == 11);
            assert("channels"@.len() == 8);
            assert("mono_option"@.len() == 11);
            assert("data_format"@.len() == 11);
            assert("bit_format"@.len() == 10);
            assert("xaxis"@.len() == 5);
            assert("waveform_style"@.len() == 14);
            assert("reverse"@[0] == 'r' && "bar_cap"@[0] == 'b');
            assert("split_stereo"@.len() == 12);
            assert("show_idle_bar_heads"@.len() == 19);
            assert("waveform"@.len() == 8);
            assert("waveform_baseline"@.len() == 17);
            assert("waveform_dynamics"@.len() == 17);
            assert("waveform_graticule"@.len() == 18);
            assert("bar_reflection"@.len() == 14);
            assert("stereo_divider"@.len() == 14);
            assert("baseline_ruler"@.len() == 14);
        },
        FlagKey::BrightPeaks => {
            reveal_strlit("bar_cap");
            reveal_strlit("bar_reflection");
            reveal_strlit("baseline_ruler");
            reveal_strlit("bit_format");
            reveal_strlit("bright_peaks");
            reveal_strlit("channels");
            reveal_strlit("data_format");
            reveal_strlit("general");
            reveal_strlit("input");
            reveal_strlit("method");
            reveal_strlit("mono_option");
            reveal_strlit("orientation");
            reveal_strlit("output");
            reveal_strlit("reverse");
            reveal_strlit("show_idle_bar_heads");
            reveal_strlit("split_stereo");
            reveal_strlit("stereo_divider");
            reveal_strlit("waveform");
            reveal_strlit("waveform_baseline");
            reveal_strlit("waveform_dynamics");
            reveal_strlit("waveform_graticule");
            reveal_strlit("waveform_style");
            reveal_strlit("xaxis");
            assert("general"@.len() == 7);
            assert("input"@.len() == 5);
            assert("output"@.len() == 6 && "bright_peaks"@.len() == 12);
            assert("method"@.len() == 6);
            assert("orientation"@.len() == 11);
            assert("channels"@.len() == 8);
            assert("mono_option"@.len() == 11);
            assert("data_format"@.len() == 11);
            assert("bit_format"@.len() == 10);
            assert("xaxis"@.len() == 5);
            assert("waveform_style"@.len() == 14);
            assert("reverse"@.len() == 7);
            assert("split_stereo"@[0] == 's' && "bright_peaks"@[0] == 'b');
            assert("show_idle_bar_heads"@.len() == 19);
            assert("waveform"@.len() == 8);
            assert("waveform_baseline"@.len() == 17);
            assert("waveform_dynamics"@.len() == 17);
            assert("waveform_graticule"@.len() == 18);
            assert("bar_reflection"@.len() == 14);
            assert("stereo_divider"@.len() == 14);
            assert("baseline_ruler"@.len() == 14);
            assert("bar_cap"@.len() == 7);
        },
        FlagKey::BeatPulse => {
            reveal_strlit("bar_cap");
            reveal_strlit("bar_reflection");
            reveal_strlit("baseline_ruler");
            reveal_strlit("beat_pulse");
            reveal_strlit("bit_format");
            reveal_strlit("bright_peaks");
            reveal_strlit("channels");
            reveal_strlit("data_format");
            reveal_strlit("general");
            reveal_strlit("input");
            reveal_strlit("method");
            reveal_strlit("mono_option");
            reveal_strlit("orientation");
            reveal_strlit("output");
            reveal_strlit("reverse");
            reveal_strlit("show_idle_bar_heads");
            reveal_strlit("split_stereo");
            reveal_strlit("stereo_divider");
            reveal_strlit("waveform");
            reveal_strlit("waveform_baseline");
            reveal_strlit("waveform_dynamics");
            reveal_strlit("waveform_graticule");
            reveal_strlit("waveform_style");
            reveal_strlit("xaxis");
            assert("general"@.len() == 7);
            assert("input"@.len() == 5);
            assert("output"@.len() == 6 && "beat_pulse"@.len() == 10);
            assert("method"@.len() == 6);
            assert("orientation"@.len() == 11);
            assert("channels"@.len() == 8);
            assert("mono_option"@.len() == 11);
            assert("data_format"@.len() == 11);
            assert("bit_format"@[1] == 'i' && "beat_pulse"@[1] == 'e');
            assert("xaxis"@.len() == 5);
            assert("waveform_style"@.len() == 14);
            assert("reverse"@.len() == 7);
            assert("split_stereo"@.len() == 12);
            assert("show_idle_bar_heads"@.len() == 19);
            assert("waveform"@.len() == 8);
            assert("waveform_baseline"@.len() == 17);
            assert("waveform_dynamics"@.len() == 17);
            assert("waveform_graticule"@.len() == 18);
            assert("bar_reflection"@.len() == 14);
            assert("stereo_divider"@.len() == 14);
            assert("baseline_ruler"@.len() == 14);
            assert("bar_cap"@.len() == 7);
            assert("bright_peaks"@.len() == 12);
        },
        FlagKey::AsciiGlyphs => {
            reveal_strlit("ascii_glyphs");
            reveal_strlit("bar_cap");
            reveal_strlit("bar_reflection");
            reveal_strlit("baseline_ruler");
            reveal_strlit("beat_pulse");
            reveal_strlit("bit_format");
            reveal_strlit("bright_peaks");
            reveal_strlit("channels");
            reveal_strlit("data_format");
            reveal_strlit("general");
            reveal_strlit("input");
            reveal_strlit("method");
            reveal_strlit("mono_option");
            reveal_strlit("orientation");
            reveal_strlit("output");
            reveal_strlit("reverse");
            reveal_strlit("show_idle_bar_heads");
            reveal_strlit("split_stereo");
            reveal_strlit("stereo_divider");
            reveal_strlit("waveform");
            reveal_strlit("waveform_baseline");
            reveal_strlit("waveform_dynamics");
            reveal_strlit("waveform_graticule");
            reveal_strlit("waveform_style");
            reveal_strlit("xaxis");
            assert("general"@.len() == 7);
            assert("input"@.len() == 5);
            assert("output"@.len() == 6 && "ascii_glyphs"@.len() == 12);
            assert("method"@.len() == 6);
            assert("orientation"@.len() == 11);
            assert("channels"@.len() == 8);
            assert("mono_option"@.len() == 11);
            assert("data_format"@.len() == 11);
            assert("bit_format"@.len() == 10);
            assert("xaxis"@.len() == 5);
            assert("waveform_style"@.len() == 14);
            assert("reverse"@.len() == 7);
            assert("split_stereo"@[0] == 's' && "ascii_glyphs"@[0] == 'a');
            assert("show_idle_bar_heads"@.len() == 19);
            assert("waveform"@.len() == 8);
            assert("waveform_baseline"@.len() == 17);
            assert("waveform_dynamics"@.len() == 17);
            assert("waveform_graticule"@.len() == 18);
            assert("bar_reflection"@.len() == 14);
            assert("stereo_divider"@.len() == 14);
            assert("baseline_ruler"@.len() == 14);
            assert("bar_cap"@.len() == 7);
            assert("bright_peaks"@[0] == 'b' && "ascii_glyphs"@[0] == 'a');
            assert("beat_pulse"@.len() == 10);
        },
        FlagKey::ReduceMotion => {
            reveal_strlit("ascii_glyphs");
            reveal_strlit("bar_cap");
            reveal_strlit("bar_reflection");
            reveal_strlit("baseline_ruler");
            reveal_strlit("beat_pulse");
            reveal_strlit("bit_format");
            reveal_strlit("bright_peaks");
            reveal_strlit("channels");
            reveal_strlit("data_format");
            reveal_strlit("general");
            reveal_strlit("input");
            reveal_strlit("method");
            reveal_strlit("mono_option");
            reveal_strlit("orientation");
            reveal_strlit("output");
            reveal_strlit("reduce_motion");
            reveal_strlit("reverse");
            reveal_strlit("show_idle_bar_heads");
            reveal_strlit("split_stereo");
            reveal_strlit("stereo_divider");
            reveal_strlit("waveform");
            reveal_strlit("waveform_baseline");
            reveal_strlit("waveform_dynamics");
            reveal_strlit("waveform_graticule");
            reveal_strlit("waveform_style");
            reveal_strlit("xaxis");
            assert("general"@.len() == 7);
            assert("input"@.len() == 5);
            assert("output"@.len() == 6 && "reduce_motion"@.len() == 13);
            assert("method"@.len() == 6);
            assert("orientation"@.len() == 11);
            assert("channels"@.len() == 8);
            assert("mono_option"@.len() == 11);
            assert("data_format"@.len() == 11);
            assert("bit_format"@.len() == 10);
            assert("xaxis"@.len() == 5);
            assert("waveform_style"@.len() == 14);
            assert("reverse"@.len() == 7);
            assert("split_stereo"@.len() == 12);
            assert("show_idle_bar_heads"@.len() == 19);
            assert("waveform"@.len() == 8);
            assert("waveform_baseline"@.len() == 17);
            assert("waveform_dynamics"@.len() == 17);
            assert("waveform_graticule"@.len() == 18);
            assert("bar_reflection"@.len() == 14);
            assert("stereo_divider"@.len() == 14);
            assert("baseline_ruler"@.len() == 14);
            assert("bar_cap"@.len() == 7);
            assert("bright_peaks"@.len() == 12);
            assert("beat_pulse"@.len() == 10);
            assert("ascii_glyphs"@.len() == 12);
        },
        FlagKey::DrawPeaks => {
            reveal_strlit("ascii_glyphs");
            reveal_strlit("bar_cap");
            reveal_strlit("bar_reflection");
            reveal_strlit("baseline_ruler");
            reveal_strlit("beat_pulse");
            reveal_strlit("bit_format");
            reveal_strlit("bright_peaks");
            reveal_strlit("channels");
            reveal_strlit("data_format");
            reveal_strlit("draw_peaks");
            reveal_strlit("general");
            reveal_strlit("input");
            reveal_strlit("method");
            reveal_strlit("mono_option");
            reveal_strlit("orientation");
            reveal_strlit("output");
            reveal_strlit("reduce_motion");
            reveal_strlit("reverse");
            reveal_strlit("show_idle_bar_heads");
            reveal_strlit("split_stereo");
            reveal_strlit("stereo_divider");
            reveal_strlit("waveform");
            reveal_strlit("waveform_baseline");
            reveal_strlit("waveform_dynamics");
            reveal_strlit("waveform_graticule");
            reveal_strlit("waveform_style");
            reveal_strlit("xaxis");
            assert("general"@.len() == 7);
            assert("input"@.len() == 5);
            assert("output"@.len() == 6 && "draw_peaks"@.len() == 10);
            assert("method"@.len() == 6);
            assert("orientation"@.len() == 11);
            assert("channels"@.len() == 8);
            assert("mono_option"@.len() == 11);
            assert("data_format"@.len() == 11);
            assert("bit_format"@[0] == 'b' && "draw_peaks"@[0] == 'd');
            assert("xaxis"@.len() == 5);
            assert("waveform_style"@.len() == 14);
            assert("reverse"@.len() == 7);
            assert("split_stereo"@.len() == 12);
            assert("show_idle_bar_heads"@.len() == 19);
            assert("waveform"@.len() == 8);
            assert("waveform_baseline"@.len() == 17);
            assert("waveform_dynamics"@.len() == 17);
            assert("waveform_graticule"@.len() == 18);
            assert("bar_reflection"@.len() == 14);
            assert("stereo_divider"@.len() == 14);
            assert("baseline_ruler"@.len() == 14);
            assert("bar_cap"@.len() == 7);
            assert("bright_peaks"@.len() == 12);
            assert("beat_pulse"@[0] == 'b' && "draw_peaks"@[0] == 'd');
            assert("ascii_glyphs"@.len() == 12);
            assert("reduce_motion"@.len() == 13);
        },
        FlagKey::Gradient => {
            reveal_strlit("background");
            reveal_strlit("color");
            reveal_strlit("foreground");
            reveal_strlit("general");
            reveal_strlit("gradient");
            reveal_strlit("input");
            reveal_strlit("output");
            assert("general"@.len() == 7);
            assert("input"@[0] == 'i' && "color"@[0] == 'c');
            assert("output"@.len() == 6);
            assert("color"@.len() == 5 && "gradient"@.len() == 8);
            assert("background"@.len() == 10);
            assert("foreground"@.len() == 10);
        },
        FlagKey::HorizontalGradient => {
            reveal_strlit("background");
            reveal_strlit("color");
            reveal_strlit("foreground");
            reveal_strlit("general");
            reveal_strlit("gradient");
            reveal_strlit("gradient_color_");
            reveal_strlit("gradient_count");
            reveal_strlit("horizontal_gradient");
            reveal_strlit("input");
            reveal_strlit("output");
            assert("general"@.len() == 7);
            assert("input"@[0] == 'i' && "color"@[0] == 'c');
            assert("output"@.len() == 6);
            assert("color"@.len() == 5 && "horizontal_gradient"@.len() == 19);
            assert("background"@.len() == 10);
            assert("foreground"@.len() == 10);
            assert("gradient"@.len() == 8);
            assert("gradient_count"@.len() == 14);
            assert("horizontal_gradient"@.take(15)[0] == 'h' && "gradient_color_"@[0] == 'g');
        },
        FlagKey::Spectrum => {
            reveal_strlit("background");
            reveal_strlit("blend_direction");
            reveal_strlit("color");
            reveal_strlit("foreground");
            reveal_strlit("general");
            reveal_strlit("gradient");
            reveal_strlit("gradient_color_");
            reveal_strlit("gradient_count");
            reveal_strlit("horizontal_gradient");
            reveal_strlit("horizontal_gradient_color_");
            reveal_strlit("horizontal_gradient_count");
            reveal_strlit("input");
            reveal_strlit("output");
            reveal_strlit("spectrum");
            assert("general"@.len() == 7);
            assert("input"@[0] == 'i' && "color"@[0] == 'c');
            assert("output"@.len() == 6);
            assert("color"@.len() == 5 && "spectrum"@.len() == 8);
            assert("background"@.len() == 10);
            assert("foreground"@.len() == 10);
            assert("gradient"@[0] == 'g' && "spectrum"@[0] == 's');
            assert("gradient_count"@.len() == 14);
            assert("horizontal_gradient"@.len() == 19);
            assert("horizontal_gradient_count"@.len() == 25);
            assert("blend_direction"@.len() == 15);
        },
        FlagKey::BackgroundGradient => {
            reveal_strlit("background");
            reveal_strlit("background_gradient");
            reveal_strlit("blend_direction");
            reveal_strlit("color");
            reveal_strlit("foreground");
            reveal_strlit("general");
            reveal_strlit("gradient");
            reveal_strlit("gradient_color_");
            reveal_strlit("gradient_count");
            reveal_strlit("horizontal_gradient");
            reveal_strlit("horizontal_gradient_color_");
            reveal_strlit("horizontal_gradient_count");
            reveal_strlit("input");
            reveal_strlit("output");
            reveal_strlit("spectrum");
            assert("general"@.len() == 7);
            assert("input"@[0] == 'i' && "color"@[0] == 'c');
            assert("output"@.len() == 6);
            assert("color"@.len() == 5 && "background_gradient"@.len() == 19);
            assert("background"@.len() == 10);
            assert("foreground"@.len() == 10);
            assert("gradient"@.len() == 8);
            assert("gradient_count"@.len() == 14);
            assert("background_gradient"@.take(15)[0] == 'b' && "gradient_color_"@[0] == 'g');
            assert("horizontal_gradient"@[0] == 'h' && "background_gradient"@[0] == 'b');
            assert("horizontal_gradient_count"@.len() == 25);
            assert("blend_direction"@.len() == 15);
            assert("spectrum"@.len() == 8);
        },
        FlagKey::Waves => {
            reveal_strlit("color");
            reveal_strlit("general");
            reveal_strlit("input");
            reveal_strlit("output");
            reveal_strlit("smoothing");
            reveal_strlit("waves");
            assert("general"@.len() == 7);
            assert("input"@.len() == 5);
            assert("output"@.len() == 6);
            assert("color"@.len() == 5);
            assert("smoothing"@.len() == 9 && "waves"@.len() == 5);
        },
    }
}

/// Every integer setting, written under its own section and key, reads as
/// that setting with the number read (and clamped) from the value.
#[verifier::rlimit(50)]
pub proof fn lemma_count_keys_read_back(k: CountKey, v: Seq<char>)
    ensures
        ini_setting(count_key_name(k).0, count_key_name(k).1, v) == count_setting(k, v),
{
    match k {
        CountKey::Framerate => {
            reveal_strlit("center_align");
            reveal_strlit("framerate");
            reveal_strlit("general");
            reveal_strlit("live-config");
            reveal_strlit("live_config");
            reveal_strlit("scaling");
            reveal_strlit("wrap_bars");
            assert("general"@.len() == 7 && "framerate"@.len() == 9);
            assert("scaling"@.len() == 7);
            assert("live-config"@.len() == 11);
            assert("live_config"@.len() == 11);
            assert("center_align"@.len() == 12);
            assert("wrap_bars"@[0] == 'w' && "framerate"@[0] == 'f');
        },
        CountKey::Autosens => {
            reveal_strlit("autosens");
            reveal_strlit("center_align");
            reveal_strlit("framerate");
            reveal_strlit("general");
            reveal_strlit("live-config");
            reveal_strlit("live_config");
            reveal_strlit("scaling");
            reveal_strlit("wrap_bars");
            assert("general"@.len() == 7 && "autosens"@.len() == 8);
            assert("scaling"@.len() == 7);
            assert("live-config"@.len() == 11);
            assert("live_config"@.len() == 11);
            assert("center_align"@.len() == 12);
            assert("wrap_bars"@.len() == 9);
            assert("framerate"@.len() == 9);
        },
        CountKey::Bars => {
            reveal_strlit("autosens");
            reveal_strlit("bars");
            reveal_strlit("center_align");
            reveal_strlit("framerate");
            reveal_strlit("general");
            reveal_strlit("live-config");
            reveal_strlit("live_config");
            reveal_strlit("scaling");
            reveal_strlit("wrap_bars");
            assert("general"@.len() == 7 && "bars"@.len() == 4);
            assert("scaling"@.len() == 7);
            assert("live-config"@.len() == 11);
            assert("live_config"@.len() == 11);
            assert("center_align"@.len() == 12);
            assert("wrap_bars"@.len() == 9);
            assert("framerate"@.len() == 9);
            assert("autosens"@.len() == 8);
        },
        CountKey::BarWidth => {
            reveal_strlit("autosens");
            reveal_strlit("bar_width");
            reveal_strlit("bars");
            reveal_strlit("center_align");
            reveal_strlit("framerate");
            reveal_strlit("general");
            reveal_strlit("live-config");
            reveal_strlit("live_config");
            reveal_strlit("scaling");
            reveal_strlit("wrap_bars");
            assert("general"@.len() == 7 && "bar_width"@.len() == 9);
            assert("scaling"@.len() == 7);
            assert("live-config"@.len() == 11);
            assert("live_config"@.len() == 11);
            assert("center_align"@.len() == 12);
            assert("wrap_bars"@[0] == 'w' && "bar_width"@[0] == 'b');
            assert("framerate"@[0] == 'f' && "bar_width"@[0] == 'b');
            assert("autosens"@.len() == 8);
            assert("bars"@.len() == 4);
        },
        CountKey::BarSpacing => {
            reveal_strlit("autosens");
            reveal_strlit("bar_spacing");
            reveal_strlit("bar_width");
            reveal_strlit("bars");
            reveal_strlit("center_align");
            reveal_strlit("framerate");
            reveal_strlit("general");
            reveal_strlit("live-config");
            reveal_strlit("live_config");
            reveal_strlit("scaling");
            reveal_strlit("wrap_bars");
            assert("general"@.len() == 7 && "bar_spacing"@.len() == 11);
            assert("scaling"@.len() == 7);
            assert("live-config"@[0] == 'l' && "bar_spacing"@[0] == 'b');
            assert("live_config"@[0] == 'l' && "bar_spacing"@[0] == 'b');
            assert("center_align"@.len() == 12);
            assert("wrap_bars"@.len() == 9);
            assert("framerate"@.len() == 9);
            assert("autosens"@.len() == 8);
            assert("bars"@.len() == 4);
            assert("bar_width"@.len() == 9);
        },
        CountKey::LowerCutoffFreq => {
            reveal_strlit("autosens");
            reveal_strlit("bar_spacing");
            reveal_strlit("bar_width");
            reveal_strlit("bars");
            reveal_strlit("center_align");
            reveal_strlit("framerate");
            reveal_strlit("general");
            reveal_strlit("live-config");
            reveal_strlit("live_config");
            reveal_strlit("lower_cutoff_freq");
            reveal_strlit("scaling");
            reveal_strlit("wrap_bars");
            assert("general"@.len() == 7 && "lower_cutoff_freq"@.len() == 17);
            assert("scaling"@.len() == 7);
            assert("live-config"@.len() == 11);
            assert("live_config"@.len() == 11);
            assert("center_align"@.len() == 12);
            assert("wrap_bars"@.len() == 9);
            assert("framerate"@.len() == 9);
            assert("autosens"@.len() == 8);
            assert("bars"@.len() == 4);
            assert("bar_width"@.len() == 9);
            assert("bar_spacing"@.len() == 11);
        },
        CountKey::HigherCutoffFreq => {
            reveal_strlit("autosens");
            reveal_strlit("bar_spacing");
            reveal_strlit("bar_width");
            reveal_strlit("bars");
            reveal_strlit("center_align");
            reveal_strlit("framerate");
            reveal_strlit("general");
            reveal_strlit("higher_cutoff_freq");
            reveal_strlit("live-config");
            reveal_strlit("live_config");
            reveal_strlit("lower_cutoff_freq");
            reveal_strlit("scaling");
            reveal_strlit("wrap_bars");
            assert("general"@.len() == 7 && "higher_cutoff_freq"@.len() == 18);
            assert("scaling"@.len() == 7);
            assert("live-config"@.len() == 11);
            assert("live_config"@.len() == 11);
            assert("center_align"@.len() == 12);
            assert("wrap_bars"@.len() == 9);
            assert("framerate"@.len() == 9);
            assert("autosens"@.len() == 8);
            assert("bars"@.len() == 4);
            assert("bar_width"@.len() == 9);
            assert("bar_spacing"@.len() == 11);
            assert("lower_cutoff_freq"@.len() == 17);
        },
        CountKey::SleepTimer => {
            reveal_strlit("autosens");
            reveal_strlit("bar_spacing");
            reveal_strlit("bar_width");
            reveal_strlit("bars");
            reveal_strlit("center_align");
            reveal_strlit("framerate");
            reveal_strlit("general");
            reveal_strlit("higher_cutoff_freq");
            reveal_strlit("live-config");
            reveal_strlit("live_config");
            reveal_strlit("lower_cutoff_freq");
            reveal_strlit("scaling");
            reveal_strlit("sleep_timer");
            reveal_strlit("wrap_bars");
            assert("general"@.len() == 7 && "sleep_timer"@.len() == 11);
            assert("scaling"@.len() == 7);
            assert("live-config"@[0] == 'l' && "sleep_timer"@[0] == 's');
            assert("live_config"@[0] == 'l' && "sleep_timer"@[0] == 's');
            assert("center_align"@.len() == 12);
            assert("wrap_bars"@.len() == 9);
            assert("framerate"@.len() == 9);
            assert("autosens"@.len() == 8);
            assert("bars"@.len() == 4);
            assert("bar_width"@.len() == 9);
            assert("bar_spacing"@[0] == 'b' && "sleep_timer"@[0] == 's');
            assert("lower_cutoff_freq"@.len() == 17);
            assert("higher_cutoff_freq"@.len() == 18);
        },
        CountKey::SampleRate => {
            reveal_strlit("general");
            reveal_strlit("input");
            reveal_strlit("method");
            reveal_strlit("sample_rate");
            assert("general"@.len() == 7);
            assert("input"@.len() == 5 && "sample_rate"@.len() == 11);
            assert("method"@.len() == 6);
        },
        CountKey::SampleBits => {
            reveal_strlit("general");
            reveal_strlit("input");
            reveal_strlit("method");
            reveal_strlit("sample_bits");
            reveal_strlit("sample_rate");
            assert("general"@.len() == 7);
            assert("input"@.len() == 5 && "sample_bits"@.len() == 11);
            assert("method"@.len() == 6);
            assert("sample_rate"@[7] == 'r' && "sample_bits"@[7] == 'b');
        },
        CountKey::InputChannels => {
            reveal_strlit("channels");
            reveal_strlit("general");
            reveal_strlit("input");
            reveal_strlit("method");
            reveal_strlit("sample_bits");
            reveal_strlit("sample_rate");
            assert("general"@.len() == 7);
            assert("input"@.len() == 5 && "channels"@.len() == 8);
            assert("method"@.len() == 6);
            assert("sample_rate"@.len() == 11);
            assert("sample_bits"@.len() == 11);
        },
        CountKey::AsciiMaxRange => {
            reveal_strlit("ascii_glyphs");
            reveal_strlit("ascii_max_range");
            reveal_strlit("bar_cap");
            reveal_strlit("bar_reflection");
            reveal_strlit("baseline_ruler");
            reveal_strlit("beat_pulse");
            reveal_strlit("bit_format");
            reveal_strlit("bright_peaks");
            reveal_strlit("channels");
            reveal_strlit("data_format");
            reveal_strlit("draw_peaks");
            reveal_strlit("general");
            reveal_strlit("input");
            reveal_strlit("method");
            reveal_strlit("mono_option");
            reveal_strlit("orientation");
            reveal_strlit("output");
            reveal_strlit("reduce_motion");
            reveal_strlit("reverse");
            reveal_strlit("show_idle_bar_heads");
            reveal_strlit("split_stereo");
            reveal_strlit("stereo_divider");
            reveal_strlit("waveform");
            reveal_strlit("waveform_baseline");
            reveal_strlit("waveform_dynamics");
            reveal_strlit("waveform_graticule");
            reveal_strlit("waveform_style");
            reveal_strlit("xaxis");
            assert("general"@.len() == 7);
            assert("input"@.len() == 5);
            assert("output"@.len() == 6 && "ascii_max_range"@.len() == 15);
            assert("method"@.len() == 6);
            assert("orientation"@.len() == 11);
            assert("channels"@.len() == 8);
            assert("mono_option"@.len() == 11);
            assert("data_format"@.len() == 11);
            assert("bit_format"@.len() == 10);
            assert("xaxis"@.len() == 5);
            assert("waveform_style"@.len() == 14);
            assert("reverse"@.len() == 7);
            assert("split_stereo"@.len() == 12);
            assert("show_idle_bar_heads"@.len() == 19);
            assert("waveform"@.len() == 8);
            assert("waveform_baseline"@.len() == 17);
            assert("waveform_dynamics"@.len() == 17);
            assert("waveform_graticule"@.len() == 18);
            assert("bar_reflection"@.len() == 14);
            assert("stereo_divider"@.len() == 14);
            assert("baseline_ruler"@.len() == 14);
            assert("bar_cap"@.len() == 7);
            assert("bright_peaks"@.len() == 12);
            assert("beat_pulse"@.len() == 10);
            assert("ascii_glyphs"@.len() == 12);
            assert("reduce_motion"@.len() == 13);
            assert("draw_peaks"@.len() == 10);
        },
        CountKey::BarDelimiter => {
            reveal_strlit("ascii_glyphs");
            reveal_strlit("ascii_max_range");
            reveal_strlit("bar_cap");
            reveal_strlit("bar_delimiter");
            reveal_strlit("bar_reflection");
            reveal_strlit("baseline_ruler");
            reveal_strlit("beat_pulse");
            reveal_strlit("bit_format");
            reveal_strlit("bright_peaks");
            reveal_strlit("channels");
            reveal_strlit("data_format");
            reveal_strlit("draw_peaks");
            reveal_strlit("general");
            reveal_strlit("input");
            reveal_strlit("method");
            reveal_strlit("mono_option");
            reveal_strlit("orientation");
            reveal_strlit("output");
            reveal_strlit("reduce_motion");
            reveal_strlit("reverse");
            reveal_strlit("show_idle_bar_heads");
            reveal_strlit("split_stereo");
            reveal_strlit("stereo_divider");
            reveal_strlit("waveform");
            reveal_strlit("waveform_baseline");
            reveal_strlit("waveform_dynamics");
            reveal_strlit("waveform_graticule");
            reveal_strlit("waveform_style");
            reveal_strlit("xaxis");
            assert("general"@.len() == 7);
            assert("input"@.len() == 5);
            assert("output"@.len() == 6 && "bar_delimiter"@.len() == 13);
            assert("method"@.len() == 6);
            assert("orientation"@.len() == 11);
            assert("channels"@.len() == 8);
            assert("mono_option"@.len() == 11);
            assert("data_format"@.len() == 11);
            assert("bit_format"@.len() == 10);
            assert("xaxis"@.len() == 5);
            assert("waveform_style"@.len() == 14);
            assert("reverse"@.len() == 7);
            assert("split_stereo"@.len() == 12);
            assert("show_idle_bar_heads"@.len() == 19);
            assert("waveform"@.len() == 8);
            assert("waveform_baseline"@.len() == 17);
            assert("waveform_dynamics"@.len() == 17);
            assert("waveform_graticule"@.len() == 18);
            assert("bar_reflection"@.len() == 14);
            assert("stereo_divider"@.len() == 14);
            assert("baseline_ruler"@.len() == 14);
            assert("bar_cap"@.len() == 7);
            assert("bright_peaks"@.len() == 12);
            assert("beat_pulse"@.len() == 10);
            assert("ascii_glyphs"@.len() == 12);
            assert("reduce_motion"@[0] == 'r' && "bar_delimiter"@[0] == 'b');
            assert("draw_peaks"@.len() == 10);
            assert("ascii_max_range"@.len() == 15);
        },
        CountKey::FrameDelimiter => {
            reveal_strlit("ascii_glyphs");
            reveal_strlit("ascii_max_range");
            reveal_strlit("bar_cap");
            reveal_strlit("bar_delimiter");
            reveal_strlit("bar_reflection");
            reveal_strlit("baseline_ruler");
            reveal_strlit("beat_pulse");
            reveal_strlit("bit_format");
            reveal_strlit("bright_peaks");
            reveal_strlit("channels");
            reveal_strlit("data_format");
            reveal_strlit("draw_peaks");
            reveal_strlit("frame_delimiter");
            reveal_strlit("general");
            reveal_strlit("input");
            reveal_strlit("method");
            reveal_strlit("mono_option");
            reveal_strlit("orientation");
            reveal_strlit("output");
            reveal_strlit("reduce_motion");
            reveal_strlit("reverse");
            reveal_strlit("show_idle_bar_heads");
            reveal_strlit("split_stereo");
            reveal_strlit("stereo_divider");
            reveal_strlit("waveform");
            reveal_strlit("waveform_baseline");
            reveal_strlit("waveform_dynamics");
            reveal_strlit("waveform_graticule");
            reveal_strlit("waveform_style");
            reveal_strlit("xaxis");
            assert("general"@.len() == 7);
            assert("input"@.len() == 5);
            assert("output"@.len() == 6 && "frame_delimiter"@.len() == 15);
            assert("method"@.len() == 6);
            assert("orientation"@.len() == 11);
            assert("channels"@.len() == 8);
            assert("mono_option"@.len() == 11);
            assert("data_format"@.len() == 11);
            assert("bit_format"@.len() == 10);
            assert("xaxis"@.len() == 5);
            assert("waveform_style"@.len() == 14);
            assert("reverse"@.len() == 7);
            assert("split_stereo"@.len() == 12);
            assert("show_idle_bar_heads"@.len() == 19);
            assert("waveform"@.len() == 8);
            assert("waveform_baseline"@.len() == 17);
            assert("waveform_dynamics"@.len() == 17);
            assert("waveform_graticule"@.len() == 18);
            assert("bar_reflection"@.len() == 14);
            assert("stereo_divider"@.len() == 14);
            assert("baseline_ruler"@.len() == 14);
            assert("bar_cap"@.len() == 7);
            assert("bright_peaks"@.len() == 12);
            assert("beat_pulse"@.len() == 10);
            assert("ascii_glyphs"@.len() == 12);
            assert("reduce_motion"@.len() == 13);
            assert("draw_peaks"@.len() == 10);
            assert("ascii_max_range"@[0] == 'a' && "frame_delimiter"@[0] == 'f');
            assert("bar_delimiter"@.len() == 13);
        },
    }
}

/// Every text setting, written under its own section and key, reads as that
/// setting (with the value text).
#[verifier::rlimit(50)]
pub proof fn lemma_text_keys_read_back(k: TextKey, v: Seq<char>)
    ensures
        ini_setting(text_key_name(k).0, text_key_name(k).1, v) == Some(IniSetting::Text(k)),
{
    match k {
        TextKey::Sensitivity => {
            reveal_strlit("autosens");
            reveal_strlit("bar_spacing");
            reveal_strlit("bar_width");
            reveal_strlit("bars");
            reveal_strlit("center_align");
            reveal_strlit("framerate");
            reveal_strlit("general");
            reveal_strlit("higher_cutoff_freq");
            reveal_strlit("live-config");
            reveal_strlit("live_config");
            reveal_strlit("lower_cutoff_freq");
            reveal_strlit("scaling");
            reveal_strlit("sensitivity");
            reveal_strlit("sleep_timer");
            reveal_strlit("wrap_bars");
            assert("general"@.len() == 7 && "sensitivity"@.len() == 11);
            assert("scaling"@.len() == 7);
            assert("live-config"@[0] == 'l' && "sensitivity"@[0] == 's');
            assert("live_config"@[0] == 'l' && "sensitivity"@[0] == 's');
            assert("center_align"@.len() == 12);
            assert("wrap_bars"@.len() == 9);
            assert("framerate"@.len() == 9);
            assert("autosens"@.len() == 8);
            assert("bars"@.len() == 4);
            assert("bar_width"@.len() == 9);
            assert("bar_spacing"@[0] == 'b' && "sensitivity"@[0] == 's');
            assert("lower_cutoff_freq"@.len() == 17);
            assert("higher_cutoff_freq"@.len() == 18);
            assert("sleep_timer"@[1] == 'l' && "sensitivity"@[1] == 'e');
        },
        TextKey::MaxHeight => {
            reveal_strlit("autosens");
            reveal_strlit("bar_spacing");
            reveal_strlit("bar_width");
            reveal_strlit("bars");
            reveal_strlit("center_align");
            reveal_strlit("framerate");
            reveal_strlit("general");
            reveal_strlit("higher_cutoff_freq");
            reveal_strlit("live-config");
            reveal_strlit("live_config");
            reveal_strlit("lower_cutoff_freq");
            reveal_strlit("max_height");
            reveal_strlit("scaling");
            reveal_strlit("sensitivity");
            reveal_strlit("sleep_timer");
            reveal_strlit("wrap_bars");
            assert("general"@.len() == 7 && "max_height"@.len() == 10);
            assert("scaling"@.len() == 7);
            assert("live-config"@.len() == 11);
            assert("live_config"@.len() == 11);
            assert("center_align"@.len() == 12);
            assert("wrap_bars"@.len() == 9);
            assert("framerate"@.len() == 9);
            assert("autosens"@.len() == 8);
            assert("bars"@.len() == 4);
            assert("bar_width"@.len() == 9);
            assert("bar_spacing"@.len() == 11);
            assert("lower_cutoff_freq"@.len() == 17);
            assert("higher_cutoff_freq"@.len() == 18);
            assert("sleep_timer"@.len() == 11);
            assert("sensitivity"@.len() == 11);
        },
        TextKey::Source => {
            reveal_strlit("channels");
            reveal_strlit("general");
            reveal_strlit("input");
            reveal_strlit("method");
            reveal_strlit("sample_bits");
            reveal_strlit("sample_rate");
            reveal_strlit("source");
            assert("general"@.len() == 7);
            assert("input"@.len() == 5 && "source"@.len() == 6);
            assert("method"@[0] == 'm' && "source"@[0] == 's');
            assert("sample_rate"@.len() == 11);
            assert("sample_bits"@.len() == 11);
            assert("channels"@.len() == 8);
        },
        TextKey::RawTarget => {
            reveal_strlit("ascii_glyphs");
            reveal_strlit("ascii_max_range");
            reveal_strlit("bar_cap");
            reveal_strlit("bar_delimiter");
            reveal_strlit("bar_reflection");
            reveal_strlit("baseline_ruler");
            reveal_strlit("beat_pulse");
            reveal_strlit("bit_format");
            reveal_strlit("bright_peaks");
            reveal_strlit("channels");
            reveal_strlit("data_format");
            reveal_strlit("draw_peaks");
            reveal_strlit("frame_delimiter");
            reveal_strlit("general");
            reveal_strlit("input");
            reveal_strlit("method");
            reveal_strlit("mono_option");
            reveal_strlit("orientation");
            reveal_strlit("output");
            reveal_strlit("raw_target");
            reveal_strlit("reduce_motion");
            reveal_strlit("reverse");
            reveal_strlit("show_idle_bar_heads");
            reveal_strlit("split_stereo");
            reveal_strlit("stereo_divider");
            reveal_strlit("waveform");
            reveal_strlit("waveform_baseline");
            reveal_strlit("waveform_dynamics");
            reveal_strlit("waveform_graticule");
            reveal_strlit("waveform_style");
            reveal_strlit("xaxis");
            assert("general"@.len() == 7);
            assert("input"@.len() == 5);
            assert("output"@.len() == 6 && "raw_target"@.len() == 10);
            assert("method"@.len() == 6);
            assert("orientation"@.len() == 11);
            assert("channels"@.len() == 8);
            assert("mono_option"@.len() == 11);
            assert("data_format"@.len() == 11);
            assert("bit_format"@[0] == 'b' && "raw_target"@[0] == 'r');
            assert("xaxis"@.len() == 5);
            assert("waveform_style"@.len() == 14);
            assert("reverse"@.len() == 7);
            assert("split_stereo"@.len() == 12);
            assert("show_idle_bar_heads"@.len() == 19);
            assert("waveform"@.len() == 8);
            assert("waveform_baseline"@.len() == 17);
            assert("waveform_dynamics"@.len() == 17);
            assert("waveform_graticule"@.len() == 18);
            assert("bar_reflection"@.len() == 14);
            assert("stereo_divider"@.len() == 14);
            assert("baseline_ruler"@.len() == 14);
            assert("bar_cap"@.len() == 7);
            assert("bright_peaks"@.len() == 12);
            assert("beat_pulse"@[0] == 'b' && "raw_target"@[0] == 'r');
            assert("ascii_glyphs"@.len() == 12);
            assert("reduce_motion"@.len() == 13);
            assert("draw_peaks"@[0] == 'd' && "raw_target"@[0] == 'r');
            assert("ascii_max_range"@.len() == 15);
            assert("bar_delimiter"@.len() == 13);
            assert("frame_delimiter"@.len() == 15);
        },
        TextKey::PeakDecay => {
            reveal_strlit("ascii_glyphs");
            reveal_strlit("ascii_max_range");
            reveal_strlit("bar_cap");
            reveal_strlit("bar_delimiter");
            reveal_strlit("bar_reflection");
            reveal_strlit("baseline_ruler");
            reveal_strlit("beat_pulse");
            reveal_strlit("bit_format");
            reveal_strlit("bright_peaks");
            reveal_strlit("channels");
            reveal_strlit("data_format");
            reveal_strlit("draw_peaks");
            reveal_strlit("frame_delimiter");
            reveal_strlit("general");
            reveal_strlit("input");
            reveal_strlit("method");
            reveal_strlit("mono_option");
            reveal_strlit("orientation");
            reveal_strlit("output");
            reveal_strlit("peak_decay");
            reveal_strlit("raw_target");
            reveal_strlit("reduce_motion");
            reveal_strlit("reverse");
            reveal_strlit("show_idle_bar_heads");
            reveal_strlit("split_stereo");
            reveal_strlit("stereo_divider");
            reveal_strlit("waveform");
            reveal_strlit("waveform_baseline");
            reveal_strlit("waveform_dynamics");
            reveal_strlit("waveform_graticule");
            reveal_strlit("waveform_style");
            reveal_strlit("xaxis");
            assert("general"@.len() == 7);
            assert("input"@.len() == 5);
            assert("output"@.len() == 6 && "peak_decay"@.len() == 10);
            assert("method"@.len() == 6);
            assert("orientation"@.len() == 11);
            assert("channels"@.len() == 8);
            assert("mono_option"@.len() == 11);
            assert("data_format"@.len() == 11);
            assert("bit_format"@[0] == 'b' && "peak_decay"@[0] == 'p');
            assert("xaxis"@.len() == 5);
            assert("waveform_style"@.len() == 14);
            assert("reverse"@.len() == 7);
            assert("split_stereo"@.len() == 12);
            assert("show_idle_bar_heads"@.len() == 19);
            assert("waveform"@.len() == 8);
            assert("waveform_baseline"@.len() == 17);
            assert("waveform_dynamics"@.len() == 17);
            assert("waveform_graticule"@.len() == 18);
            assert("bar_reflection"@.len() == 14);
            assert("stereo_divider"@.len() == 14);
            assert("baseline_ruler"@.len() == 14);
            assert("bar_cap"@.len() == 7);
            assert("bright_peaks"@.len() == 12);
            assert("beat_pulse"@[0] == 'b' && "peak_decay"@[0] == 'p');
            assert("ascii_glyphs"@.len() == 12);
            assert("reduce_motion"@.len() == 13);
            assert("draw_peaks"@[0] == 'd' && "peak_decay"@[0] == 'p');
            assert("ascii_max_range"@.len() == 15);
            assert("bar_delimiter"@.len() == 13);
            assert("frame_delimiter"@.len() == 15);
            assert("raw_target"@[0] == 'r' && "peak_decay"@[0] == 'p');
        },
        TextKey::Theme => {
            reveal_strlit("background");
            reveal_strlit("background_gradient");
            reveal_strlit("blend_direction");
            reveal_strlit("color");
            reveal_strlit("foreground");
            reveal_strlit("general");
            reveal_strlit("gradient");
            reveal_strlit("gradient_color_");
            reveal_strlit("gradient_count");
            reveal_strlit("horizontal_gradient");
            reveal_strlit("horizontal_gradient_color_");
            reveal_strlit("horizontal_gradient_count");
            reveal_strlit("input");
            reveal_strlit("output");
            reveal_strlit("spectrum");
            reveal_strlit("theme");
            assert("general"@.len() == 7);
            assert("input"@[0] == 'i' && "color"@[0] == 'c');
            assert("output"@.len() == 6);
            assert("color"@.len() == 5 && "theme"@.len() == 5);
            assert("background"@.len() == 10);
            assert("foreground"@.len() == 10);
            assert("gradient"@.len() == 8);
            assert("gradient_count"@.len() == 14);
            assert("horizontal_gradient"@.len() == 19);
            assert("horizontal_gradient_count"@.len() == 25);
            assert("blend_direction"@.len() == 15);
            assert("spectrum"@.len() == 8);
            assert("background_gradient"@.len() == 19);
        },
        TextKey::Monstercat => {
            reveal_strlit("color");
            reveal_strlit("general");
            reveal_strlit("input");
            reveal_strlit("monstercat");
            reveal_strlit("output");
            reveal_strlit("smoothing");
            reveal_strlit("waves");
            assert("general"@.len() == 7);
            assert("input"@.len() == 5);
            assert("output"@.len() == 6);
            assert("color"@.len() == 5);
            assert("smoothing"@.len() == 9 && "monstercat"@.len() == 10);
            assert("waves"@.len() == 5);
        },
        TextKey::NoiseReduction => {
            reveal_strlit("color");
            reveal_strlit("general");
            reveal_strlit("input");
            reveal_strlit("monstercat");
            reveal_strlit("noise_reduction");
            reveal_strlit("output");
            reveal_strlit("smoothing");
            reveal_strlit("waves");
            assert("general"@.len() == 7);
            assert("input"@.len() == 5);
            assert("output"@.len() == 6);
            assert("color"@.len() == 5);
            assert("smoothing"@.len() == 9 && "noise_reduction"@.len() == 15);
            assert("waves"@.len() == 5);
            assert("monstercat"@.len() == 10);
        },
        TextKey::Gravity => {
            reveal_strlit("color");
            reveal_strlit("general");
            reveal_strlit("gravity");
            reveal_strlit("input");
            reveal_strlit("monstercat");
            reveal_strlit("noise_reduction");
            reveal_strlit("output");
            reveal_strlit("smoothing");
            reveal_strlit("waves");
            assert("general"@.len() == 7);
            assert("input"@.len() == 5);
            assert("output"@.len() == 6);
            assert("color"@.len() == 5);
            assert("smoothing"@.len() == 9 && "gravity"@.len() == 7);
            assert("waves"@.len() == 5);
            assert("monstercat"@.len() == 10);
            assert("noise_reduction"@.len() == 15);
        },
    }
}

} // verus!
