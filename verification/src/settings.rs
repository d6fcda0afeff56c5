//! The whole-number, on/off and named settings of the `[general]`,
//! `[output]` and `[smoothing]` sections, and how a read configuration
//! sets them: each field takes the last value the text gives it.

use vstd::prelude::*;
use crate::config::{
    count_max, last_count, last_flag, last_text, valid_entry, BitFormat, CountKey, DataFormat, FlagKey,
    IniEntry, IniSetting, MonoOption, Orientation, OutputMethod, ScalingMode, TextKey, WaveformStyle, XAxis,
};
use crate::text::{chars_of, string_of};

verus! {

/// The value that the last entry of `es` that `pick` accepts gives, or `d`
/// when no entry does.
pub open spec fn last_of<T>(es: Seq<IniEntry>, pick: spec_fn(IniSetting) -> Option<T>, d: T) -> T
    decreases es.len(),
{
    if es.len() == 0 {
        d
    } else {
        match pick(es.last().setting) {
            Some(v) => v,
            None => last_of(es.drop_last(), pick, d),
        }
    }
}

pub open spec fn pick_scaling() -> spec_fn(IniSetting) -> Option<ScalingMode> {
    |s: IniSetting| if let IniSetting::Scaling(m) = s { Some(m) } else { None }
}

pub open spec fn pick_output() -> spec_fn(IniSetting) -> Option<OutputMethod> {
    |s: IniSetting| if let IniSetting::Output(m) = s { Some(m) } else { None }
}

pub open spec fn pick_orientation() -> spec_fn(IniSetting) -> Option<Orientation> {
    |s: IniSetting| if let IniSetting::Orient(o) = s { Some(o) } else { None }
}

pub open spec fn pick_mono() -> spec_fn(IniSetting) -> Option<MonoOption> {
    |s: IniSetting| if let IniSetting::Mono(m) = s { Some(m) } else { None }
}

pub open spec fn pick_data() -> spec_fn(IniSetting) -> Option<DataFormat> {
    |s: IniSetting| if let IniSetting::Data(d) = s { Some(d) } else { None }
}

pub open spec fn pick_bits() -> spec_fn(IniSetting) -> Option<BitFormat> {
    |s: IniSetting| if let IniSetting::Bits(b) = s { Some(b) } else { None }
}

pub open spec fn pick_axis() -> spec_fn(IniSetting) -> Option<XAxis> {
    |s: IniSetting| if let IniSetting::Axis(x) = s { Some(x) } else { None }
}

pub open spec fn pick_style() -> spec_fn(IniSetting) -> Option<WaveformStyle> {
    |s: IniSetting| if let IniSetting::Style(w) = s { Some(w) } else { None }
}

pub open spec fn pick_channels() -> spec_fn(IniSetting) -> Option<u32> {
    |s: IniSetting| if let IniSetting::OutputChannels(c) = s { Some(c) } else { None }
}

/// Reading one more entry: the field takes that entry's value if it has
/// one for the field, and keeps the value it had otherwise.
pub proof fn lemma_last_of_step<T>(es: Seq<IniEntry>, i: int, pick: spec_fn(IniSetting) -> Option<T>, d: T)
    requires
        0 <= i < es.len(),
    ensures
        last_of(es.take(i + 1), pick, d) == match pick(es[i].setting) {
            Some(v) => v,
            None => last_of(es.take(i), pick, d),
        },
{
    assert(es.take(i + 1).drop_last() =~= es.take(i));
    assert(es.take(i + 1).last() == es[i]);
}

/// Reading the same entries a second time leaves a field as the first
/// reading left it.
pub proof fn lemma_last_of_twice<T>(es: Seq<IniEntry>, pick: spec_fn(IniSetting) -> Option<T>, d: T)
    ensures
        last_of(es, pick, last_of(es, pick, d)) == last_of(es, pick, d),
    decreases es.len(),
{
    if es.len() > 0 {
        lemma_last_of_twice(es.drop_last(), pick, d);
    }
}

/// Reading valid entries leaves the output with one or two channels when it
/// had one or two before.
pub proof fn lemma_channels_stay_mono_or_stereo(es: Seq<IniEntry>, d: u32)
    requires
        forall|j: int| 0 <= j < es.len() ==> valid_entry(#[trigger] es[j].setting),
        d == 1 || d == 2,
    ensures
        last_of(es, pick_channels(), d) == 1 || last_of(es, pick_channels(), d) == 2,
    decreases es.len(),
{
    if es.len() > 0 {
        assert(valid_entry(es[es.len() - 1].setting));
        lemma_channels_stay_mono_or_stereo(es.drop_last(), d);
    }
}

/// The `[general]` settings that are whole numbers, switches or names.
#[derive(Debug, Clone)]
pub struct GeneralSettings {
    pub framerate: u32,
    pub autosens: u32,
    pub scaling: ScalingMode,
    pub bars: usize,
    pub bar_width: usize,
    pub bar_spacing: usize,
    pub center_align: bool,
    pub wrap_bars: bool,
    pub lower_cutoff_freq: u32,
    pub higher_cutoff_freq: u32,
    pub sleep_timer: u32,
    pub live_config: bool,
}

impl GeneralSettings {
    /// Applies the `[general]` settings of `es` in order: later values win.
    pub fn apply_ini(&mut self, es: &Vec<IniEntry>)
        requires
            forall|j: int| 0 <= j < es@.len() ==> valid_entry(#[trigger] es@[j].setting),
        ensures
            final(self).framerate == last_count(es@, CountKey::Framerate, old(self).framerate as nat),
            final(self).autosens == last_count(es@, CountKey::Autosens, old(self).autosens as nat),
            final(self).scaling == last_of(es@, pick_scaling(), old(self).scaling),
            final(self).bars == last_count(es@, CountKey::Bars, old(self).bars as nat),
            final(self).bar_width == last_count(es@, CountKey::BarWidth, old(self).bar_width as nat),
            final(self).bar_spacing == last_count(es@, CountKey::BarSpacing, old(self).bar_spacing as nat),
            final(self).center_align == last_flag(es@, FlagKey::CenterAlign, old(self).center_align),
            final(self).wrap_bars == last_flag(es@, FlagKey::WrapBars, old(self).wrap_bars),
            final(self).lower_cutoff_freq == last_count(es@, CountKey::LowerCutoffFreq, old(self).lower_cutoff_freq as nat),
            final(self).higher_cutoff_freq == last_count(es@, CountKey::HigherCutoffFreq, old(self).higher_cutoff_freq as nat),
            final(self).sleep_timer == last_count(es@, CountKey::SleepTimer, old(self).sleep_timer as nat),
            final(self).live_config == last_flag(es@, FlagKey::LiveConfig, old(self).live_config),
    {
        let mut i: usize = 0;
        while i < es.len()
            invariant
                0 <= i <= es@.len(),
                forall|j: int| 0 <= j < es@.len() ==> valid_entry(#[trigger] es@[j].setting),
                self.framerate == last_count(es@.take(i as int), CountKey::Framerate, old(self).framerate as nat),
                self.autosens == last_count(es@.take(i as int), CountKey::Autosens, old(self).autosens as nat),
                self.scaling == last_of(es@.take(i as int), pick_scaling(), old(self).scaling),
                self.bars == last_count(es@.take(i as int), CountKey::Bars, old(self).bars as nat),
                self.bar_width == last_count(es@.take(i as int), CountKey::BarWidth, old(self).bar_width as nat),
                self.bar_spacing == last_count(es@.take(i as int), CountKey::BarSpacing, old(self).bar_spacing as nat),
                self.center_align == last_flag(es@.take(i as int), FlagKey::CenterAlign, old(self).center_align),
                self.wrap_bars == last_flag(es@.take(i as int), FlagKey::WrapBars, old(self).wrap_bars),
                self.lower_cutoff_freq == last_count(es@.take(i as int), CountKey::LowerCutoffFreq, old(self).lower_cutoff_freq as nat),
                self.higher_cutoff_freq == last_count(es@.take(i as int), CountKey::HigherCutoffFreq, old(self).higher_cutoff_freq as nat),
                self.sleep_timer == last_count(es@.take(i as int), CountKey::SleepTimer, old(self).sleep_timer as nat),
                self.live_config == last_flag(es@.take(i as int), FlagKey::LiveConfig, old(self).live_config),
            decreases es@.len() - i,
        {
            proof {
                assert(es@.take(i + 1).drop_last() == es@.take(i as int));
                assert(es@.take(i + 1).last() == es@[i as int]);
                assert(valid_entry(es@[i as int].setting));
            }
            match es[i].setting {
                IniSetting::Count(CountKey::Framerate, v) => self.framerate = v as u32,
                IniSetting::Count(CountKey::Autosens, v) => self.autosens = v as u32,
                IniSetting::Scaling(m) => self.scaling = m,
                IniSetting::Count(CountKey::Bars, v) => self.bars = v as usize,
                IniSetting::Count(CountKey::BarWidth, v) => self.bar_width = v as usize,
                IniSetting::Count(CountKey::BarSpacing, v) => self.bar_spacing = v as usize,
                IniSetting::Flag(FlagKey::CenterAlign, v) => self.center_align = v,
                IniSetting::Flag(FlagKey::WrapBars, v) => self.wrap_bars = v,
                IniSetting::Count(CountKey::LowerCutoffFreq, v) => self.lower_cutoff_freq = v as u32,
                IniSetting::Count(CountKey::HigherCutoffFreq, v) => self.higher_cutoff_freq = v as u32,
                IniSetting::Count(CountKey::SleepTimer, v) => self.sleep_timer = v as u32,
                IniSetting::Flag(FlagKey::LiveConfig, v) => self.live_config = v,
                _ => {},
            }
            i = i + 1;
        }
        proof {
            assert(es@.take(es@.len() as int) == es@);
        }
    }
}

/// The `[smoothing]` settings that are switches.
#[derive(Debug, Clone)]
pub struct SmoothingSettings {
    pub waves: bool,
}

impl SmoothingSettings {
    /// Applies the `[smoothing]` switches of `es` in order: later values win.
    pub fn apply_ini(&mut self, es: &Vec<IniEntry>)
        ensures
            final(self).waves == last_flag(es@, FlagKey::Waves, old(self).waves),
    {
        let mut i: usize = 0;
        while i < es.len()
            invariant
                0 <= i <= es@.len(),
                self.waves == last_flag(es@.take(i as int), FlagKey::Waves, old(self).waves),
            decreases es@.len() - i,
        {
            proof {
                assert(es@.take(i + 1).drop_last() == es@.take(i as int));
                assert(es@.take(i + 1).last() == es@[i as int]);
            }
            match es[i].setting {
                IniSetting::Flag(FlagKey::Waves, v) => self.waves = v,
                _ => {},
            }
            i = i + 1;
        }
        proof {
            assert(es@.take(es@.len() as int) == es@);
        }
    }
}

/// The `[output]` settings that are whole numbers, switches, names or text.
#[derive(Debug, Clone)]
pub struct OutputSettings {
    pub method: OutputMethod,
    pub orientation: Orientation,
    pub mono_option: MonoOption,
    pub data_format: DataFormat,
    pub bit_format: BitFormat,
    pub xaxis: XAxis,
    pub waveform_style: WaveformStyle,
    pub channels: u32,
    pub raw_target: String,
    pub ascii_max_range: u32,
    pub bar_delimiter: u8,
    pub frame_delimiter: u8,
    pub reverse: bool,
    pub split_stereo: bool,
    pub show_idle_bar_heads: bool,
    pub waveform: bool,
    pub waveform_baseline: bool,
    pub waveform_dynamics: bool,
    pub waveform_graticule: bool,
    pub bar_reflection: bool,
    pub stereo_divider: bool,
    pub baseline_ruler: bool,
    pub bar_cap: bool,
    pub bright_peaks: bool,
    pub beat_pulse: bool,
    pub ascii_glyphs: bool,
    pub reduce_motion: bool,
    pub draw_peaks: bool,
}

impl OutputSettings {
    /// Applies the `[output]` settings of `es` in order: later values win.
    pub fn apply_ini(&mut self, es: &Vec<IniEntry>)
        requires
            forall|j: int| 0 <= j < es@.len() ==> valid_entry(#[trigger] es@[j].setting),
        ensures
            final(self).method == last_of(es@, pick_output(), old(self).method),
            final(self).orientation == last_of(es@, pick_orientation(), old(self).orientation),
            final(self).mono_option == last_of(es@, pick_mono(), old(self).mono_option),
            final(self).data_format == last_of(es@, pick_data(), old(self).data_format),
            final(self).bit_format == last_of(es@, pick_bits(), old(self).bit_format),
            final(self).xaxis == last_of(es@, pick_axis(), old(self).xaxis),
            final(self).waveform_style == last_of(es@, pick_style(), old(self).waveform_style),
            final(self).channels == last_of(es@, pick_channels(), old(self).channels),
            final(self).raw_target@ == last_text(es@, TextKey::RawTarget, old(self).raw_target@),
            final(self).ascii_max_range == last_count(es@, CountKey::AsciiMaxRange, old(self).ascii_max_range as nat),
            final(self).bar_delimiter == last_count(es@, CountKey::BarDelimiter, old(self).bar_delimiter as nat),
            final(self).frame_delimiter == last_count(es@, CountKey::FrameDelimiter, old(self).frame_delimiter as nat),
            final(self).reverse == last_flag(es@, FlagKey::Reverse, old(self).reverse),
            final(self).split_stereo == last_flag(es@, FlagKey::SplitStereo, old(self).split_stereo),
            final(self).show_idle_bar_heads == last_flag(es@, FlagKey::ShowIdleBarHeads, old(self).show_idle_bar_heads),
            final(self).waveform == last_flag(es@, FlagKey::Waveform, old(self).waveform),
            final(self).waveform_baseline == last_flag(es@, FlagKey::WaveformBaseline, old(self).waveform_baseline),
            final(self).waveform_dynamics == last_flag(es@, FlagKey::WaveformDynamics, old(self).waveform_dynamics),
            final(self).waveform_graticule == last_flag(es@, FlagKey::WaveformGraticule, old(self).waveform_graticule),
            final(self).bar_reflection == last_flag(es@, FlagKey::BarReflection, old(self).bar_reflection),
            final(self).stereo_divider == last_flag(es@, FlagKey::StereoDivider, old(self).stereo_divider),
            final(self).baseline_ruler == last_flag(es@, FlagKey::BaselineRuler, old(self).baseline_ruler),
            final(self).bar_cap == last_flag(es@, FlagKey::BarCap, old(self).bar_cap),
            final(self).bright_peaks == last_flag(es@, FlagKey::BrightPeaks, old(self).bright_peaks),
            final(self).beat_pulse == last_flag(es@, FlagKey::BeatPulse, old(self).beat_pulse),
            final(self).ascii_glyphs == last_flag(es@, FlagKey::AsciiGlyphs, old(self).ascii_glyphs),
            final(self).reduce_motion == last_flag(es@, FlagKey::ReduceMotion, old(self).reduce_motion),
            final(self).draw_peaks == last_flag(es@, FlagKey::DrawPeaks, old(self).draw_peaks),
    {
        let method = output_value(es, self.method);
        let orientation = orientation_value(es, self.orientation);
        let mono_option = mono_value(es, self.mono_option);
        let data_format = data_value(es, self.data_format);
        let bit_format = bits_value(es, self.bit_format);
        let xaxis = axis_value(es, self.xaxis);
        let waveform_style = style_value(es, self.waveform_style);
        let channels = channels_value(es, self.channels);
        let raw_target = text_value(es, TextKey::RawTarget, &self.raw_target);
        proof {
            lemma_count_fits(es@, CountKey::AsciiMaxRange, self.ascii_max_range as nat);
        }
        let ascii_max_range = count_value(es, CountKey::AsciiMaxRange, self.ascii_max_range as u64) as u32;
        proof {
            lemma_count_fits(es@, CountKey::BarDelimiter, self.bar_delimiter as nat);
        }
        let bar_delimiter = count_value(es, CountKey::BarDelimiter, self.bar_delimiter as u64) as u8;
        proof {
            lemma_count_fits(es@, CountKey::FrameDelimiter, self.frame_delimiter as nat);
        }
        let frame_delimiter = count_value(es, CountKey::FrameDelimiter, self.frame_delimiter as u64) as u8;
        let reverse = flag_value(es, FlagKey::Reverse, self.reverse);
        let split_stereo = flag_value(es, FlagKey::SplitStereo, self.split_stereo);
        let show_idle_bar_heads = flag_value(es, FlagKey::ShowIdleBarHeads, self.show_idle_bar_heads);
        let waveform = flag_value(es, FlagKey::Waveform, self.waveform);
        let waveform_baseline = flag_value(es, FlagKey::WaveformBaseline, self.waveform_baseline);
        let waveform_dynamics = flag_value(es, FlagKey::WaveformDynamics, self.waveform_dynamics);
        let waveform_graticule = flag_value(es, FlagKey::WaveformGraticule, self.waveform_graticule);
        let bar_reflection = flag_value(es, FlagKey::BarReflection, self.bar_reflection);
        let stereo_divider = flag_value(es, FlagKey::StereoDivider, self.stereo_divider);
        let baseline_ruler = flag_value(es, FlagKey::BaselineRuler, self.baseline_ruler);
        let bar_cap = flag_value(es, FlagKey::BarCap, self.bar_cap);
        let bright_peaks = flag_value(es, FlagKey::BrightPeaks, self.bright_peaks);
        let beat_pulse = flag_value(es, FlagKey::BeatPulse, self.beat_pulse);
        let ascii_glyphs = flag_value(es, FlagKey::AsciiGlyphs, self.ascii_glyphs);
        let reduce_motion = flag_value(es, FlagKey::ReduceMotion, self.reduce_motion);
        let draw_peaks = flag_value(es, FlagKey::DrawPeaks, self.draw_peaks);
        *self = OutputSettings {
            method,
            orientation,
            mono_option,
            data_format,
            bit_format,
            xaxis,
            waveform_style,
            channels,
            raw_target,
            ascii_max_range,
            bar_delimiter,
            frame_delimiter,
            reverse,
            split_stereo,
            show_idle_bar_heads,
            waveform,
            waveform_baseline,
            waveform_dynamics,
            waveform_graticule,
            bar_reflection,
            stereo_divider,
            baseline_ruler,
            bar_cap,
            bright_peaks,
            beat_pulse,
            ascii_glyphs,
            reduce_motion,
            draw_peaks,
        };
    }
}

/// The `method` setting after reading `es`, starting from `d`.
fn output_value(es: &Vec<IniEntry>, d: OutputMethod) -> (r: OutputMethod)
    ensures
        r == last_of(es@, pick_output(), d),
{
    let mut r = d;
    let mut i: usize = 0;
    while i < es.len()
        invariant
            0 <= i <= es@.len(),
            r == last_of(es@.take(i as int), pick_output(), d),
        decreases es@.len() - i,
    {
        proof {
            lemma_last_of_step(es@, i as int, pick_output(), d);
        }
        match es[i].setting {
            IniSetting::Output(x) => r = x,
            _ => {},
        }
        i = i + 1;
    }
    proof {
        assert(es@.take(es@.len() as int) == es@);
    }
    r
}

/// The `orientation` setting after reading `es`, starting from `d`.
fn orientation_value(es: &Vec<IniEntry>, d: Orientation) -> (r: Orientation)
    ensures
        r == last_of(es@, pick_orientation(), d),
{
    let mut r = d;
    let mut i: usize = 0;
    while i < es.len()
        invariant
            0 <= i <= es@.len(),
            r == last_of(es@.take(i as int), pick_orientation(), d),
        decreases es@.len() - i,
    {
        proof {
            lemma_last_of_step(es@, i as int, pick_orientation(), d);
        }
        match es[i].setting {
            IniSetting::Orient(x) => r = x,
            _ => {},
        }
        i = i + 1;
    }
    proof {
        assert(es@.take(es@.len() as int) == es@);
    }
    r
}

/// The `mono_option` setting after reading `es`, starting from `d`.
fn mono_value(es: &Vec<IniEntry>, d: MonoOption) -> (r: MonoOption)
    ensures
        r == last_of(es@, pick_mono(), d),
{
    let mut r = d;
    let mut i: usize = 0;
    while i < es.len()
        invariant
            0 <= i <= es@.len(),
            r == last_of(es@.take(i as int), pick_mono(), d),
        decreases es@.len() - i,
    {
        proof {
            lemma_last_of_step(es@, i as int, pick_mono(), d);
        }
        match es[i].setting {
            IniSetting::Mono(x) => r = x,
            _ => {},
        }
        i = i + 1;
    }
    proof {
        assert(es@.take(es@.len() as int) == es@);
    }
    r
}

/// The `data_format` setting after reading `es`, starting from `d`.
fn data_value(es: &Vec<IniEntry>, d: DataFormat) -> (r: DataFormat)
    ensures
        r == last_of(es@, pick_data(), d),
{
    let mut r = d;
    let mut i: usize = 0;
    while i < es.len()
        invariant
            0 <= i <= es@.len(),
            r == last_of(es@.take(i as int), pick_data(), d),
        decreases es@.len() - i,
    {
        proof {
            lemma_last_of_step(es@, i as int, pick_data(), d);
        }
        match es[i].setting {
            IniSetting::Data(x) => r = x,
            _ => {},
        }
        i = i + 1;
    }
    proof {
        assert(es@.take(es@.len() as int) == es@);
    }
    r
}

/// The `bit_format` setting after reading `es`, starting from `d`.
fn bits_value(es: &Vec<IniEntry>, d: BitFormat) -> (r: BitFormat)
    ensures
        r == last_of(es@, pick_bits(), d),
{
    let mut r = d;
    let mut i: usize = 0;
    while i < es.len()
        invariant
            0 <= i <= es@.len(),
            r == last_of(es@.take(i as int), pick_bits(), d),
        decreases es@.len() - i,
    {
        proof {
            lemma_last_of_step(es@, i as int, pick_bits(), d);
        }
        match es[i].setting {
            IniSetting::Bits(x) => r = x,
            _ => {},
        }
        i = i + 1;
    }
    proof {
        assert(es@.take(es@.len() as int) == es@);
    }
    r
}

/// The `xaxis` setting after reading `es`, starting from `d`.
fn axis_value(es: &Vec<IniEntry>, d: XAxis) -> (r: XAxis)
    ensures
        r == last_of(es@, pick_axis(), d),
{
    let mut r = d;
    let mut i: usize = 0;
    while i < es.len()
        invariant
            0 <= i <= es@.len(),
            r == last_of(es@.take(i as int), pick_axis(), d),
        decreases es@.len() - i,
    {
        proof {
            lemma_last_of_step(es@, i as int, pick_axis(), d);
        }
        match es[i].setting {
            IniSetting::Axis(x) => r = x,
            _ => {},
        }
        i = i + 1;
    }
    proof {
        assert(es@.take(es@.len() as int) == es@);
    }
    r
}

/// The `waveform_style` setting after reading `es`, starting from `d`.
fn style_value(es: &Vec<IniEntry>, d: WaveformStyle) -> (r: WaveformStyle)
    ensures
        r == last_of(es@, pick_style(), d),
{
    let mut r = d;
    let mut i: usize = 0;
    while i < es.len()
        invariant
            0 <= i <= es@.len(),
            r == last_of(es@.take(i as int), pick_style(), d),
        decreases es@.len() - i,
    {
        proof {
            lemma_last_of_step(es@, i as int, pick_style(), d);
        }
        match es[i].setting {
            IniSetting::Style(x) => r = x,
            _ => {},
        }
        i = i + 1;
    }
    proof {
        assert(es@.take(es@.len() as int) == es@);
    }
    r
}

/// The `channels` setting after reading `es`, starting from `d`.
fn channels_value(es: &Vec<IniEntry>, d: u32) -> (r: u32)
    ensures
        r == last_of(es@, pick_channels(), d),
{
    let mut r = d;
    let mut i: usize = 0;
    while i < es.len()
        invariant
            0 <= i <= es@.len(),
            r == last_of(es@.take(i as int), pick_channels(), d),
        decreases es@.len() - i,
    {
        proof {
            lemma_last_of_step(es@, i as int, pick_channels(), d);
        }
        match es[i].setting {
            IniSetting::OutputChannels(x) => r = x,
            _ => {},
        }
        i = i + 1;
    }
    proof {
        assert(es@.take(es@.len() as int) == es@);
    }
    r
}

/// The value of flag `k` after reading `es`, starting from `d`.
pub fn flag_value(es: &Vec<IniEntry>, k: FlagKey, d: bool) -> (r: bool)
    ensures
        r == last_flag(es@, k, d),
{
    let mut r = d;
    let mut i: usize = 0;
    while i < es.len()
        invariant
            0 <= i <= es@.len(),
            r == last_flag(es@.take(i as int), k, d),
        decreases es@.len() - i,
    {
        proof {
            assert(es@.take(i + 1).drop_last() == es@.take(i as int));
            assert(es@.take(i + 1).last() == es@[i as int]);
        }
        match es[i].setting {
            IniSetting::Flag(k2, v) => if k2 == k { r = v; },
            _ => {},
        }
        i = i + 1;
    }
    proof {
        assert(es@.take(es@.len() as int) == es@);
    }
    r
}

/// The value of integer setting `k` after reading `es`, starting from `d`.
pub fn count_value(es: &Vec<IniEntry>, k: CountKey, d: u64) -> (r: u64)
    ensures
        r == last_count(es@, k, d as nat),
{
    let mut r = d;
    let mut i: usize = 0;
    while i < es.len()
        invariant
            0 <= i <= es@.len(),
            r == last_count(es@.take(i as int), k, d as nat),
        decreases es@.len() - i,
    {
        proof {
            assert(es@.take(i + 1).drop_last() == es@.take(i as int));
            assert(es@.take(i + 1).last() == es@[i as int]);
        }
        match es[i].setting {
            IniSetting::Count(k2, v) => if k2 == k { r = v; },
            _ => {},
        }
        i = i + 1;
    }
    proof {
        assert(es@.take(es@.len() as int) == es@);
    }
    r
}

/// The text of text setting `k` after reading `es`, starting from `d`.
pub fn text_value(es: &Vec<IniEntry>, k: TextKey, d: &String) -> (r: String)
    ensures
        r@ == last_text(es@, k, d@),
{
    let mut r = string_of(&chars_of(d.as_str()));
    let mut i: usize = 0;
    while i < es.len()
        invariant
            0 <= i <= es@.len(),
            r@ == last_text(es@.take(i as int), k, d@),
        decreases es@.len() - i,
    {
        proof {
            assert(es@.take(i + 1).drop_last() == es@.take(i as int));
            assert(es@.take(i + 1).last() == es@[i as int]);
        }
        match es[i].setting {
            IniSetting::Text(k2) => if k2 == k { r = string_of(&chars_of(es[i].text.as_str())); },
            _ => {},
        }
        i = i + 1;
    }
    proof {
        assert(es@.take(es@.len() as int) == es@);
    }
    r
}

/// Reading valid entries keeps an integer setting within its type.
pub proof fn lemma_count_fits(es: Seq<IniEntry>, k: CountKey, d: nat)
    requires
        forall|j: int| 0 <= j < es.len() ==> valid_entry(#[trigger] es[j].setting),
        d <= count_max(k),
    ensures
        last_count(es, k, d) <= count_max(k),
    decreases es.len(),
{
    if es.len() > 0 {
        assert(valid_entry(es[es.len() - 1].setting));
        lemma_count_fits(es.drop_last(), k, d);
    }
}

} // verus!
