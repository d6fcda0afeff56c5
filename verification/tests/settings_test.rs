use zava::config::{parse_ini_entries, BitFormat, DataFormat, MonoOption, Orientation, OutputMethod, ScalingMode, WaveformStyle, XAxis};
use zava::settings::{GeneralSettings, OutputSettings, SmoothingSettings};

fn general() -> GeneralSettings {
    GeneralSettings {
        framerate: 60,
        autosens: 1,
        scaling: ScalingMode::Linear,
        bars: 0,
        bar_width: 2,
        bar_spacing: 1,
        center_align: true,
        wrap_bars: false,
        lower_cutoff_freq: 50,
        higher_cutoff_freq: 10000,
        sleep_timer: 0,
        live_config: false,
    }
}

fn output() -> OutputSettings {
    OutputSettings {
        method: OutputMethod::Noncurses,
        orientation: Orientation::Bottom,
        mono_option: MonoOption::Average,
        data_format: DataFormat::Binary,
        bit_format: BitFormat::Bits16,
        xaxis: XAxis::Off,
        waveform_style: WaveformStyle::Line,
        channels: 2,
        raw_target: "/dev/stdout".to_string(),
        ascii_max_range: 1000,
        bar_delimiter: 59,
        frame_delimiter: 10,
        reverse: false,
        split_stereo: false,
        show_idle_bar_heads: true,
        waveform: false,
        waveform_baseline: true,
        waveform_dynamics: false,
        waveform_graticule: false,
        bar_reflection: false,
        stereo_divider: false,
        baseline_ruler: false,
        bar_cap: false,
        bright_peaks: true,
        beat_pulse: false,
        ascii_glyphs: false,
        reduce_motion: false,
        draw_peaks: true,
    }
}

const TEXT: &str = "[general]\nframerate = 120\nbars = 50\nwrap_bars = true\nscaling = decibel\nframerate = 9999\n\
[output]\nmethod = raw\norientation = horizontal\nchannels = mono\nraw_target = /tmp/fifo\nbar_delimiter = 44\n\
xaxis = scale\nbar_cap = 1\ndraw_peaks = false\n[smoothing]\nwaves = true\n";

#[test]
fn general_settings_take_the_last_value_given() {
    let es = parse_ini_entries(TEXT);
    let mut g = general();
    g.apply_ini(&es);
    assert_eq!(g.framerate, 500);
    assert_eq!(g.bars, 50);
    assert!(g.wrap_bars);
    assert_eq!(g.scaling, ScalingMode::Decibel);
    assert_eq!(g.bar_width, 2);
}

#[test]
fn output_settings_take_the_last_value_given() {
    let es = parse_ini_entries(TEXT);
    let mut o = output();
    o.apply_ini(&es);
    assert_eq!(o.method, OutputMethod::Raw);
    assert_eq!(o.orientation, Orientation::Horizontal);
    assert_eq!(o.channels, 1);
    assert_eq!(o.raw_target, "/tmp/fifo");
    assert_eq!(o.bar_delimiter, 44);
    assert_eq!(o.xaxis, XAxis::Frequency);
    assert!(o.bar_cap);
    assert!(!o.draw_peaks);
    assert_eq!(o.frame_delimiter, 10);
    let mut s = SmoothingSettings { waves: false };
    s.apply_ini(&es);
    assert!(s.waves);
}

#[test]
fn reading_settings_twice_is_reading_them_once() {
    let es = parse_ini_entries(TEXT);
    let mut g1 = general();
    g1.apply_ini(&es);
    let mut g2 = g1.clone();
    g2.apply_ini(&es);
    assert_eq!(format!("{g1:?}"), format!("{g2:?}"));
    let mut o1 = output();
    o1.apply_ini(&es);
    let mut o2 = o1.clone();
    o2.apply_ini(&es);
    assert_eq!(format!("{o1:?}"), format!("{o2:?}"));
}
