use zava::audio::{decode_pcm, latest_start, monitor_from_info, monitor_from_sources, read_sizes, TestSignalBackend};
use zava::cli::{parse_args, CliRequest};
use zava::config::{BitFormat, DataFormat, InputMethod, MonoOption, OutputMethod, TerminalColor};
use zava::control::{
    apply_bar_key, bar_sources, calculate_bars_count, next_background, next_foreground, split_bars, BarSettings,
    BarSource, ChannelLayout,
};
use zava::dsp::{plan_sizes, PlanError};
use zava::events::{action_for_key, action_for_signal, ends_listening, ActionEvent, Key, Signal};
use zava::render::raw::RawRenderer;

fn args(v: &[&str]) -> Vec<String> {
    v.iter().map(|s| s.to_string()).collect()
}

#[test]
fn cli_version_and_help_stop_reading() {
    assert!(matches!(parse_args(&args(&["zava", "-v", "--test"])), CliRequest::Version));
    assert!(matches!(parse_args(&args(&["zava", "--help"])), CliRequest::Help));
}

#[test]
fn cli_options_take_their_values() {
    let r = parse_args(&args(&[
        "zava", "-p", "/tmp/c", "--method", "ALSA", "--output", "raw", "--channels", "Mono", "--source", "x",
        "--force", "--gen-config", "--test", "--bogus",
    ]));
    match r {
        CliRequest::Run(o) => {
            assert_eq!(o.config_path.as_deref(), Some("/tmp/c"));
            assert_eq!(o.method, Some(InputMethod::Alsa));
            assert_eq!(o.output, Some(OutputMethod::Raw));
            assert_eq!(o.channels, Some(1));
            assert_eq!(o.source.as_deref(), Some("x"));
            assert!(o.force_overwrite && o.generate_config && o.force_test);
        }
        _ => panic!("expected options"),
    }
    match parse_args(&args(&["zava", "--method", "nonsense", "--channels", "7", "--config"])) {
        CliRequest::Run(o) => {
            assert_eq!(o.method, Some(InputMethod::Pipewire));
            assert_eq!(o.channels, Some(2));
            // A trailing option without a value is ignored.
            assert_eq!(o.config_path, None);
        }
        _ => panic!("expected options"),
    }
}

#[test]
fn keys_and_signals_map_to_actions() {
    assert_eq!(action_for_key(Key::Char('q'), false, false), Some(ActionEvent::Quit));
    assert_eq!(action_for_key(Key::Char('c'), true, false), Some(ActionEvent::Quit));
    assert_eq!(action_for_key(Key::Char('c'), false, false), Some(ActionEvent::ReloadColors));
    assert_eq!(action_for_key(Key::Left, false, false), Some(ActionEvent::DecreaseBars));
    assert_eq!(action_for_key(Key::Right, false, true), None);
    assert_eq!(action_for_key(Key::Char('z'), false, false), None);
    assert_eq!(action_for_signal(Signal::Terminate), ActionEvent::Quit);
    assert_eq!(action_for_signal(Signal::WindowChange), ActionEvent::Resize);
    assert_eq!(action_for_signal(Signal::User2), ActionEvent::ReloadColors);
    assert!(ends_listening(Signal::Interrupt));
    assert!(!ends_listening(Signal::User1));
}

#[test]
fn bar_count_fits_and_stays_even_in_stereo() {
    let auto = BarSettings { bars: 0, bar_width: 2, bar_spacing: 1, wrap_bars: false };
    assert_eq!(calculate_bars_count(&auto, 100, 1), 33);
    assert_eq!(calculate_bars_count(&auto, 100, 2), 32);
    let fixed = BarSettings { bars: 50, ..auto };
    assert_eq!(calculate_bars_count(&fixed, 100, 1), 33);
    let few = BarSettings { bars: 10, ..auto };
    assert_eq!(calculate_bars_count(&few, 100, 2), 10);
    assert_eq!(split_bars(33, 2, 2), (32, 16));
    assert_eq!(split_bars(33, 1, 2), (33, 33));
    assert_eq!(split_bars(0, 2, 2), (2, 1));
}

#[test]
fn bar_keys_step_and_recount() {
    let fixed = BarSettings { bars: 33, bar_width: 2, bar_spacing: 1, wrap_bars: false };
    let more = apply_bar_key(&fixed, 100, true, 1, 1);
    assert_eq!(more.settings.bars, 33);
    assert_eq!(more.num_bars, 33);
    let fewer = apply_bar_key(&fixed, 100, false, 2, 2);
    // 32 bars, split over two channels.
    assert_eq!((fewer.num_bars, fewer.per_channel), (32, 16));
    assert_eq!(fewer.settings.bars, 32);
    let auto = BarSettings { bars: 0, ..fixed };
    let wider = apply_bar_key(&auto, 100, false, 1, 1);
    assert_eq!(wider.settings.bar_width, 3);
    assert_eq!(wider.settings.bars, 0);
    assert_eq!(wider.num_bars, 25);
}

#[test]
fn colour_keys_cycle() {
    assert_eq!(next_foreground(&TerminalColor::Default), TerminalColor::Red);
    assert_eq!(next_foreground(&TerminalColor::White), TerminalColor::Default);
    assert_eq!(next_foreground(&TerminalColor::Rgb(9, 9, 9)), TerminalColor::Red);
    assert_eq!(next_background(&TerminalColor::Cyan), TerminalColor::White);
    assert_eq!(next_background(&TerminalColor::Red), TerminalColor::Black);
}

fn layout(split: bool, reverse: bool, audio: usize, output: usize, mono: MonoOption) -> ChannelLayout {
    ChannelLayout {
        num_bars: 6,
        per_channel: 3,
        audio_channels: audio,
        output_channels: output,
        split_stereo: split,
        reverse,
        mono_option: mono,
        bands: 6,
    }
}

#[test]
fn stereo_layouts_place_the_bands() {
    let mirrored = bar_sources(&layout(false, false, 2, 2, MonoOption::Average));
    assert_eq!(mirrored, vec![BarSource::Band(2), BarSource::Band(1), BarSource::Band(0), BarSource::Band(3), BarSource::Band(4), BarSource::Band(5)]);
    let reversed = bar_sources(&layout(false, true, 2, 2, MonoOption::Average));
    assert_eq!(reversed, vec![BarSource::Band(0), BarSource::Band(1), BarSource::Band(2), BarSource::Band(5), BarSource::Band(4), BarSource::Band(3)]);
    let split = bar_sources(&layout(true, false, 2, 2, MonoOption::Average));
    assert_eq!(split, vec![BarSource::Band(0), BarSource::Band(1), BarSource::Band(2), BarSource::Band(3), BarSource::Band(4), BarSource::Band(5)]);
    let mixed = bar_sources(&layout(false, false, 2, 1, MonoOption::Average));
    assert_eq!(mixed, vec![BarSource::Mean(0, 3), BarSource::Mean(1, 4), BarSource::Mean(2, 5), BarSource::Silent, BarSource::Silent, BarSource::Silent]);
    let right = bar_sources(&layout(false, true, 2, 1, MonoOption::Right));
    assert_eq!(right, vec![BarSource::Silent, BarSource::Silent, BarSource::Silent, BarSource::Band(5), BarSource::Band(4), BarSource::Band(3)]);
    let mono = bar_sources(&ChannelLayout { bands: 4, ..layout(false, false, 1, 1, MonoOption::Left) });
    assert_eq!(mono, vec![BarSource::Band(0), BarSource::Band(1), BarSource::Band(2), BarSource::Band(3), BarSource::Silent, BarSource::Silent]);
}

#[test]
fn raw_frames_in_each_format() {
    let ascii = RawRenderer::new(DataFormat::Ascii, BitFormat::Bits16, 1000, b';', b'\n');
    assert_eq!(ascii.full_scale(), 1000);
    assert_eq!(ascii.ascii_frame(&[0, 500, 1000]), "0;500;1000\n");
    assert_eq!(ascii.ascii_frame(&[]), "\n");
    let b8 = RawRenderer::new(DataFormat::Binary, BitFormat::Bits8, 1000, b';', b'\n');
    assert_eq!(b8.full_scale(), 255);
    assert_eq!(b8.binary_frame(&[0, 7, 255]), vec![0u8, 7, 255]);
    let b16 = RawRenderer::new(DataFormat::Binary, BitFormat::Bits16, 1000, b';', b'\n');
    assert_eq!(b16.full_scale(), 65535);
    assert_eq!(b16.binary_frame(&[0x1234]), 0x1234u16.to_ne_bytes().to_vec());
}

#[test]
fn sixteen_bit_frames_use_one_byte_order_throughout() {
    let b16 = RawRenderer::new(DataFormat::Binary, BitFormat::Bits16, 1000, b';', b'\n');
    let vals = [0x0102u32, 0xff00, 0x00ff, 65535, 0, 0x1234];
    let mut expected = Vec::new();
    for v in vals {
        expected.extend_from_slice(&(v as u16).to_ne_bytes());
    }
    assert_eq!(b16.binary_frame(&vals), expected);
}

#[test]
fn dsp_plan_checks_and_sizes() {
    assert_eq!(plan_sizes(10, 44100, 3), Err(PlanError::IllegalChannels(3)));
    assert_eq!(plan_sizes(10, 0, 2), Err(PlanError::IllegalSampleRate(0)));
    assert_eq!(plan_sizes(0, 44100, 2), Err(PlanError::NoBars));
    let p = plan_sizes(10, 44100, 2).unwrap();
    assert_eq!((p.fft_buffer_size, p.fft_bass_size, p.input_buffer_size, p.total_bars), (4096, 8192, 16384, 20));
    assert_eq!(plan_sizes(1, 8000, 1).unwrap().fft_buffer_size, 512);
    assert_eq!(plan_sizes(1, 384000, 1).unwrap().fft_buffer_size, 32768);
}

#[test]
fn test_signal_counts_frames() {
    let mut t = TestSignalBackend::new(44100, 2);
    assert_eq!((t.sample_rate(), t.channels(), t.sample_index()), (44100, 2, 0));
    assert_eq!(t.frame_len(), 1024);
    assert!(t.interleaved());
    t.advance();
    t.advance();
    assert_eq!(t.sample_index(), 1024);
}

#[test]
fn pcm_decoding() {
    assert_eq!(decode_pcm(&[0x01, 0x00, 0xff, 0xff, 0x00, 0x80], 3, 2), vec![1, -1, -32768]);
    assert_eq!(decode_pcm(&[0x7f, 0x80], 2, 1), vec![127, -128]);
    assert_eq!(decode_pcm(&[0, 0, 1, 0, 0, 0, 0, 0x80], 2, 4), vec![65536, i32::MIN]);
    assert_eq!(decode_pcm(&[1, 2, 3], 1, 3), vec![0]);
    assert_eq!(read_sizes(2, 16), (1024, 2, 2048));
    assert_eq!(read_sizes(1, 4), (512, 1, 512));
    assert_eq!(read_sizes(2, 64), (1024, 8, 8192));
    assert_eq!(latest_start(20000, 2), 20000 - 16384);
    assert_eq!(latest_start(100, 2), 0);
}

#[test]
fn pactl_output_names_the_monitor() {
    let info = "Server String: x\n  Default Sink:  alsa_output.pci.analog \nDefault Source: y\n";
    assert_eq!(monitor_from_info(info).as_deref(), Some("alsa_output.pci.analog.monitor"));
    assert_eq!(monitor_from_info("Default Sink:   \n"), None);
    let short = "1\talsa_input.x\tmodule\ts16le\tSUSPENDED\n2\tsink_a.monitor\tm\ts16le\tIDLE\n3\tsink_b.monitor\tm\ts16le\tRUNNING\n";
    assert_eq!(monitor_from_sources(short).as_deref(), Some("sink_b.monitor"));
    let idle = "2\tsink_a.monitor\tm\tIDLE\n4\tsink_c.monitor\tm\tIDLE\n";
    assert_eq!(monitor_from_sources(idle).as_deref(), Some("sink_a.monitor"));
    assert_eq!(monitor_from_sources("1 input\n"), None);
}
