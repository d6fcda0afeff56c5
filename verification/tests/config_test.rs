use zava::config::{
    parse_ini_entries, ColorConfig, CountKey, FlagKey, IniEntry, IniSetting, InputConfig, InputMethod, Orientation,
    OutputMethod, ScalingMode, TerminalColor, TextKey, XAxis,
};
use zava::ini_write::{gradient_key_of, ini_comment_suffix, rewrite_ini, EqValue, IniValue};

const FIXTURE: &str = "\
[general]
framerate = 60
autosens = 1
sensitivity = 100.0
scaling = linear
bars = 0
bar_width = 2
bar_spacing = 1
center_align = true
max_height = 100
lower_cutoff_freq = 50
higher_cutoff_freq = 10000

[input]
method = pipewire
source = auto

[output]
method = noncurses
channels = stereo
show_idle_bar_heads = true

[color]
gradient = 1
gradient_count = 8

[smoothing]
monstercat = 0.0
waves = false
noise_reduction = 77
gravity = 100.0

[eq]
1 = 0.8
2 = 0.9
3 = 1.0
4 = 1.1
5 = 1.2
";

fn count(es: &[IniEntry], k: CountKey) -> Option<u64> {
    es.iter().rev().find_map(|e| match e.setting {
        IniSetting::Count(k2, v) if k2 == k => Some(v),
        _ => None,
    })
}

fn flag(es: &[IniEntry], k: FlagKey) -> Option<bool> {
    es.iter().rev().find_map(|e| match e.setting {
        IniSetting::Flag(k2, v) if k2 == k => Some(v),
        _ => None,
    })
}

fn text(es: &[IniEntry], k: TextKey) -> Option<String> {
    es.iter().rev().find_map(|e| match e.setting {
        IniSetting::Text(k2) if k2 == k => Some(e.text.clone()),
        _ => None,
    })
}

#[test]
fn test_parse_general_section() {
    let es = parse_ini_entries(FIXTURE);
    assert_eq!(count(&es, CountKey::Framerate), Some(60));
    assert_eq!(count(&es, CountKey::Autosens), Some(1));
    assert_eq!(text(&es, TextKey::Sensitivity).unwrap().parse::<f64>().unwrap(), 100.0);
    assert!(es.iter().any(|e| e.setting == IniSetting::Scaling(ScalingMode::Linear)));
    assert_eq!(count(&es, CountKey::BarWidth), Some(2));
    assert_eq!(count(&es, CountKey::BarSpacing), Some(1));
    assert_eq!(count(&es, CountKey::LowerCutoffFreq), Some(50));
    assert_eq!(count(&es, CountKey::HigherCutoffFreq), Some(10000));
    assert_eq!(flag(&es, FlagKey::CenterAlign), Some(true));
}

#[test]
fn test_parse_input_and_output_sections() {
    let es = parse_ini_entries(FIXTURE);
    let mut input = InputConfig::default();
    input.apply_ini(&es);
    assert_eq!(input.method, InputMethod::Pipewire);
    assert_eq!(input.source, "auto");
    assert!(es.iter().any(|e| e.setting == IniSetting::Output(OutputMethod::Noncurses)));
    assert!(es.iter().any(|e| e.setting == IniSetting::OutputChannels(2)));
    let mut color = ColorConfig::default();
    color.apply_ini(&es);
    assert!(color.gradient);
    assert_eq!(flag(&es, FlagKey::ShowIdleBarHeads), Some(true));
}

#[test]
fn test_legacy_cava_configs_cannot_request_vertical() {
    let es = parse_ini_entries("[output]\norientation = vertical\n");
    assert!(es.iter().any(|e| e.setting == IniSetting::Orient(Orientation::Bottom)));
}

fn value(section: &str, key: &str, value: &str) -> IniValue {
    IniValue { section: section.to_string(), key: key.to_string(), value: value.to_string() }
}

/// The values a default configuration writes for the keys these tests look
/// at, with the given overrides.
fn values(over: &[(&str, &str, &str)]) -> Vec<IniValue> {
    let mut base: Vec<(&str, &str, &str)> = vec![
        ("general", "framerate", "60"),
        ("general", "bars", "0"),
        ("general", "wrap_bars", "false"),
        ("input", "method", "pipewire"),
        ("output", "orientation", "bottom"),
        ("output", "channels", "2"),
        ("color", "background", "default"),
        ("smoothing", "gravity", "100"),
    ];
    for (s, k, v) in over {
        if let Some(e) = base.iter_mut().find(|e| e.0 == *s && e.1 == *k) {
            e.2 = v;
        } else {
            base.push((s, k, v));
        }
    }
    base.into_iter().map(|(s, k, v)| value(s, k, v)).collect()
}

#[test]
fn test_save_preserves_comments_and_updates_values() {
    let original =
        "# my preamble comment\n[general]\n# framerate comment\nframerate = 30\nbars = 20\n\n[color]\nbackground = #123456\n";
    let vals = values(&[("general", "framerate", "120"), ("general", "bars", "50"), ("color", "background", "#123456")]);
    let content = rewrite_ini(original, &vals, &[], &[], &[]);
    assert!(content.contains("# my preamble comment"), "preamble comment lost");
    assert!(content.contains("# framerate comment"), "inline comment lost");
    assert!(content.contains("framerate = 120"), "framerate not updated");
    assert!(content.contains("bars = 50"), "bars not updated");
    assert!(content.contains("background = #123456"), "rgb color lost");

    let reloaded = parse_ini_entries(&content);
    assert_eq!(count(&reloaded, CountKey::Framerate), Some(120));
    assert_eq!(count(&reloaded, CountKey::Bars), Some(50));

    let again = rewrite_ini(&content, &vals, &[], &[], &[]);
    assert_eq!(content, again, "save is not idempotent");
}

#[test]
fn test_save_appends_missing_sections() {
    let vals = values(&[("general", "framerate", "30")]);
    let content = rewrite_ini("[general]\nframerate = 30\n", &vals, &[], &[], &[]);
    for section in ["[input]", "[output]", "[color]", "[smoothing]"] {
        assert!(content.contains(section), "missing section {}", section);
    }
    assert!(content.contains("orientation = bottom"), "orientation missing");
    assert!(content.contains("gravity = "), "gravity missing");

    let reloaded = parse_ini_entries(&content);
    assert_eq!(count(&reloaded, CountKey::Framerate), Some(30));
    assert!(reloaded.iter().any(|e| e.setting == IniSetting::Orient(Orientation::Bottom)));
}

#[test]
fn test_zava_config_serializes_orientation_and_wrap_bars() {
    let vals = values(&[("output", "orientation", "horizontal"), ("general", "wrap_bars", "true")]);
    let content = rewrite_ini("[output]\nchannels = stereo\n", &vals, &[], &[], &[]);
    let reloaded = parse_ini_entries(&content);
    assert!(reloaded.iter().any(|e| e.setting == IniSetting::Orient(Orientation::Horizontal)));
    assert_eq!(flag(&reloaded, FlagKey::WrapBars), Some(true));
    assert!(content.contains("orientation = horizontal"));
    assert!(content.contains("wrap_bars"));
}

#[test]
fn save_keeps_trailing_comments_and_unknown_keys() {
    let original = "[general]\nframerate = 60   # frames per second\nmystery = 7\n";
    let out = rewrite_ini(original, &values(&[("general", "framerate", "75")]), &[], &[], &[]);
    assert!(out.starts_with("[general]\nframerate = 75   # frames per second\nmystery = 7\n"), "{out}");
}

#[test]
fn save_rewrites_gradient_entries_and_appends_missing_ones() {
    let original = "[color]\ngradient_color_1 = '#000000'\n";
    let g = vec![TerminalColor::Rgb(0x11, 0x22, 0x33), TerminalColor::Red];
    let out = rewrite_ini(original, &[], &g, &[], &[]);
    assert_eq!(out, "[color]\ngradient_color_1 = #112233\ngradient_color_2 = red\n");
}

#[test]
fn save_writes_equalizer_bands() {
    let eq = vec![
        EqValue { band: 1, value: "0.5".to_string() },
        EqValue { band: 2, value: "2".to_string() },
    ];
    let out = rewrite_ini("[eq]\n1 = 0.9\n", &[], &[], &[], &eq);
    assert_eq!(out, "[eq]\n1 = 0.5\n2 = 2\n\n");
    let fresh = rewrite_ini("", &[], &[], &[], &eq);
    assert_eq!(fresh, "\n[eq]\n1 = 0.5\n2 = 2\n\n");
}

#[test]
fn empty_text_with_nothing_to_write_is_one_newline() {
    assert_eq!(rewrite_ini("", &[], &[], &[], &[]), "\n");
}

#[test]
fn comment_suffix_needs_a_value_and_whitespace() {
    let s = |t: &str| -> String { ini_comment_suffix(&t.chars().collect::<Vec<char>>()).into_iter().collect() };
    assert_eq!(s(" 60   # fps"), "   # fps");
    assert_eq!(s(" #59cc33"), "");
    assert_eq!(s(" '#a' ; note"), " ; note");
    assert_eq!(s(" x#y"), "");
}

#[test]
fn gradient_keys_name_their_entry() {
    let k = |t: &str| gradient_key_of(&t.chars().collect::<Vec<char>>());
    assert_eq!(k("gradient_color_3"), Some((false, 3)));
    assert_eq!(k("horizontal_gradient_color_+12"), Some((true, 12)));
    assert_eq!(k("gradient_color_x"), None);
    assert_eq!(k("gradient_count"), None);
}

#[test]
fn colour_values_round_trip_through_their_ini_names() {
    for c in [TerminalColor::Default, TerminalColor::Magenta, TerminalColor::Rgb(1, 0xab, 0xff)] {
        assert_eq!(TerminalColor::parse(&c.to_ini()), c);
    }
}

#[test]
fn saving_twice_gives_the_first_save_back() {
    let original = "# preamble\n[Color]\nbackground = #123456  ; keep me\n\n[output]\nmystery = 1\n";
    let vals = values(&[
        ("general", "framerate", "75"),
        ("color", "background", "#654321"),
        ("output", "orientation", "left"),
        ("smoothing", "gravity", "150"),
    ]);
    let g = vec![TerminalColor::Blue, TerminalColor::Rgb(1, 2, 3)];
    let h = vec![TerminalColor::White];
    let first = rewrite_ini(original, &vals, &g, &h, &[]);
    assert!(first.contains("background = #654321  ; keep me"), "{first}");
    assert!(first.contains("gradient_color_2 = #010203"), "{first}");
    assert!(first.contains("horizontal_gradient_color_1 = white"), "{first}");
    assert!(first.contains("\n[general]\nframerate = 75\n"), "{first}");
    let second = rewrite_ini(&first, &vals, &g, &h, &[]);
    assert_eq!(first, second);
}

#[test]
fn saving_equalizer_entries_twice_is_stable() {
    let eq = vec![EqValue { band: 1, value: "0.5".to_string() }, EqValue { band: 4, value: "2".to_string() }];
    let first = rewrite_ini("[eq]\n1 = 0.9\n", &[], &[], &[], &eq);
    assert_eq!(first, "[eq]\n1 = 0.5\n4 = 2\n\n");
    let second = rewrite_ini(&first, &[], &[], &[], &eq);
    assert_eq!(first, second);
    let vals = values(&[]);
    let fresh = rewrite_ini("# mine\n", &vals, &[], &[], &eq);
    assert_eq!(rewrite_ini(&fresh, &vals, &[], &[], &eq), fresh);
}

#[test]
fn no_stale_value_survives_a_save() {
    let original = "[general]\nframerate = 30 # old\n[General]\nFrameRate=45\n";
    let vals = values(&[("general", "framerate", "120")]);
    let content = rewrite_ini(original, &vals, &[], &[], &[]);
    assert!(content.contains("framerate = 120 # old"), "{content}");
    let reloaded = parse_ini_entries(&content);
    let rates: Vec<u64> = reloaded
        .iter()
        .filter_map(|e| match e.setting {
            IniSetting::Count(CountKey::Framerate, v) => Some(v),
            _ => None,
        })
        .collect();
    assert_eq!(rates, vec![120, 120]);
}

#[test]
fn saved_frequency_axis_reads_back() {
    for x in [XAxis::Off, XAxis::Frequency] {
        let es = parse_ini_entries(&format!("[output]\nxaxis = {}\n", x.as_str()));
        assert!(es.iter().any(|e| e.setting == IniSetting::Axis(x)), "{:?}", x);
    }
    let es = parse_ini_entries("[output]\nxaxis = frequency\n");
    assert!(es.iter().any(|e| e.setting == IniSetting::Axis(XAxis::Frequency)));
}

#[test]
fn reading_the_same_settings_twice_changes_nothing() {
    let text = "[input]\nmethod = fifo\nsource = /tmp/x\nchannels = 7\n[color]\n\
                gradient = 1\ngradient_color_2 = '#112233'\nbackground = red\ntheme = dusk\n";
    let es = parse_ini_entries(text);
    let mut once = InputConfig::default();
    once.apply_ini(&es);
    let mut twice = once.clone();
    twice.apply_ini(&es);
    assert_eq!(
        (once.method, once.source.clone(), once.sample_rate, once.sample_bits, once.channels),
        (twice.method, twice.source.clone(), twice.sample_rate, twice.sample_bits, twice.channels)
    );
    assert_eq!(once.channels, 2);
    let mut c1 = ColorConfig::default();
    c1.apply_ini(&es);
    let mut c2 = c1.clone();
    c2.apply_ini(&es);
    assert_eq!(c1.background, c2.background);
    assert_eq!(c1.gradient, c2.gradient);
    assert_eq!(c1.theme, c2.theme);
    assert_eq!(c1.gradient_colors, c2.gradient_colors);
    assert_eq!(c1.horizontal_gradient_colors, c2.horizontal_gradient_colors);
}

#[test]
fn read_integers_land_in_their_ranges() {
    let es = parse_ini_entries("[general]\nframerate = 0\nbar_width = 0\n[input]\nchannels = 0\n");
    assert_eq!(count(&es, CountKey::Framerate), Some(1));
    assert_eq!(count(&es, CountKey::BarWidth), Some(1));
    assert_eq!(count(&es, CountKey::InputChannels), Some(1));
    let es = parse_ini_entries("[general]\nframerate = 100000\n[input]\nchannels = 9\n[output]\nchannels = 5\n");
    assert_eq!(count(&es, CountKey::Framerate), Some(500));
    assert_eq!(count(&es, CountKey::InputChannels), Some(2));
    assert!(es.iter().any(|e| e.setting == IniSetting::OutputChannels(2)));
}

#[test]
fn saving_empty_and_quoted_values_twice_is_stable() {
    let original = "[color]\ntheme = dusk\n[input]\nsource = \"my mic\" # the usb one\n";
    let vals = values(&[("color", "theme", ""), ("input", "source", "it \"is\" mine")]);
    let first = rewrite_ini(original, &vals, &[], &[], &[]);
    assert!(first.contains("theme = \n"), "{first}");
    assert!(first.contains("source = it \"is\" mine # the usb one"), "{first}");
    let second = rewrite_ini(&first, &vals, &[], &[], &[]);
    assert_eq!(first, second);
    let es = parse_ini_entries(&first);
    assert_eq!(text(&es, TextKey::Theme), Some(String::new()));
    assert_eq!(text(&es, TextKey::Source), Some("it \"is\" mine".to_string()));
}
