//! Command-line arguments.

use vstd::prelude::*;
use crate::config::{InputMethod, OutputMethod};
use crate::text::{chars_eq, chars_eq_ignore_ascii_case, chars_of, eq_ignore_ascii_case, lower, lower_chars};

verus! {

/// Options gathered from the command line; each `None` leaves the
/// configured value alone.
#[derive(Debug, Clone)]
pub struct CliOptions {
    /// `-p` / `--config`: the configuration file to use.
    pub config_path: Option<String>,
    /// `--test`: use the synthetic test signal.
    pub force_test: bool,
    /// `--generate-config`: write a configuration file and exit.
    pub generate_config: bool,
    /// `--force`: let `--generate-config` overwrite an existing file.
    pub force_overwrite: bool,
    pub method: Option<InputMethod>,
    pub source: Option<String>,
    pub output: Option<OutputMethod>,
    pub channels: Option<u32>,
}

/// What the command line asks for.
#[derive(Debug, Clone)]
pub enum CliRequest {
    /// `-v` / `--version`.
    Version,
    /// `-h` / `--help`.
    Help,
    /// Run with these options.
    Run(CliOptions),
}

/// The options of [`CliOptions`] over character sequences.
pub struct ArgScan {
    pub config_path: Option<Seq<char>>,
    pub force_test: bool,
    pub generate_config: bool,
    pub force_overwrite: bool,
    pub method: Option<InputMethod>,
    pub source: Option<Seq<char>>,
    pub output: Option<OutputMethod>,
    pub channels: Option<u32>,
}

/// The request a command line makes: `Version`, `Help`, or `Run`.
pub enum ArgOutcome {
    Version,
    Help,
    Run(ArgScan),
}

/// The input method a `--method` value names; unknown names mean Pipewire.
pub open spec fn method_named(v: Seq<char>) -> InputMethod {
    let l = lower(v);
    if l == "pipewire"@ {
        InputMethod::Pipewire
    } else if l == "pulse"@ {
        InputMethod::Pulse
    } else if l == "alsa"@ {
        InputMethod::Alsa
    } else if l == "fifo"@ {
        InputMethod::Fifo
    } else if l == "cpal"@ {
        InputMethod::Cpal
    } else if l == "test"@ {
        InputMethod::Test
    } else {
        InputMethod::Pipewire
    }
}

/// The output method an `--output` value names; unknown names mean
/// noncurses.
pub open spec fn output_named(v: Seq<char>) -> OutputMethod {
    let l = lower(v);
    if l == "noncurses"@ {
        OutputMethod::Noncurses
    } else if l == "ncurses"@ {
        OutputMethod::Ncurses
    } else if l == "raw"@ {
        OutputMethod::Raw
    } else {
        OutputMethod::Noncurses
    }
}

/// The channel count a `--channels` value names: `mono` (any case) or `1`
/// is one channel, anything else two.
pub open spec fn channels_named(v: Seq<char>) -> u32 {
    if eq_ignore_ascii_case(v, "mono"@) || v == "1"@ {
        1
    } else {
        2
    }
}

/// Options before any argument.
pub open spec fn no_options() -> ArgScan {
    ArgScan {
        config_path: None,
        force_test: false,
        generate_config: false,
        force_overwrite: false,
        method: None,
        source: None,
        output: None,
        channels: None,
    }
}

/// Reads `a` from index `i` on with the options `o` gathered so far.
/// Options that take a value consume the next argument, if there is one;
/// unknown arguments are skipped; `-v` and `-h` end the reading.
pub open spec fn scan_args(a: Seq<Seq<char>>, i: int, o: ArgScan) -> ArgOutcome
    decreases a.len() - i,
{
    if i < 0 || i >= a.len() {
        ArgOutcome::Run(o)
    } else {
        let s = a[i];
        let has_value = i + 1 < a.len();
        if s == "-v"@ || s == "--version"@ {
            ArgOutcome::Version
        } else if s == "-h"@ || s == "--help"@ {
            ArgOutcome::Help
        } else if s == "-p"@ || s == "--config"@ {
            if has_value {
                scan_args(a, i + 2, ArgScan { config_path: Some(a[i + 1]), ..o })
            } else {
                scan_args(a, i + 1, o)
            }
        } else if s == "--test"@ {
            scan_args(a, i + 1, ArgScan { force_test: true, ..o })
        } else if s == "--generate-config"@ || s == "--gen-config"@ {
            scan_args(a, i + 1, ArgScan { generate_config: true, ..o })
        } else if s == "--force"@ {
            scan_args(a, i + 1, ArgScan { force_overwrite: true, ..o })
        } else if s == "--method"@ {
            if has_value {
                scan_args(a, i + 2, ArgScan { method: Some(method_named(a[i + 1])), ..o })
            } else {
                scan_args(a, i + 1, o)
            }
        } else if s == "--source"@ {
            if has_value {
                scan_args(a, i + 2, ArgScan { source: Some(a[i + 1]), ..o })
            } else {
                scan_args(a, i + 1, o)
            }
        } else if s == "--output"@ {
            if has_value {
                scan_args(a, i + 2, ArgScan { output: Some(output_named(a[i + 1])), ..o })
            } else {
                scan_args(a, i + 1, o)
            }
        } else if s == "--channels"@ {
            if has_value {
                scan_args(a, i + 2, ArgScan { channels: Some(channels_named(a[i + 1])), ..o })
            } else {
                scan_args(a, i + 1, o)
            }
        } else {
            scan_args(a, i + 1, o)
        }
    }
}

/// The character sequences of the arguments.
pub open spec fn arg_views(args: Seq<String>) -> Seq<Seq<char>> {
    args.map_values(|s: String| s@)
}

/// Whether `r` is the request that `o` describes.
pub open spec fn request_is(r: CliRequest, o: ArgOutcome) -> bool {
    match (r, o) {
        (CliRequest::Version, ArgOutcome::Version) => true,
        (CliRequest::Help, ArgOutcome::Help) => true,
        (CliRequest::Run(c), ArgOutcome::Run(s)) => options_are(c, s),
        _ => false,
    }
}

pub open spec fn opt_view(o: Option<String>) -> Option<Seq<char>> {
    match o {
        Some(s) => Some(s@),
        None => None,
    }
}

/// Whether `c` holds the options `s`.
pub open spec fn options_are(c: CliOptions, s: ArgScan) -> bool {
    &&& opt_view(c.config_path) == s.config_path
    &&& c.force_test == s.force_test
    &&& c.generate_config == s.generate_config
    &&& c.force_overwrite == s.force_overwrite
    &&& c.method == s.method
    &&& opt_view(c.source) == s.source
    &&& c.output == s.output
    &&& c.channels == s.channels
}

fn is_word(s: &[char], w: &str) -> (r: bool)
    ensures
        r == (s@ == w@),
{
    let wv = chars_of(w);
    chars_eq(s, &wv)
}

fn method_of(v: &[char]) -> (r: InputMethod)
    ensures
        r == method_named(v@),
{
    let l = lower_chars(v);
    if is_word(&l, "pipewire") {
        InputMethod::Pipewire
    } else if is_word(&l, "pulse") {
        InputMethod::Pulse
    } else if is_word(&l, "alsa") {
        InputMethod::Alsa
    } else if is_word(&l, "fifo") {
        InputMethod::Fifo
    } else if is_word(&l, "cpal") {
        InputMethod::Cpal
    } else if is_word(&l, "test") {
        InputMethod::Test
    } else {
        InputMethod::Pipewire
    }
}

fn output_of(v: &[char]) -> (r: OutputMethod)
    ensures
        r == output_named(v@),
{
    let l = lower_chars(v);
    if is_word(&l, "noncurses") {
        OutputMethod::Noncurses
    } else if is_word(&l, "ncurses") {
        OutputMethod::Ncurses
    } else if is_word(&l, "raw") {
        OutputMethod::Raw
    } else {
        OutputMethod::Noncurses
    }
}

fn channels_of(v: &[char]) -> (r: u32)
    ensures
        r == channels_named(v@),
{
    let mono = chars_of("mono");
    if chars_eq_ignore_ascii_case(v, &mono) || is_word(v, "1") {
        1
    } else {
        2
    }
}

/// Reads the command line (`args[0]` is the program name and is skipped).
///
/// `-v`/`--version` and `-h`/`--help` end the reading at once. `-p`,
/// `--config`, `--method`, `--source`, `--output` and `--channels` take the
/// next argument as their value when there is one; unknown arguments are
/// ignored.
pub fn parse_args(args: &[String]) -> (r: CliRequest)
    ensures
        request_is(r, scan_args(arg_views(args@), 1, no_options())),
{
    let ghost a = arg_views(args@);
    let mut o = CliOptions {
        config_path: None,
        force_test: false,
        generate_config: false,
        force_overwrite: false,
        method: None,
        source: None,
        output: None,
        channels: None,
    };
    let ghost mut so = no_options();
    let mut i: usize = 1;
    while i < args.len()
        invariant
            a == arg_views(args@),
            a.len() == args@.len(),
            1 <= i,
            options_are(o, so),
            scan_args(a, i as int, so) == scan_args(a, 1, no_options()),
        decreases args@.len() - i,
    {
        let s = chars_of(args[i].as_str());
        assert(s@ == a[i as int]);
        let has_value = i + 1 < args.len();
        if is_word(&s, "-v") || is_word(&s, "--version") {
            return CliRequest::Version;
        } else if is_word(&s, "-h") || is_word(&s, "--help") {
            return CliRequest::Help;
        } else if is_word(&s, "-p") || is_word(&s, "--config") {
            if has_value {
                let v = args[i + 1].clone();
                proof {
                    so = ArgScan { config_path: Some(a[i + 1]), ..so };
                }
                o.config_path = Some(v);
                i = i + 1;
            }
        } else if is_word(&s, "--test") {
            o.force_test = true;
            proof {
                so = ArgScan { force_test: true, ..so };
            }
        } else if is_word(&s, "--generate-config") || is_word(&s, "--gen-config") {
            o.generate_config = true;
            proof {
                so = ArgScan { generate_config: true, ..so };
            }
        } else if is_word(&s, "--force") {
            o.force_overwrite = true;
            proof {
                so = ArgScan { force_overwrite: true, ..so };
            }
        } else if is_word(&s, "--method") {
            if has_value {
                let v = chars_of(args[i + 1].as_str());
                let m = method_of(&v);
                o.method = Some(m);
                proof {
                    so = ArgScan { method: Some(m), ..so };
                }
                i = i + 1;
            }
        } else if is_word(&s, "--source") {
            if has_value {
                let v = args[i + 1].clone();
                proof {
                    so = ArgScan { source: Some(a[i + 1]), ..so };
                }
                o.source = Some(v);
                i = i + 1;
            }
        } else if is_word(&s, "--output") {
            if has_value {
                let v = chars_of(args[i + 1].as_str());
                let m = output_of(&v);
                o.output = Some(m);
                proof {
                    so = ArgScan { output: Some(m), ..so };
                }
                i = i + 1;
            }
        } else if is_word(&s, "--channels") {
            if has_value {
                let v = chars_of(args[i + 1].as_str());
                let c = channels_of(&v);
                o.channels = Some(c);
                proof {
                    so = ArgScan { channels: Some(c), ..so };
                }
                i = i + 1;
            }
        }
        i = i + 1;
    }
    CliRequest::Run(o)
}

/// A word of lower-case letters is its own lower case.
proof fn lemma_lower_letters(w: Seq<char>)
    requires
        forall|i: int| 0 <= i < w.len() ==> 'a' <= #[trigger] w[i] <= 'z',
    ensures
        crate::text::lower(w) == w,
{
    assert(crate::text::lower(w) =~= w);
}

/// `--method` takes every input method by the name the configuration
/// writes for it, in any letter case.
pub proof fn lemma_method_names_select_their_method(m: InputMethod, v: Seq<char>)
    requires
        crate::text::lower(v) == m.name(),
    ensures
        method_named(v) == m,
        method_named(m.name()) == m,
{
    reveal_strlit("pipewire");
    reveal_strlit("pulse");
    reveal_strlit("alsa");
    reveal_strlit("fifo");
    reveal_strlit("cpal");
    reveal_strlit("test");
    lemma_lower_letters(m.name());
    assert("pipewire"@.len() == 8 && "pulse"@.len() == 5);
    assert("alsa"@[0] == 'a' && "fifo"@[0] == 'f' && "cpal"@[0] == 'c' && "test"@[0] == 't');
}

/// `--output` takes every output method by the name the configuration
/// writes for it, in any letter case.
pub proof fn lemma_output_names_select_their_method(m: OutputMethod, v: Seq<char>)
    requires
        crate::text::lower(v) == m.name(),
    ensures
        output_named(v) == m,
        output_named(m.name()) == m,
{
    reveal_strlit("noncurses");
    reveal_strlit("ncurses");
    reveal_strlit("raw");
    lemma_lower_letters(m.name());
    assert("noncurses"@.len() == 9 && "ncurses"@.len() == 7 && "raw"@.len() == 3);
}

/// `zava --method <name>` runs with the input method the name stands for,
/// and `zava --output <name>` with the output method, every other option
/// left as it is without arguments.
pub proof fn lemma_method_options_select_by_name(prog: Seq<char>, m: InputMethod, o: OutputMethod)
    ensures
        scan_args(seq![prog, "--method"@, m.name()], 1, no_options()) == ArgOutcome::Run(
            ArgScan { method: Some(m), ..no_options() },
        ),
        scan_args(seq![prog, "--output"@, o.name()], 1, no_options()) == ArgOutcome::Run(
            ArgScan { output: Some(o), ..no_options() },
        ),
{
    reveal_strlit("-v");
    reveal_strlit("--version");
    reveal_strlit("-h");
    reveal_strlit("--help");
    reveal_strlit("-p");
    reveal_strlit("--config");
    reveal_strlit("--test");
    reveal_strlit("--generate-config");
    reveal_strlit("--gen-config");
    reveal_strlit("--force");
    reveal_strlit("--method");
    reveal_strlit("--source");
    reveal_strlit("--output");
    assert("--method"@.len() == 8 && "--output"@.len() == 8 && "--config"@.len() == 8);
    assert("--method"@[2] == 'm' && "--output"@[2] == 'o' && "--config"@[2] == 'c' && "--source"@[2] == 's');
    assert("-v"@.len() == 2 && "-h"@.len() == 2 && "-p"@.len() == 2 && "--version"@.len() == 9);
    assert("--help"@.len() == 6 && "--test"@.len() == 6 && "--generate-config"@.len() == 17);
    assert("--gen-config"@.len() == 12 && "--force"@.len() == 7 && "--source"@.len() == 8);
    reveal_strlit("pipewire");
    reveal_strlit("pulse");
    reveal_strlit("alsa");
    reveal_strlit("fifo");
    reveal_strlit("cpal");
    reveal_strlit("test");
    reveal_strlit("noncurses");
    reveal_strlit("ncurses");
    reveal_strlit("raw");
    lemma_lower_letters(m.name());
    lemma_lower_letters(o.name());
    lemma_method_names_select_their_method(m, m.name());
    lemma_output_names_select_their_method(o, o.name());
    let a = seq![prog, "--method"@, m.name()];
    assert(scan_args(a, 3, ArgScan { method: Some(m), ..no_options() }) == ArgOutcome::Run(
        ArgScan { method: Some(m), ..no_options() },
    ));
    let b = seq![prog, "--output"@, o.name()];
    assert(scan_args(b, 3, ArgScan { output: Some(o), ..no_options() }) == ArgOutcome::Run(
        ArgScan { output: Some(o), ..no_options() },
    ));
}

/// What each option asks for on its own: `-v`/`--version` and `-h`/`--help`
/// end the reading with that request, `-p`/`--config` and `--source` take
/// the next argument as the config path or the source, `--channels` reads
/// it as a channel count (`mono` or `1` is one channel, a number two or
/// `stereo` two), and `--test`, `--generate-config`/`--gen-config` and
/// `--force` switch on what they name.
pub proof fn lemma_options_do_what_they_name(prog: Seq<char>, v: Seq<char>)
    ensures
        scan_args(seq![prog, "-v"@], 1, no_options()) == ArgOutcome::Version,
        scan_args(seq![prog, "--version"@], 1, no_options()) == ArgOutcome::Version,
        scan_args(seq![prog, "-h"@], 1, no_options()) == ArgOutcome::Help,
        scan_args(seq![prog, "--help"@], 1, no_options()) == ArgOutcome::Help,
        scan_args(seq![prog, "-p"@, v], 1, no_options()) == ArgOutcome::Run(
            ArgScan { config_path: Some(v), ..no_options() },
        ),
        scan_args(seq![prog, "--config"@, v], 1, no_options()) == ArgOutcome::Run(
            ArgScan { config_path: Some(v), ..no_options() },
        ),
        scan_args(seq![prog, "--source"@, v], 1, no_options()) == ArgOutcome::Run(
            ArgScan { source: Some(v), ..no_options() },
        ),
        scan_args(seq![prog, "--channels"@, v], 1, no_options()) == ArgOutcome::Run(
            ArgScan { channels: Some(channels_named(v)), ..no_options() },
        ),
        scan_args(seq![prog, "--test"@], 1, no_options()) == ArgOutcome::Run(
            ArgScan { force_test: true, ..no_options() },
        ),
        scan_args(seq![prog, "--generate-config"@], 1, no_options()) == ArgOutcome::Run(
            ArgScan { generate_config: true, ..no_options() },
        ),
        scan_args(seq![prog, "--gen-config"@], 1, no_options()) == ArgOutcome::Run(
            ArgScan { generate_config: true, ..no_options() },
        ),
        scan_args(seq![prog, "--force"@], 1, no_options()) == ArgOutcome::Run(
            ArgScan { force_overwrite: true, ..no_options() },
        ),
        channels_named("mono"@) == 1 && channels_named("1"@) == 1,
        channels_named("2"@) == 2 && channels_named("stereo"@) == 2,
{
    reveal_strlit("-v");
    reveal_strlit("--version");
    reveal_strlit("-h");
    reveal_strlit("--help");
    reveal_strlit("-p");
    reveal_strlit("--config");
    reveal_strlit("--test");
    reveal_strlit("--generate-config");
    reveal_strlit("--gen-config");
    reveal_strlit("--force");
    reveal_strlit("--method");
    reveal_strlit("--source");
    reveal_strlit("--output");
    reveal_strlit("--channels");
    reveal_strlit("mono");
    reveal_strlit("1");
    reveal_strlit("2");
    reveal_strlit("stereo");
    assert("-v"@.len() == 2 && "-v"@[1] == 'v');
    assert("--version"@.len() == 9 && "--version"@[1] == '-' && "--version"@[2] == 'v');
    assert("-h"@.len() == 2 && "-h"@[1] == 'h');
    assert("--help"@.len() == 6 && "--help"@[1] == '-' && "--help"@[2] == 'h');
    assert("-p"@.len() == 2 && "-p"@[1] == 'p');
    assert("--config"@.len() == 8 && "--config"@[1] == '-' && "--config"@[2] == 'c');
    assert("--test"@.len() == 6 && "--test"@[1] == '-' && "--test"@[2] == 't');
    assert("--generate-config"@.len() == 17 && "--generate-config"@[1] == '-' && "--generate-config"@[2] == 'g');
    assert("--gen-config"@.len() == 12 && "--gen-config"@[1] == '-' && "--gen-config"@[2] == 'g');
    assert("--force"@.len() == 7 && "--force"@[1] == '-' && "--force"@[2] == 'f');
    assert("--method"@.len() == 8 && "--method"@[1] == '-' && "--method"@[2] == 'm');
    assert("--source"@.len() == 8 && "--source"@[1] == '-' && "--source"@[2] == 's');
    assert("--output"@.len() == 8 && "--output"@[1] == '-' && "--output"@[2] == 'o');
    assert("--channels"@.len() == 10 && "--channels"@[1] == '-' && "--channels"@[2] == 'c');
    assert("mono"@.len() == 4 && "mono"@[1] == 'o' && "mono"@[2] == 'n');
    assert("1"@.len() == 1);
    assert("2"@.len() == 1);
    assert("stereo"@.len() == 6 && "stereo"@[1] == 't' && "stereo"@[2] == 'e');
    assert(crate::text::ascii_lower('m') != crate::text::ascii_lower('s'));
    assert("1"@[0] == '1' && "2"@[0] == '2');
    let t = ArgScan { force_test: true, ..no_options() };
    assert(scan_args(seq![prog, "--test"@], 2, t) == ArgOutcome::Run(t));
    let gc = ArgScan { generate_config: true, ..no_options() };
    assert(scan_args(seq![prog, "--generate-config"@], 2, gc) == ArgOutcome::Run(gc));
    assert(scan_args(seq![prog, "--gen-config"@], 2, gc) == ArgOutcome::Run(gc));
    let fo = ArgScan { force_overwrite: true, ..no_options() };
    assert(scan_args(seq![prog, "--force"@], 2, fo) == ArgOutcome::Run(fo));
    let cp = ArgScan { config_path: Some(v), ..no_options() };
    assert(scan_args(seq![prog, "-p"@, v], 3, cp) == ArgOutcome::Run(cp));
    assert(scan_args(seq![prog, "--config"@, v], 3, cp) == ArgOutcome::Run(cp));
    let so = ArgScan { source: Some(v), ..no_options() };
    assert(scan_args(seq![prog, "--source"@, v], 3, so) == ArgOutcome::Run(so));
    let ch = ArgScan { channels: Some(channels_named(v)), ..no_options() };
    assert(scan_args(seq![prog, "--channels"@, v], 3, ch) == ArgOutcome::Run(ch));
}

} // verus!
