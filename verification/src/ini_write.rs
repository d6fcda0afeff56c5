//! Writing the settings back into an INI text while keeping the text's
//! comments, blank lines, unknown keys and order: keys the program owns are
//! rewritten in place, missing ones are added to their section.

use vstd::prelude::*;
use crate::config::{
    ascii_ws_exec, find_eq, first_eq, header_name, header_of_line, is_header, TerminalColor,
};
use crate::text::{
    char_is_ws, chars_eq, chars_eq_ignore_ascii_case, chars_of, chars_starts_with, dec,
    eq_ignore_ascii_case, is_ascii_ws, is_ws, lower, lower_chars, parse_uint, parse_uint_chars,
    push_all, push_decimal, split_lines, strip_chars, string_of, sub_chars, trim, lines, Strip,
    back_run,
};

verus! {

/// `s` without its trailing whitespace (`str::trim_end`).
pub open spec fn trim_end(s: Seq<char>) -> Seq<char> {
    s.take(s.len() - back_run(s, Strip::Ws))
}

/// Start of the run of ASCII whitespace that ends just before `k`.
pub open spec fn ws_start(t: Seq<char>, k: int) -> int
    decreases k,
{
    if k > 0 && k <= t.len() && is_ascii_ws(t[k - 1]) {
        ws_start(t, k - 1)
    } else {
        k
    }
}

/// Where the trailing comment of `t` starts, reading from `i` with the
/// quote `q` open (if any) and `saw` telling whether a value character was
/// seen: a `#` or `;` outside quotes, after a value character and right
/// after ASCII whitespace, starts a comment, which takes that whitespace
/// run with it.
pub open spec fn comment_start(t: Seq<char>, i: int, q: Option<char>, saw: bool) -> Option<int>
    decreases t.len() - i,
{
    if i < 0 || i >= t.len() {
        None
    } else {
        let ch = t[i];
        match q {
            Some(qc) => if ch == qc {
                comment_start(t, i + 1, None, saw)
            } else {
                comment_start(t, i + 1, q, true)
            },
            None => if ch == '\'' || ch == '"' {
                comment_start(t, i + 1, Some(ch), saw)
            } else if (ch == '#' || ch == ';') && saw && i > 0 && is_ascii_ws(t[i - 1]) {
                Some(ws_start(t, i - 1))
            } else if !is_ws(ch) {
                comment_start(t, i + 1, None, true)
            } else {
                comment_start(t, i + 1, None, saw)
            },
        }
    }
}

/// The trailing comment of an INI value, with the whitespace before it
/// (`" 60   # fps"` gives `"   # fps"`); empty when there is none. So
/// `#59cc33` alone stays a value.
pub open spec fn comment_suffix(raw: Seq<char>) -> Seq<char> {
    let t = trim_end(raw);
    match comment_start(t, 0, None, false) {
        Some(w) => t.skip(w),
        None => Seq::empty(),
    }
}

proof fn lemma_ws_start_bounds(t: Seq<char>, k: int)
    requires
        0 <= k <= t.len(),
    ensures
        0 <= ws_start(t, k) <= k,
    decreases k,
{
    if k > 0 && is_ascii_ws(t[k - 1]) {
        lemma_ws_start_bounds(t, k - 1);
    }
}

proof fn lemma_comment_start_bounds(t: Seq<char>, i: int, q: Option<char>, saw: bool)
    ensures
        comment_start(t, i, q, saw) matches Some(w) ==> 0 <= w <= t.len(),
    decreases t.len() - i,
{
    if 0 <= i < t.len() {
        let ch = t[i];
        match q {
            Some(qc) => if ch == qc {
                lemma_comment_start_bounds(t, i + 1, None, saw);
            } else {
                lemma_comment_start_bounds(t, i + 1, q, true);
            },
            None => if ch == '\'' || ch == '"' {
                lemma_comment_start_bounds(t, i + 1, Some(ch), saw);
            } else if (ch == '#' || ch == ';') && saw && i > 0 && is_ascii_ws(t[i - 1]) {
                lemma_ws_start_bounds(t, i - 1);
            } else if !is_ws(ch) {
                lemma_comment_start_bounds(t, i + 1, None, true);
            } else {
                lemma_comment_start_bounds(t, i + 1, None, saw);
            },
        }
    }
}

fn trim_end_exec(s: &[char]) -> (r: Vec<char>)
    ensures
        r@ == trim_end(s@),
{
    let mut n = s.len();
    proof {
        assert(s@.take(n as int) =~= s@);
    }
    while n > 0 && char_is_ws(s[n - 1])
        invariant
            0 <= n <= s@.len(),
            back_run(s@, Strip::Ws) == (s@.len() - n) + back_run(s@.take(n as int), Strip::Ws),
        decreases n,
    {
        proof {
            let t = s@.take(n as int);
            assert(t.drop_last() =~= s@.take(n - 1));
        }
        n = n - 1;
    }
    proof {
        assert(back_run(s@.take(n as int), Strip::Ws) == 0);
    }
    sub_chars(s, 0, n)
}

/// The trailing comment of an INI value (see [`comment_suffix`]).
pub fn ini_comment_suffix(raw: &[char]) -> (r: Vec<char>)
    ensures
        r@ == comment_suffix(raw@),
{
    let t = trim_end_exec(raw);
    let mut q: Option<char> = None;
    let mut saw = false;
    let mut i: usize = 0;
    while i < t.len()
        invariant
            0 <= i <= t@.len(),
            t@ == trim_end(raw@),
            comment_start(t@, i as int, q, saw) == comment_start(t@, 0, None, false),
        decreases t@.len() - i,
    {
        let ch = t[i];
        match q {
            Some(qc) => {
                if ch == qc {
                    q = None;
                } else {
                    saw = true;
                }
            },
            None => {
                if ch == '\'' || ch == '"' {
                    q = Some(ch);
                } else if (ch == '#' || ch == ';') && saw && i > 0 && ascii_ws_exec(t[i - 1]) {
                    let mut ws = i - 1;
                    while ws > 0 && ascii_ws_exec(t[ws - 1])
                        invariant
                            0 <= ws < t@.len(),
                            ws_start(t@, ws as int) == ws_start(t@, i - 1),
                        decreases ws,
                    {
                        ws = ws - 1;
                    }
                    proof {
                        lemma_ws_start_bounds(t@, ws as int);
                        assert(ws_start(t@, ws as int) == ws);
                        assert(comment_start(t@, i as int, q, saw) == Some(ws_start(t@, i - 1)));
                        assert(t@.subrange(ws as int, t@.len() as int) =~= t@.skip(ws as int));
                    }
                    return sub_chars(&t, ws, t.len());
                } else if !char_is_ws(ch) {
                    saw = true;
                }
            },
        }
        i = i + 1;
    }
    Vec::new()
}

/// The gradient colour a key names: `gradient_color_N` is entry `N` of the
/// vertical gradient (`false`), `horizontal_gradient_color_N` of the
/// horizontal one (`true`).
pub open spec fn gradient_key(key: Seq<char>) -> Option<(bool, int)> {
    if key.len() >= 15 && key.take(15) == "gradient_color_"@ {
        match parse_uint(key.skip(15), usize::MAX as nat) {
            Some(v) => Some((false, v as int)),
            None => None,
        }
    } else if key.len() >= 26 && key.take(26) == "horizontal_gradient_color_"@ {
        match parse_uint(key.skip(26), usize::MAX as nat) {
            Some(v) => Some((true, v as int)),
            None => None,
        }
    } else {
        None
    }
}

/// See [`gradient_key`].
pub fn gradient_key_of(key: &[char]) -> (r: Option<(bool, usize)>)
    ensures
        r matches Some(p) ==> gradient_key(key@) == Some((p.0, p.1 as int)),
        r is None ==> gradient_key(key@) is None,
{
    let g = chars_of("gradient_color_");
    let h = chars_of("horizontal_gradient_color_");
    proof {
        reveal_strlit("gradient_color_");
        reveal_strlit("horizontal_gradient_color_");
    }
    if chars_starts_with(key, &g) {
        let rest = sub_chars(key, 15, key.len());
        assert(rest@ == key@.skip(15));
        match parse_uint_chars(&rest, usize::MAX as u64) {
            Some(v) => Some((false, v as usize)),
            None => None,
        }
    } else if chars_starts_with(key, &h) {
        let rest = sub_chars(key, 26, key.len());
        assert(rest@ == key@.skip(26));
        match parse_uint_chars(&rest, usize::MAX as u64) {
            Some(v) => Some((true, v as usize)),
            None => None,
        }
    } else {
        None
    }
}

/// A setting's value as the file should hold it.
#[derive(Debug, Clone)]
pub struct IniValue {
    pub section: String,
    pub key: String,
    pub value: String,
}

/// The value of the first entry of `vals`, from index `i` on, for `key` in
/// `section`.
pub open spec fn value_from(vals: Seq<IniValue>, i: int, section: Seq<char>, key: Seq<char>) -> Option<Seq<char>>
    decreases vals.len() - i,
{
    if i < 0 || i >= vals.len() {
        None
    } else if vals[i].section@ == section && vals[i].key@ == key {
        Some(vals[i].value@)
    } else {
        value_from(vals, i + 1, section, key)
    }
}

/// The value `vals` gives `key` in `section`, if any.
pub open spec fn value_for(vals: Seq<IniValue>, section: Seq<char>, key: Seq<char>) -> Option<Seq<char>> {
    value_from(vals, 0, section, key)
}

fn value_lookup(vals: &[IniValue], section: &[char], key: &[char]) -> (r: Option<Vec<char>>)
    ensures
        r matches Some(v) ==> value_for(vals@, section@, key@) == Some(v@),
        r is None ==> value_for(vals@, section@, key@) is None,
{
    let mut i: usize = 0;
    while i < vals.len()
        invariant
            0 <= i <= vals@.len(),
            value_from(vals@, i as int, section@, key@) == value_for(vals@, section@, key@),
        decreases vals@.len() - i,
    {
        let s = chars_of(vals[i].section.as_str());
        let k = chars_of(vals[i].key.as_str());
        if chars_eq(&s, section) && chars_eq(&k, key) {
            return Some(chars_of(vals[i].value.as_str()));
        }
        i = i + 1;
    }
    None
}

/// `key = value` followed by the kept comment of the old value text.
pub open spec fn setting_line(key: Seq<char>, value: Seq<char>, raw: Seq<char>) -> Seq<char> {
    key + " = "@ + value + comment_suffix(raw)
}

/// State of the in-place pass: the current section, the lines written so
/// far, the (section, key) pairs rewritten and the gradient entries met.
pub struct InPlace {
    pub section: Seq<char>,
    pub out: Seq<Seq<char>>,
    pub seen: Seq<(Seq<char>, Seq<char>)>,
    pub seen_grad: Seq<(bool, int)>,
}

/// The gradient list a gradient key refers to.
pub open spec fn grad_list(horizontal: bool, g: Seq<TerminalColor>, h: Seq<TerminalColor>) -> Seq<TerminalColor> {
    if horizontal { h } else { g }
}

/// The in-place pass over one line: a header switches the section; blank,
/// comment and `=`-less lines are kept; a gradient entry that exists is
/// rewritten with its colour; a key the program owns in the current
/// section is rewritten with its value; anything else is kept. Rewritten
/// lines keep the old value's trailing comment.
pub open spec fn in_place_line(
    p: InPlace,
    line: Seq<char>,
    vals: Seq<IniValue>,
    g: Seq<TerminalColor>,
    h: Seq<TerminalColor>,
) -> InPlace {
    let t = trim(line);
    if is_header(t) {
        InPlace { section: header_name(t), out: p.out.push(line), ..p }
    } else if t.len() == 0 || t[0] == '#' || t[0] == ';' || first_eq(t) is None {
        InPlace { out: p.out.push(line), ..p }
    } else {
        let e = first_eq(t)->0;
        let key = lower(trim(t.take(e)));
        let raw = t.skip(e + 1);
        let gk = gradient_key(key);
        let p2 = match gk {
            Some(x) => InPlace { seen_grad: p.seen_grad.push(x), ..p },
            None => p,
        };
        let colour_line = match gk {
            Some((hz, idx)) => 1 <= idx <= grad_list(hz, g, h).len(),
            None => false,
        };
        if colour_line {
            let (hz, idx) = gk->0;
            InPlace { out: p2.out.push(setting_line(key, grad_list(hz, g, h)[idx - 1].ini_name(), raw)), ..p2 }
        } else {
            match value_for(vals, p2.section, key) {
                Some(v) => InPlace {
                    seen: p2.seen.push((p2.section, key)),
                    out: p2.out.push(setting_line(key, v, raw)),
                    ..p2
                },
                None => InPlace { out: p2.out.push(line), ..p2 },
            }
        }
    }
}

/// The in-place pass over the first `n` lines.
pub open spec fn in_place(
    ls: Seq<Seq<char>>,
    n: int,
    vals: Seq<IniValue>,
    g: Seq<TerminalColor>,
    h: Seq<TerminalColor>,
) -> InPlace
    decreases n,
{
    if n <= 0 {
        InPlace { section: Seq::empty(), out: Seq::empty(), seen: Seq::empty(), seen_grad: Seq::empty() }
    } else {
        in_place_line(in_place(ls, n - 1, vals, g, h), ls[n - 1], vals, g, h)
    }
}

pub open spec fn lines_view(v: Seq<Vec<char>>) -> Seq<Seq<char>> {
    v.map_values(|l: Vec<char>| l@)
}

pub open spec fn pairs_view(v: Seq<(Vec<char>, Vec<char>)>) -> Seq<(Seq<char>, Seq<char>)> {
    v.map_values(|p: (Vec<char>, Vec<char>)| (p.0@, p.1@))
}

pub open spec fn grads_view(v: Seq<(bool, usize)>) -> Seq<(bool, int)> {
    v.map_values(|p: (bool, usize)| (p.0, p.1 as int))
}

fn concat3(a: &[char], b: &[char], c: &[char], d: &[char]) -> (r: Vec<char>)
    ensures
        r@ == a@ + b@ + c@ + d@,
{
    let mut r: Vec<char> = Vec::new();
    push_all(&mut r, a);
    push_all(&mut r, b);
    push_all(&mut r, c);
    push_all(&mut r, d);
    proof {
        assert(r@ =~= a@ + b@ + c@ + d@);
    }
    r
}

#[verifier::rlimit(60)]
/// The in-place pass: every line of `ls`, rewritten where the program owns
/// its key. Returns the lines, the (section, key) pairs rewritten and the
/// gradient entries met.
fn rewrite_in_place(
    ls: &Vec<Vec<char>>,
    vals: &[IniValue],
    g: &[TerminalColor],
    h: &[TerminalColor],
) -> (r: (Vec<Vec<char>>, Vec<(Vec<char>, Vec<char>)>, Vec<(bool, usize)>))
    ensures
        ({
            let p = in_place(lines_view(ls@), ls@.len() as int, vals@, g@, h@);
            &&& lines_view(r.0@) == p.out
            &&& pairs_view(r.1@) == p.seen
            &&& grads_view(r.2@) == p.seen_grad
        }),
{
    let ghost lv = lines_view(ls@);
    let mut section: Vec<char> = Vec::new();
    let mut out: Vec<Vec<char>> = Vec::new();
    let mut seen: Vec<(Vec<char>, Vec<char>)> = Vec::new();
    let mut seen_grad: Vec<(bool, usize)> = Vec::new();
    let sep = chars_of(" = ");
    let mut i: usize = 0;
    while i < ls.len()
        invariant
            0 <= i <= ls@.len(),
            lv == lines_view(ls@),
            sep@ == " = "@,
            ({
                let p = in_place(lv, i as int, vals@, g@, h@);
                &&& section@ == p.section
                &&& lines_view(out@) == p.out
                &&& pairs_view(seen@) == p.seen
                &&& grads_view(seen_grad@) == p.seen_grad
            }),
        decreases ls@.len() - i,
    {
        let ghost p = in_place(lv, i as int, vals@, g@, h@);
        let line = &ls[i];
        assert(line@ == lv[i as int]);
        let t = strip_chars(line, &Strip::Ws);
        let ghost want = in_place_line(p, line@, vals@, g@, h@);
        assert(in_place(lv, i + 1, vals@, g@, h@) == want);
        match header_of_line(&t) {
            Some(name) => {
                section = name;
                out.push(line.clone());
                proof {
                    assert(lines_view(out@) =~= p.out.push(line@));
                }
            },
            None => {
                let eq = find_eq(&t);
                if t.len() == 0 || t[0] == '#' || t[0] == ';' || eq.is_none() {
                    out.push(line.clone());
                    proof {
                        assert(lines_view(out@) =~= p.out.push(line@));
                    }
                } else {
                    let e = match eq {
                        Some(e) => e,
                        None => 0,
                    };
                    let kt = sub_chars(&t, 0, e);
                    assert(kt@ == t@.take(e as int));
                    let ks = strip_chars(&kt, &Strip::Ws);
                    let key = lower_chars(&ks);
                    let raw = sub_chars(&t, e + 1, t.len());
                    assert(raw@ == t@.skip(e + 1));
                    let gk = gradient_key_of(&key);
                    let ghost p2 = match gradient_key(key@) {
                        Some(x) => InPlace { seen_grad: p.seen_grad.push(x), ..p },
                        None => p,
                    };
                    let mut done = false;
                    match gk {
                        Some((hz, idx)) => {
                            seen_grad.push((hz, idx));
                            proof {
                                assert(grads_view(seen_grad@) =~= p2.seen_grad);
                            }
                            let list = if hz { h } else { g };
                            assert(list@ == grad_list(hz, g@, h@));
                            if 1 <= idx && idx <= list.len() {
                                let cname = list[idx - 1].to_ini();
                                let cv = chars_of(cname.as_str());
                                let suffix = ini_comment_suffix(&raw);
                                let nl = concat3(&key, &sep, &cv, &suffix);
                                out.push(nl);
                                proof {
                                    assert(lines_view(out@) =~= p2.out.push(setting_line(key@, grad_list(hz, g@, h@)[idx - 1].ini_name(), raw@)));
                                }
                                done = true;
                            }
                        },
                        None => {},
                    }
                    if !done {
                        match value_lookup(vals, &section, &key) {
                            Some(v) => {
                                let suffix = ini_comment_suffix(&raw);
                                let nl = concat3(&key, &sep, &v, &suffix);
                                seen.push((section.clone(), key.clone()));
                                out.push(nl);
                                proof {
                                    assert(pairs_view(seen@) =~= p2.seen.push((p2.section, key@)));
                                    assert(lines_view(out@) =~= p2.out.push(setting_line(key@, v@, raw@)));
                                }
                            },
                            None => {
                                out.push(line.clone());
                                proof {
                                    assert(lines_view(out@) =~= p2.out.push(line@));
                                }
                            },
                        }
                    }
                }
            },
        }
        i = i + 1;
    }
    (out, seen, seen_grad)
}

/// The sections whose missing keys are added, in order.
pub open spec fn order_section(j: int) -> Seq<char> {
    if j == 0 {
        "general"@
    } else if j == 1 {
        "input"@
    } else if j == 2 {
        "output"@
    } else if j == 3 {
        "color"@
    } else {
        "smoothing"@
    }
}

/// The keys of section `j`, in the order missing ones are added.
pub open spec fn order_keys(j: int) -> Seq<Seq<char>> {
    if j == 0 {
        seq!["framerate"@, "autosens"@, "sensitivity"@, "scaling"@, "bars"@, "bar_width"@,
            "bar_spacing"@, "bar_height"@, "center_align"@, "wrap_bars"@, "max_height"@,
            "lower_cutoff_freq"@, "higher_cutoff_freq"@, "sleep_timer"@, "live_config"@]
    } else if j == 1 {
        seq!["method"@, "source"@, "sample_rate"@, "sample_bits"@, "channels"@, "autoconnect"@]
    } else if j == 2 {
        seq!["method"@, "orientation"@, "channels"@, "mono_option"@, "reverse"@, "split_stereo"@,
            "left_bottom"@, "raw_target"@, "data_format"@, "bit_format"@, "ascii_max_range"@,
            "bar_delimiter"@, "frame_delimiter"@, "xaxis"@, "show_idle_bar_heads"@, "waveform"@,
            "waveform_style"@, "waveform_baseline"@, "waveform_dynamics"@, "waveform_graticule"@,
            "bar_reflection"@, "stereo_divider"@, "baseline_ruler"@, "bar_cap"@, "bright_peaks"@,
            "beat_pulse"@, "ascii_glyphs"@, "reduce_motion"@, "draw_peaks"@, "peak_decay"@]
    } else if j == 3 {
        seq!["background"@, "foreground"@, "gradient"@, "gradient_count"@,
            "horizontal_gradient"@, "horizontal_gradient_count"@, "blend_direction"@, "spectrum"@,
            "background_gradient"@, "theme"@]
    } else {
        seq!["monstercat"@, "waves"@, "noise_reduction"@, "gravity"@]
    }
}

fn words(ws: &[&str]) -> (r: Vec<Vec<char>>)
    ensures
        lines_view(r@) == ws@.map_values(|w: &str| w@),
{
    let mut r: Vec<Vec<char>> = Vec::new();
    let mut i: usize = 0;
    while i < ws.len()
        invariant
            0 <= i <= ws@.len(),
            r@.len() == i,
            forall|k: int| 0 <= k < i ==> #[trigger] r@[k]@ == ws@[k]@,
        decreases ws@.len() - i,
    {
        let c = chars_of(ws[i]);
        r.push(c);
        i = i + 1;
    }
    assert(lines_view(r@) =~= ws@.map_values(|w: &str| w@));
    r
}

fn order_entry(j: usize) -> (r: (Vec<char>, Vec<Vec<char>>))
    requires
        j < 5,
    ensures
        r.0@ == order_section(j as int),
        lines_view(r.1@) == order_keys(j as int),
{
    if j == 0 {
        let a = [
            "framerate", "autosens", "sensitivity", "scaling", "bars", "bar_width", "bar_spacing",
            "bar_height", "center_align", "wrap_bars", "max_height", "lower_cutoff_freq",
            "higher_cutoff_freq", "sleep_timer", "live_config",
        ];
        let k = words(&a);
        assert(a@.map_values(|w: &str| w@) =~= order_keys(0));
        (chars_of("general"), k)
    } else if j == 1 {
        let a = ["method", "source", "sample_rate", "sample_bits", "channels", "autoconnect"];
        let k = words(&a);
        assert(a@.map_values(|w: &str| w@) =~= order_keys(1));
        (chars_of("input"), k)
    } else if j == 2 {
        let a = [
            "method", "orientation", "channels", "mono_option", "reverse", "split_stereo",
            "left_bottom", "raw_target", "data_format", "bit_format", "ascii_max_range",
            "bar_delimiter", "frame_delimiter", "xaxis", "show_idle_bar_heads", "waveform",
            "waveform_style", "waveform_baseline", "waveform_dynamics", "waveform_graticule",
            "bar_reflection", "stereo_divider", "baseline_ruler", "bar_cap", "bright_peaks",
            "beat_pulse", "ascii_glyphs", "reduce_motion", "draw_peaks", "peak_decay",
        ];
        let k = words(&a);
        assert(a@.map_values(|w: &str| w@) =~= order_keys(2));
        (chars_of("output"), k)
    } else if j == 3 {
        let a = [
            "background", "foreground", "gradient", "gradient_count", "horizontal_gradient",
            "horizontal_gradient_count", "blend_direction", "spectrum", "background_gradient",
            "theme",
        ];
        let k = words(&a);
        assert(a@.map_values(|w: &str| w@) =~= order_keys(3));
        (chars_of("color"), k)
    } else {
        let a = ["monstercat", "waves", "noise_reduction", "gravity"];
        let k = words(&a);
        assert(a@.map_values(|w: &str| w@) =~= order_keys(4));
        (chars_of("smoothing"), k)
    }
}

/// Lines for the keys of `keys` (the first `n`) that the text did not hold
/// in `section` but have a value.
pub open spec fn missing_lines(
    section: Seq<char>,
    keys: Seq<Seq<char>>,
    n: int,
    vals: Seq<IniValue>,
    seen: Seq<(Seq<char>, Seq<char>)>,
) -> Seq<Seq<char>>
    decreases n,
{
    if n <= 0 {
        Seq::empty()
    } else {
        let prev = missing_lines(section, keys, n - 1, vals, seen);
        let k = keys[n - 1];
        if !seen.contains((section, k)) && value_for(vals, section, k) is Some {
            prev.push(k + " = "@ + value_for(vals, section, k)->0)
        } else {
            prev
        }
    }
}

/// The blocks of missing keys of the first `j` sections: each section
/// with at least one missing key, with its lines.
pub open spec fn missing_blocks(
    j: int,
    vals: Seq<IniValue>,
    seen: Seq<(Seq<char>, Seq<char>)>,
) -> Seq<(Seq<char>, Seq<Seq<char>>)>
    decreases j,
{
    if j <= 0 {
        Seq::empty()
    } else {
        let prev = missing_blocks(j - 1, vals, seen);
        let ks = order_keys(j - 1);
        let ex = missing_lines(order_section(j - 1), ks, ks.len() as int, vals, seen);
        if ex.len() > 0 {
            prev.push((order_section(j - 1), ex))
        } else {
            prev
        }
    }
}

/// Key prefix of a gradient entry.
pub open spec fn grad_prefix(horizontal: bool) -> Seq<char> {
    if horizontal { "horizontal_gradient_color_"@ } else { "gradient_color_"@ }
}

/// Lines for the first `n` entries of a gradient list that the text did
/// not hold (entries are numbered from 1).
pub open spec fn missing_grad(
    list: Seq<TerminalColor>,
    horizontal: bool,
    n: int,
    seen_grad: Seq<(bool, int)>,
) -> Seq<Seq<char>>
    decreases n,
{
    if n <= 0 {
        Seq::empty()
    } else {
        let prev = missing_grad(list, horizontal, n - 1, seen_grad);
        if !seen_grad.contains((horizontal, n)) {
            prev.push(grad_prefix(horizontal) + dec(n as nat) + " = "@ + list[n - 1].ini_name())
        } else {
            prev
        }
    }
}

/// Index of the first block of `section` from `i` on, if any.
pub open spec fn block_index(b: Seq<(Seq<char>, Seq<Seq<char>>)>, section: Seq<char>, i: int) -> Option<int>
    decreases b.len() - i,
{
    if i < 0 || i >= b.len() {
        None
    } else if b[i].0 == section {
        Some(i)
    } else {
        block_index(b, section, i + 1)
    }
}

/// The blocks to add: missing keys per section, with missing gradient
/// entries joining the `color` block (created when needed).
pub open spec fn blocks_to_add(
    vals: Seq<IniValue>,
    seen: Seq<(Seq<char>, Seq<char>)>,
    seen_grad: Seq<(bool, int)>,
    g: Seq<TerminalColor>,
    h: Seq<TerminalColor>,
) -> Seq<(Seq<char>, Seq<Seq<char>>)> {
    let b = missing_blocks(5, vals, seen);
    let ge = missing_grad(g, false, g.len() as int, seen_grad) + missing_grad(h, true, h.len() as int, seen_grad);
    if ge.len() == 0 {
        b
    } else {
        match block_index(b, "color"@, 0) {
            Some(j) => b.update(j, (b[j].0, b[j].1 + ge)),
            None => b.push(("color"@, ge)),
        }
    }
}

fn pair_seen(seen: &Vec<(Vec<char>, Vec<char>)>, a: &[char], b: &[char]) -> (r: bool)
    ensures
        r == pairs_view(seen@).contains((a@, b@)),
{
    let mut i: usize = 0;
    while i < seen.len()
        invariant
            0 <= i <= seen@.len(),
            forall|k: int| 0 <= k < i ==> pairs_view(seen@)[k] != (a@, b@),
        decreases seen@.len() - i,
    {
        if chars_eq(&seen[i].0, a) && chars_eq(&seen[i].1, b) {
            assert(pairs_view(seen@)[i as int] == (a@, b@));
            return true;
        }
        i = i + 1;
    }
    false
}

fn grad_seen(seen_grad: &Vec<(bool, usize)>, hz: bool, n: usize) -> (r: bool)
    ensures
        r == grads_view(seen_grad@).contains((hz, n as int)),
{
    let mut i: usize = 0;
    while i < seen_grad.len()
        invariant
            0 <= i <= seen_grad@.len(),
            forall|k: int| 0 <= k < i ==> grads_view(seen_grad@)[k] != (hz, n as int),
        decreases seen_grad@.len() - i,
    {
        if seen_grad[i].0 == hz && seen_grad[i].1 == n {
            assert(grads_view(seen_grad@)[i as int] == (hz, n as int));
            return true;
        }
        i = i + 1;
    }
    false
}

pub open spec fn blocks_view(b: Seq<(Vec<char>, Vec<Vec<char>>)>) -> Seq<(Seq<char>, Seq<Seq<char>>)> {
    b.map_values(|e: (Vec<char>, Vec<Vec<char>>)| (e.0@, lines_view(e.1@)))
}

fn section_missing(
    section: &Vec<char>,
    keys: &Vec<Vec<char>>,
    vals: &[IniValue],
    seen: &Vec<(Vec<char>, Vec<char>)>,
) -> (r: Vec<Vec<char>>)
    ensures
        lines_view(r@) == missing_lines(section@, lines_view(keys@), keys@.len() as int, vals@, pairs_view(seen@)),
{
    let sep = chars_of(" = ");
    let mut r: Vec<Vec<char>> = Vec::new();
    let mut i: usize = 0;
    while i < keys.len()
        invariant
            0 <= i <= keys@.len(),
            sep@ == " = "@,
            lines_view(r@) == missing_lines(section@, lines_view(keys@), i as int, vals@, pairs_view(seen@)),
        decreases keys@.len() - i,
    {
        let k = &keys[i];
        assert(k@ == lines_view(keys@)[i as int]);
        if !pair_seen(seen, section, k) {
            match value_lookup(vals, section, k) {
                Some(v) => {
                    let e: Vec<char> = Vec::new();
                    r.push(concat3(k, &sep, &v, &e));
                    proof {
                        assert(lines_view(r@) =~= missing_lines(section@, lines_view(keys@), i as int, vals@, pairs_view(seen@)).push(k@ + " = "@ + v@));
                    }
                },
                None => {},
            }
        }
        i = i + 1;
    }
    r
}

fn grad_missing(list: &[TerminalColor], hz: bool, seen_grad: &Vec<(bool, usize)>) -> (r: Vec<Vec<char>>)
    ensures
        lines_view(r@) == missing_grad(list@, hz, list@.len() as int, grads_view(seen_grad@)),
{
    let sep = chars_of(" = ");
    let prefix = if hz { chars_of("horizontal_gradient_color_") } else { chars_of("gradient_color_") };
    assert(prefix@ == grad_prefix(hz));
    let mut r: Vec<Vec<char>> = Vec::new();
    let mut i: usize = 0;
    while i < list.len()
        invariant
            0 <= i <= list@.len(),
            sep@ == " = "@,
            prefix@ == grad_prefix(hz),
            lines_view(r@) == missing_grad(list@, hz, i as int, grads_view(seen_grad@)),
        decreases list@.len() - i,
    {
        if !grad_seen(seen_grad, hz, i + 1) {
            let mut num: Vec<char> = Vec::new();
            push_decimal(&mut num, (i + 1) as u64);
            let name = chars_of(list[i].to_ini().as_str());
            r.push(concat3(&prefix, &num, &sep, &name));
        }
        proof {
            assert(lines_view(r@) =~= missing_grad(list@, hz, i + 1, grads_view(seen_grad@)));
        }
        i = i + 1;
    }
    r
}

fn append_lines(dst: &mut Vec<Vec<char>>, src: &Vec<Vec<char>>)
    ensures
        lines_view(final(dst)@) == lines_view(old(dst)@) + lines_view(src@),
{
    let ghost start = dst@;
    let mut k: usize = 0;
    while k < src.len()
        invariant
            0 <= k <= src@.len(),
            dst@.len() == start.len() + k,
            forall|j: int| 0 <= j < start.len() ==> #[trigger] dst@[j]@ == start[j]@,
            forall|j: int| 0 <= j < k ==> #[trigger] dst@[start.len() + j]@ == src@[j]@,
        decreases src@.len() - k,
    {
        let c = src[k].clone();
        proof {
            assert(c@ =~= src@[k as int]@);
        }
        dst.push(c);
        proof {
            assert(dst@[start.len() + k]@ == src@[k as int]@);
        }
        k = k + 1;
    }
    proof {
        let want = lines_view(start) + lines_view(src@);
        assert forall|j: int| 0 <= j < want.len() implies lines_view(dst@)[j] == want[j] by {
            if j >= start.len() {
                assert(dst@[start.len() + (j - start.len())]@ == src@[j - start.len()]@);
            }
        }
        assert(lines_view(dst@) =~= want);
    }
}

fn collect_blocks(
    vals: &[IniValue],
    seen: &Vec<(Vec<char>, Vec<char>)>,
    seen_grad: &Vec<(bool, usize)>,
    g: &[TerminalColor],
    h: &[TerminalColor],
) -> (r: Vec<(Vec<char>, Vec<Vec<char>>)>)
    ensures
        blocks_view(r@) == blocks_to_add(vals@, pairs_view(seen@), grads_view(seen_grad@), g@, h@),
{
    let mut b: Vec<(Vec<char>, Vec<Vec<char>>)> = Vec::new();
    let mut j: usize = 0;
    while j < 5
        invariant
            0 <= j <= 5,
            blocks_view(b@) == missing_blocks(j as int, vals@, pairs_view(seen@)),
        decreases 5 - j,
    {
        let (sec, keys) = order_entry(j);
        let ex = section_missing(&sec, &keys, vals, seen);
        if ex.len() > 0 {
            b.push((sec, ex));
        }
        proof {
            assert(blocks_view(b@) =~= missing_blocks(j + 1, vals@, pairs_view(seen@)));
        }
        j = j + 1;
    }
    let mut ge = grad_missing(g, false, seen_grad);
    let ge2 = grad_missing(h, true, seen_grad);
    append_lines(&mut ge, &ge2);
    if ge.len() == 0 {
        return b;
    }
    let color = chars_of("color");
    let mut j: usize = 0;
    while j < b.len()
        invariant
            0 <= j <= b@.len(),
            color@ == "color"@,
            blocks_view(b@) == missing_blocks(5, vals@, pairs_view(seen@)),
            lines_view(ge@) == missing_grad(g@, false, g@.len() as int, grads_view(seen_grad@))
                + missing_grad(h@, true, h@.len() as int, grads_view(seen_grad@)),
            ge@.len() > 0,
            block_index(blocks_view(b@), "color"@, j as int) == block_index(blocks_view(b@), "color"@, 0),
        decreases b@.len() - j,
    {
        if chars_eq(&b[j].0, &color) {
            let ghost bv = blocks_view(b@);
            let (sec, mut lines) = b.remove(j);
            append_lines(&mut lines, &ge);
            b.insert(j, (sec, lines));
            proof {
                assert(blocks_view(b@) =~= bv.update(j as int, (bv[j as int].0, bv[j as int].1 + lines_view(ge@))));
            }
            return b;
        }
        j = j + 1;
    }
    let ghost before = blocks_view(b@);
    b.push((color, ge));
    proof {
        assert(blocks_view(b@) =~= before.push(("color"@, lines_view(ge@))));
    }
    b
}

/// One equalizer setting: the band and the gain text it is written with.
#[derive(Debug, Clone)]
pub struct EqValue {
    pub band: usize,
    pub value: String,
}

/// The band an `N = value` line sets, if the line is one (`+N` counts);
/// comment and header lines set none.
#[verifier::opaque]
pub open spec fn eq_line_band(l: Seq<char>) -> Option<int> {
    let t = trim(l);
    match first_eq(t) {
        Some(e) => if t[0] == '#' || t[0] == ';' || t[0] == '[' {
            None
        } else {
            match parse_uint(trim(t.take(e)), usize::MAX as nat) {
                Some(v) => Some(v as int),
                None => None,
            }
        },
        None => None,
    }
}

/// The gain text of band `b` in `es` from index `i` on (first entry).
pub open spec fn eq_value_from(es: Seq<EqValue>, i: int, b: int) -> Option<Seq<char>>
    decreases es.len() - i,
{
    if i < 0 || i >= es.len() {
        None
    } else if es[i].band == b {
        Some(es[i].value@)
    } else {
        eq_value_from(es, i + 1, b)
    }
}

/// An equalizer line: `band = gain`.
pub open spec fn eq_line(b: int, v: Seq<char>) -> Seq<char> {
    dec(b as nat) + " = "@ + v
}

/// A line after the equalizer rewrite: a line setting a band that has a
/// value is rewritten as `band = gain` (wherever it stands); any other line
/// is kept.
pub open spec fn eq_rewrite_line(es: Seq<EqValue>, l: Seq<char>) -> Seq<char> {
    match eq_line_band(l) {
        Some(b) => match eq_value_from(es, 0, b) {
            Some(v) => eq_line(b, v),
            None => l,
        },
        None => l,
    }
}

/// Whether some line of `ls` sets band `b`.
pub open spec fn band_in(ls: Seq<Seq<char>>, b: int) -> bool {
    exists|i: int| 0 <= i < ls.len() && #[trigger] eq_line_band(ls[i]) == Some(b)
}

/// The entries of the first `n` of `es` whose band no line of `ls` sets.
pub open spec fn eq_pending(es: Seq<EqValue>, n: int, ls: Seq<Seq<char>>) -> Seq<EqValue>
    decreases n,
{
    if n <= 0 {
        Seq::empty()
    } else {
        let prev = eq_pending(es, n - 1, ls);
        if band_in(ls, es[n - 1].band as int) {
            prev
        } else {
            prev.push(es[n - 1])
        }
    }
}

/// Index of the first `[eq]` header line of `ls` from `i` on.
pub open spec fn eq_header_from(ls: Seq<Seq<char>>, i: int) -> Option<int>
    decreases ls.len() - i,
{
    if i < 0 || i >= ls.len() {
        None
    } else if trim(ls[i]) == "[eq]"@ {
        Some(i)
    } else {
        eq_header_from(ls, i + 1)
    }
}

/// Whether a line belongs to the body of the section above it: blank, a
/// `#` comment, or a setting.
pub open spec fn in_body(l: Seq<char>) -> bool {
    let t = trim(l);
    t.len() == 0 || t[0] == '#' || (l.contains('=') && t[0] != '[')
}

/// The first index from `i` on that is not part of a section body.
pub open spec fn body_end(ls: Seq<Seq<char>>, i: int) -> int
    decreases ls.len() - i,
{
    if 0 <= i < ls.len() && in_body(ls[i]) {
        body_end(ls, i + 1)
    } else {
        i
    }
}

/// The lines of the pending equalizer entries, then a blank line; nothing
/// when no entry is pending.
pub open spec fn eq_block(p: Seq<EqValue>) -> Seq<Seq<char>> {
    if p.len() == 0 {
        Seq::empty()
    } else {
        p.map_values(|e: EqValue| eq_line(e.band as int, e.value@)).push(Seq::empty())
    }
}

/// Every line after the equalizer rewrite.
pub open spec fn eq_rewritten(ls: Seq<Seq<char>>, es: Seq<EqValue>) -> Seq<Seq<char>> {
    ls.map_values(|l: Seq<char>| eq_rewrite_line(es, l))
}

/// The equalizer pass: with no equalizer entries the lines are unchanged.
/// Otherwise lines setting a band are rewritten, an `[eq]` section is added
/// at the end when there is none, and the entries no line set are inserted
/// after the body of the first `[eq]` section, followed by a blank line.
pub open spec fn with_eq(ls: Seq<Seq<char>>, es: Seq<EqValue>) -> Seq<Seq<char>> {
    if es.len() == 0 {
        ls
    } else {
        let r = eq_rewritten(ls, es);
        let p = eq_pending(es, es.len() as int, ls);
        let r2 = if eq_header_from(r, 0) is None { r.push(Seq::empty()).push("[eq]"@) } else { r };
        let at = body_end(r2, eq_header_from(r2, 0)->0 + 1);
        r2.take(at) + eq_block(p) + r2.skip(at)
    }
}

fn eq_band_of_line(l: &Vec<char>) -> (r: Option<usize>)
    ensures
        r matches Some(b) ==> eq_line_band(l@) == Some(b as int),
        r is None ==> eq_line_band(l@) is None,
{
    reveal(eq_line_band);
    let t = strip_chars(l, &Strip::Ws);
    match find_eq(&t) {
        Some(e) => {
            if t[0] == '#' || t[0] == ';' || t[0] == '[' {
                None
            } else {
                let k = sub_chars(&t, 0, e);
                assert(k@ == t@.take(e as int));
                let kt = strip_chars(&k, &Strip::Ws);
                match parse_uint_chars(&kt, usize::MAX as u64) {
                    Some(v) => Some(v as usize),
                    None => None,
                }
            }
        },
        None => None,
    }
}

fn eq_value_lookup(es: &[EqValue], b: usize) -> (r: Option<Vec<char>>)
    ensures
        r matches Some(v) ==> eq_value_from(es@, 0, b as int) == Some(v@),
        r is None ==> eq_value_from(es@, 0, b as int) is None,
{
    let mut i: usize = 0;
    while i < es.len()
        invariant
            0 <= i <= es@.len(),
            eq_value_from(es@, i as int, b as int) == eq_value_from(es@, 0, b as int),
        decreases es@.len() - i,
    {
        if es[i].band == b {
            return Some(chars_of(es[i].value.as_str()));
        }
        i = i + 1;
    }
    None
}

fn eq_line_exec(b: usize, v: &[char]) -> (r: Vec<char>)
    ensures
        r@ == eq_line(b as int, v@),
{
    let mut r: Vec<char> = Vec::new();
    push_decimal(&mut r, b as u64);
    let sep = chars_of(" = ");
    push_all(&mut r, &sep);
    push_all(&mut r, v);
    proof {
        assert(r@ =~= eq_line(b as int, v@));
    }
    r
}

fn trimmed_is(l: &Vec<char>, w: &str) -> (r: bool)
    ensures
        r == (trim(l@) == w@),
{
    let t = strip_chars(l, &Strip::Ws);
    let wc = chars_of(w);
    chars_eq(&t, &wc)
}

fn in_body_exec(l: &Vec<char>) -> (r: bool)
    ensures
        r == in_body(l@),
{
    let t = strip_chars(l, &Strip::Ws);
    if t.len() == 0 || t[0] == '#' {
        return true;
    }
    let mut has_eq = false;
    let mut i: usize = 0;
    while i < l.len()
        invariant
            0 <= i <= l@.len(),
            has_eq == (exists|j: int| 0 <= j < i && #[trigger] l@[j] == '='),
        decreases l@.len() - i,
    {
        if l[i] == '=' {
            has_eq = true;
        }
        i = i + 1;
    }
    has_eq && t[0] != '['
}

fn eq_rewrite_all(ls: &Vec<Vec<char>>, es: &[EqValue]) -> (r: Vec<Vec<char>>)
    ensures
        lines_view(r@) == eq_rewritten(lines_view(ls@), es@),
{
    let ghost lv = lines_view(ls@);
    let mut r: Vec<Vec<char>> = Vec::new();
    let mut i: usize = 0;
    while i < ls.len()
        invariant
            0 <= i <= ls@.len(),
            lv == lines_view(ls@),
            r@.len() == i,
            forall|k: int| 0 <= k < i ==> #[trigger] r@[k]@ == eq_rewrite_line(es@, lv[k]),
        decreases ls@.len() - i,
    {
        let l = &ls[i];
        assert(l@ == lv[i as int]);
        let nl = match eq_band_of_line(l) {
            Some(b) => match eq_value_lookup(es, b) {
                Some(v) => eq_line_exec(b, &v),
                None => l.clone(),
            },
            None => l.clone(),
        };
        r.push(nl);
        i = i + 1;
    }
    proof {
        assert(lines_view(r@) =~= eq_rewritten(lv, es@));
    }
    r
}

fn band_set_in(ls: &Vec<Vec<char>>, b: usize) -> (r: bool)
    ensures
        r == band_in(lines_view(ls@), b as int),
{
    let ghost lv = lines_view(ls@);
    let mut found = false;
    let mut k: usize = 0;
    while k < ls.len()
        invariant
            0 <= k <= ls@.len(),
            lv == lines_view(ls@),
            found == (exists|m: int| 0 <= m < k && #[trigger] eq_line_band(lv[m]) == Some(b as int)),
        decreases ls@.len() - k,
    {
        match eq_band_of_line(&ls[k]) {
            Some(x) => {
                if x == b {
                    assert(eq_line_band(lv[k as int]) == Some(b as int));
                    found = true;
                }
            },
            None => {},
        }
        k = k + 1;
    }
    found
}

/// The pending entries as (band, gain) pairs.
fn eq_pending_exec(ls: &Vec<Vec<char>>, es: &[EqValue]) -> (r: Vec<(usize, Vec<char>)>)
    ensures
        r@.len() == eq_pending(es@, es@.len() as int, lines_view(ls@)).len(),
        forall|k: int| 0 <= k < r@.len() ==> #[trigger] r@[k].0 == eq_pending(es@, es@.len() as int, lines_view(ls@))[k].band
            && r@[k].1@ == eq_pending(es@, es@.len() as int, lines_view(ls@))[k].value@,
{
    let ghost lv = lines_view(ls@);
    let mut pending: Vec<(usize, Vec<char>)> = Vec::new();
    let mut j: usize = 0;
    while j < es.len()
        invariant
            0 <= j <= es@.len(),
            lv == lines_view(ls@),
            pending@.len() == eq_pending(es@, j as int, lv).len(),
            forall|k: int| 0 <= k < pending@.len() ==> #[trigger] pending@[k].0 == eq_pending(es@, j as int, lv)[k].band
                && pending@[k].1@ == eq_pending(es@, j as int, lv)[k].value@,
        decreases es@.len() - j,
    {
        let b = es[j].band;
        if !band_set_in(ls, b) {
            pending.push((b, chars_of(es[j].value.as_str())));
        }
        j = j + 1;
    }
    pending
}

/// Adds a blank line and an `[eq]` header when the lines have no `[eq]`
/// header.
fn ensure_eq_header(r: &mut Vec<Vec<char>>)
    ensures
        lines_view(final(r)@) == (if eq_header_from(lines_view(old(r)@), 0) is None {
            lines_view(old(r)@).push(Seq::empty()).push("[eq]"@)
        } else {
            lines_view(old(r)@)
        }),
        eq_header_from(lines_view(final(r)@), 0) is Some,
{
    let ghost r1 = lines_view(r@);
    let mut h: usize = 0;
    while h < r.len() && !trimmed_is(&r[h], "[eq]")
        invariant
            0 <= h <= r@.len(),
            r1 == lines_view(r@),
            eq_header_from(r1, h as int) == eq_header_from(r1, 0),
        decreases r@.len() - h,
    {
        h = h + 1;
    }
    if h >= r.len() {
        r.push(Vec::new());
        r.push(chars_of("[eq]"));
        proof {
            assert(lines_view(r@) =~= r1 + seq![Seq::empty(), "[eq]"@]);
            assert(r1.push(Seq::empty()).push("[eq]"@) =~= r1 + seq![Seq::empty(), "[eq]"@]);
            lemma_trim_eq_header();
            lemma_header_from_extend(r1, seq![Seq::empty(), "[eq]"@], 0);
            assert(trim(Seq::<char>::empty()) =~= Seq::<char>::empty());
            reveal_strlit("[eq]");
            let ext = r1 + seq![Seq::empty(), "[eq]"@];
            assert(ext[r1.len() as int] == Seq::<char>::empty());
            assert(ext[(r1.len() + 1) as int] == "[eq]"@);
            assert(eq_header_from(ext, (r1.len() + 1) as int) == Some((r1.len() + 1) as int));
            assert(eq_header_from(ext, r1.len() as int) == Some((r1.len() + 1) as int));
        }
    }
}

/// Inserts the pending entries after the body of the first `[eq]` section.
fn insert_eq_block(r: Vec<Vec<char>>, pending: &Vec<(usize, Vec<char>)>) -> (out: Vec<Vec<char>>)
    requires
        eq_header_from(lines_view(r@), 0) is Some,
    ensures
        ({
            let r2 = lines_view(r@);
            let at = body_end(r2, eq_header_from(r2, 0)->0 + 1);
            let lines = pending@.map_values(|e: (usize, Vec<char>)| eq_line(e.0 as int, e.1@));
            let block = if pending@.len() == 0 { Seq::<Seq<char>>::empty() } else { lines.push(Seq::<char>::empty()) };
            lines_view(out@) == r2.take(at) + block + r2.skip(at)
        }),
{
    let mut r = r;
    let ghost r2 = lines_view(r@);
    let mut pos: usize = 0;
    while pos < r.len() && !trimmed_is(&r[pos], "[eq]")
        invariant
            0 <= pos <= r@.len(),
            r2 == lines_view(r@),
            eq_header_from(r2, pos as int) == eq_header_from(r2, 0),
            eq_header_from(r2, 0) is Some,
        decreases r@.len() - pos,
    {
        pos = pos + 1;
    }
    let mut at = pos + 1;
    while at < r.len() && in_body_exec(&r[at])
        invariant
            pos + 1 <= at <= r@.len(),
            r2 == lines_view(r@),
            body_end(r2, at as int) == body_end(r2, pos + 1),
        decreases r@.len() - at,
    {
        at = at + 1;
    }
    let mut block: Vec<Vec<char>> = Vec::new();
    let mut q: usize = 0;
    while q < pending.len()
        invariant
            0 <= q <= pending@.len(),
            block@.len() == q,
            forall|k: int| 0 <= k < q ==> #[trigger] block@[k]@ == eq_line(pending@[k].0 as int, pending@[k].1@),
        decreases pending@.len() - q,
    {
        block.push(eq_line_exec(pending[q].0, &pending[q].1));
        q = q + 1;
    }
    proof {
        assert(lines_view(block@) =~= pending@.map_values(|e: (usize, Vec<char>)| eq_line(e.0 as int, e.1@)));
    }
    if pending.len() > 0 {
        block.push(Vec::new());
    }
    let tail = r.split_off(at);
    proof {
        assert(lines_view(r@) =~= r2.take(at as int));
        assert(lines_view(tail@) =~= r2.skip(at as int));
        if pending@.len() > 0 {
            assert(lines_view(block@) =~= pending@.map_values(|e: (usize, Vec<char>)| eq_line(e.0 as int, e.1@)).push(Seq::<char>::empty()));
        } else {
            assert(lines_view(block@) =~= Seq::<Seq<char>>::empty());
        }
    }
    append_lines(&mut r, &block);
    append_lines(&mut r, &tail);
    r
}

/// The equalizer pass (see [`with_eq`]).
fn apply_eq(ls: Vec<Vec<char>>, es: &[EqValue]) -> (r: Vec<Vec<char>>)
    ensures
        lines_view(r@) == with_eq(lines_view(ls@), es@),
{
    if es.len() == 0 {
        return ls;
    }
    let mut r = eq_rewrite_all(&ls, es);
    let pending = eq_pending_exec(&ls, es);
    ensure_eq_header(&mut r);
    let out = insert_eq_block(r, &pending);
    proof {
        let p = eq_pending(es@, es@.len() as int, lines_view(ls@));
        assert(pending@.len() == p.len());
        if p.len() > 0 {
            assert(pending@.map_values(|e: (usize, Vec<char>)| eq_line(e.0 as int, e.1@)).push(Seq::<char>::empty()) =~= eq_block(p));
        } else {
            assert(eq_block(p) =~= Seq::<Seq<char>>::empty());
        }
    }
    out
}

proof fn lemma_trim_eq_header()
    ensures
        trim("[eq]"@) == "[eq]"@,
{
    reveal_strlit("[eq]");
    let s = "[eq]"@;
    assert(crate::text::front_run(s, Strip::Ws) == 0);
    assert(s.skip(0) =~= s);
    assert(back_run(s, Strip::Ws) == 0);
    assert(s.take(s.len() as int) =~= s);
}

proof fn lemma_header_from_extend(a: Seq<Seq<char>>, b: Seq<Seq<char>>, i: int)
    requires
        0 <= i <= a.len(),
    ensures
        eq_header_from(a + b, i) == (match eq_header_from(a, i) {
            Some(k) => Some(k),
            None => eq_header_from(a + b, a.len() as int),
        }),
    decreases a.len() - i,
{
    if i < a.len() {
        assert((a + b)[i] == a[i]);
        lemma_header_from_extend(a, b, i + 1);
    }
}

/// Where the lines of section header `h` go, scanning from `i` with
/// `in_sec` telling whether the section is open and `at` the place found so
/// far: right after the header (any case), then after each later line of
/// the section that is neither blank nor a comment, up to the next header.
pub open spec fn insert_point(ls: Seq<Seq<char>>, h: Seq<char>, i: int, in_sec: bool, at: Option<int>) -> Option<int>
    decreases ls.len() - i,
{
    if i < 0 || i >= ls.len() {
        at
    } else {
        let t = trim(ls[i]);
        if eq_ignore_ascii_case(t, h) {
            insert_point(ls, h, i + 1, true, Some(i + 1))
        } else if in_sec {
            if is_header(t) {
                at
            } else if !(t.len() == 0 || t[0] == '#' || t[0] == ';') {
                insert_point(ls, h, i + 1, true, Some(i + 1))
            } else {
                insert_point(ls, h, i + 1, true, at)
            }
        } else {
            insert_point(ls, h, i + 1, false, at)
        }
    }
}

/// The lines with a block of `section` merged in: after the section's last
/// setting when its header is there, else at the end under a new header
/// after a blank line.
pub open spec fn merge_block(ls: Seq<Seq<char>>, section: Seq<char>, block: Seq<Seq<char>>) -> Seq<Seq<char>> {
    let h = "["@ + section + "]"@;
    match insert_point(ls, h, 0, false, None) {
        Some(at) => ls.take(at) + block + ls.skip(at),
        None => ls.push(Seq::empty()).push(h) + block,
    }
}

/// The lines with the first `n` blocks merged in, in order.
pub open spec fn merge_blocks(ls: Seq<Seq<char>>, b: Seq<(Seq<char>, Seq<Seq<char>>)>, n: int) -> Seq<Seq<char>>
    decreases n,
{
    if n <= 0 {
        ls
    } else {
        let prev = merge_blocks(ls, b, n - 1);
        merge_block(prev, b[n - 1].0, b[n - 1].1)
    }
}

/// Each line followed by a newline.
pub open spec fn joined(ls: Seq<Seq<char>>) -> Seq<char>
    decreases ls.len(),
{
    if ls.len() == 0 {
        Seq::empty()
    } else {
        joined(ls.drop_last()) + ls.last() + seq!['\n']
    }
}

/// The file body: the lines joined by newlines, ending in a newline.
pub open spec fn file_body(ls: Seq<Seq<char>>) -> Seq<char> {
    if ls.len() == 0 { seq!['\n'] } else { joined(ls) }
}

/// The INI text with the settings written back (see [`rewrite_ini`]).
pub open spec fn rewritten_ini(
    old_text: Seq<char>,
    vals: Seq<IniValue>,
    g: Seq<TerminalColor>,
    h: Seq<TerminalColor>,
    es: Seq<EqValue>,
) -> Seq<char> {
    let ls = lines(old_text);
    let p = in_place(ls, ls.len() as int, vals, g, h);
    let blocks = blocks_to_add(vals, p.seen, p.seen_grad, g, h);
    let with = with_eq(p.out, es);
    file_body(merge_blocks(with, blocks, blocks.len() as int))
}

fn merge_one(ls: Vec<Vec<char>>, section: &Vec<char>, block: &Vec<Vec<char>>) -> (r: Vec<Vec<char>>)
    ensures
        lines_view(r@) == merge_block(lines_view(ls@), section@, lines_view(block@)),
{
    let mut ls = ls;
    let ghost lv = lines_view(ls@);
    let mut h: Vec<char> = Vec::new();
    h.push('[');
    push_all(&mut h, section);
    h.push(']');
    proof {
        assert(h@ =~= "["@ + section@ + "]"@) by {
            reveal_strlit("[");
            reveal_strlit("]");
        }
    }
    let mut in_sec = false;
    let mut at: Option<usize> = None;
    let mut i: usize = 0;
    while i < ls.len()
        invariant
            0 <= i <= ls@.len(),
            lv == lines_view(ls@),
            at matches Some(a) ==> a <= ls@.len(),
            insert_point(lv, h@, i as int, in_sec, match at { Some(a) => Some(a as int), None => None })
                == insert_point(lv, h@, 0, false, None),
        ensures
            at matches Some(a) ==> a <= ls@.len(),
            lv == lines_view(ls@),
            (match at { Some(a) => Some(a as int), None => None }) == insert_point(lv, h@, 0, false, None),
        decreases ls@.len() - i,
    {
        let t = strip_chars(&ls[i], &Strip::Ws);
        assert(t@ == trim(lv[i as int]));
        if chars_eq_ignore_ascii_case(&t, &h) {
            in_sec = true;
            at = Some(i + 1);
        } else if in_sec {
            if t.len() > 0 && t[0] == '[' && t[t.len() - 1] == ']' {
                assert(is_header(t@));
                break;
            } else if !(t.len() == 0 || t[0] == '#' || t[0] == ';') {
                at = Some(i + 1);
            }
        }
        i = i + 1;
    }
    match at {
        Some(a) => {
            let tail = ls.split_off(a);
            proof {
                assert(lines_view(ls@) =~= lv.take(a as int));
                assert(lines_view(tail@) =~= lv.skip(a as int));
            }
            append_lines(&mut ls, block);
            append_lines(&mut ls, &tail);
            ls
        },
        None => {
            ls.push(Vec::new());
            ls.push(h);
            proof {
                assert(lines_view(ls@) =~= lv.push(Seq::empty()).push("["@ + section@ + "]"@));
            }
            append_lines(&mut ls, block);
            ls
        },
    }
}

fn join_lines(ls: &Vec<Vec<char>>) -> (r: Vec<char>)
    ensures
        r@ == file_body(lines_view(ls@)),
{
    let ghost lv = lines_view(ls@);
    let mut r: Vec<char> = Vec::new();
    let mut i: usize = 0;
    while i < ls.len()
        invariant
            0 <= i <= ls@.len(),
            lv == lines_view(ls@),
            r@ == joined(lv.take(i as int)),
        decreases ls@.len() - i,
    {
        push_all(&mut r, &ls[i]);
        r.push('\n');
        proof {
            let t = lv.take(i + 1);
            assert(t.drop_last() =~= lv.take(i as int));
            assert(t.last() == ls@[i as int]@);
            assert(r@ =~= joined(lv.take(i as int)) + ls@[i as int]@ + seq!['\n']);
        }
        i = i + 1;
    }
    proof {
        assert(lv.take(ls@.len() as int) =~= lv);
    }
    if ls.len() == 0 {
        r.push('\n');
        proof {
            assert(r@ =~= seq!['\n']);
        }
    }
    r
}

/// Writes the settings back into the INI text `old_text`.
///
/// Every line is kept except those holding a key the program owns: a
/// `gradient_color_N` / `horizontal_gradient_color_N` entry that exists is
/// rewritten with that colour, a key that `values` gives a value in the
/// current section is rewritten as `key = value`; both keep the old
/// value's trailing comment. Equalizer bands (`N = gain`) are rewritten in
/// place and missing ones are added to the `[eq]` section (created at the
/// end when needed). Keys of the known sections that the text lacks but
/// that have a value, and gradient entries it lacks, are then added after
/// the last setting of their section, or under a new header at the end.
/// The result ends in a newline.
pub fn rewrite_ini(
    old_text: &str,
    values: &[IniValue],
    gradient: &[TerminalColor],
    horizontal: &[TerminalColor],
    eq: &[EqValue],
) -> (r: String)
    ensures
        r@ == rewritten_ini(old_text@, values@, gradient@, horizontal@, eq@),
{
    let text = chars_of(old_text);
    let ls = split_lines(&text);
    proof {
        assert(lines_view(ls@) =~= lines(old_text@));
    }
    let (out, seen, seen_grad) = rewrite_in_place(&ls, values, gradient, horizontal);
    let blocks = collect_blocks(values, &seen, &seen_grad, gradient, horizontal);
    let with = apply_eq(out, eq);
    let ghost bv = blocks_view(blocks@);
    let ghost wv = lines_view(with@);
    let mut merged = with;
    let mut j: usize = 0;
    while j < blocks.len()
        invariant
            0 <= j <= blocks@.len(),
            bv == blocks_view(blocks@),
            lines_view(merged@) == merge_blocks(wv, bv, j as int),
        decreases blocks@.len() - j,
    {
        assert(bv[j as int] == (blocks@[j as int].0@, lines_view(blocks@[j as int].1@)));
        merged = merge_one(merged, &blocks[j].0, &blocks[j].1);
        j = j + 1;
    }
    let body = join_lines(&merged);
    string_of(&body)
}

/// Whether a line holds no key the program would rewrite, whatever the
/// section: a header, a blank line, a comment, a line without `=`, or a key
/// that is no gradient entry and has no value in any section.
pub open spec fn foreign_line(l: Seq<char>, vals: Seq<IniValue>) -> bool {
    let t = trim(l);
    ||| is_header(t)
    ||| t.len() == 0 || t[0] == '#' || t[0] == ';' || first_eq(t) is None
    ||| ({
        let key = lower(trim(t.take(first_eq(t)->0)));
        &&& gradient_key(key) is None
        &&& forall|sec: Seq<char>| value_for(vals, sec, key) is None
    })
}

/// The in-place pass writes exactly one line per line read, and keeps
/// every line that holds no key the program owns (comments, blank lines,
/// headers, unknown keys) verbatim, in place.
pub proof fn lemma_in_place_keeps_foreign_lines(
    ls: Seq<Seq<char>>,
    n: int,
    vals: Seq<IniValue>,
    g: Seq<TerminalColor>,
    h: Seq<TerminalColor>,
)
    requires
        0 <= n <= ls.len(),
    ensures
        in_place(ls, n, vals, g, h).out.len() == n,
        forall|i: int| 0 <= i < n && foreign_line(ls[i], vals) ==> #[trigger] in_place(ls, n, vals, g, h).out[i] == ls[i],
    decreases n,
{
    if n > 0 {
        lemma_in_place_keeps_foreign_lines(ls, n - 1, vals, g, h);
        let p = in_place(ls, n - 1, vals, g, h);
        let q = in_place(ls, n, vals, g, h);
        assert(q == in_place_line(p, ls[n - 1], vals, g, h));
        assert forall|i: int| 0 <= i < n && foreign_line(ls[i], vals) implies #[trigger] q.out[i] == ls[i] by {
            if i < n - 1 {
                assert(q.out[i] == p.out[i]);
            } else {
                let t = trim(ls[i]);
                if !is_header(t) && !(t.len() == 0 || t[0] == '#' || t[0] == ';' || first_eq(t) is None) {
                    let key = lower(trim(t.take(first_eq(t)->0)));
                    assert(value_for(vals, p.section, key) is None);
                }
            }
        }
    }
}

} // verus!
