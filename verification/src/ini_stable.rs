//! Laws of saving a configuration: a save is stable (writing the same
//! settings into a text that a save produced changes nothing) and a saved
//! text reads back as what was written. The in-place pass is a map over
//! lines, each line read in the section it stands in; a written line reads
//! back as itself, and every key a save adds stands in its section
//! afterwards.

use vstd::prelude::*;
use crate::config::{
    clean_color_text, comment_cut, first_eq, header_name, ini_setting, ini_value, is_header,
    lemma_clean_keeps, line_entry, section_after, IniSetting, TerminalColor,
};
use crate::ini_write::{
    block_index, blocks_to_add, comment_start, comment_suffix, file_body, grad_list, gradient_key,
    in_place, in_place_line, insert_point, joined, merge_block, merge_blocks, missing_blocks,
    missing_grad, missing_lines, order_keys, order_section, rewritten_ini, setting_line, value_for,
    value_from, with_eq, EqValue, InPlace, IniValue, trim_end, ws_start, eq_line, eq_line_band,
    eq_rewrite_line, eq_rewritten, eq_value_from, band_in, eq_pending, eq_header_from, body_end, eq_block, in_body,
};
use crate::text::{
    all_digits, digit_char, is_digit, parse_uint, uint_value, unsigned_digits, back_run, chop_cr, dec, eq_ignore_ascii_case, front_run, is_ascii_ws, is_ws, lines, lines_from,
    lower, lower_char, newline_at, trim, Strip,
};

verus! {

/// A value that a save writes so that it reads back the same: not empty,
/// not ending in whitespace, without quotes or line breaks, and without a
/// `#` or `;` right after whitespace (which would start a comment).
pub open spec fn plain_value(v: Seq<char>) -> bool {
    &&& v.len() > 0
    &&& !is_ws(v.last())
    &&& forall|i: int| 0 <= i < v.len() ==> v[i] != '"' && v[i] != '\'' && v[i] != '\n'
    &&& forall|i: int| 1 <= i < v.len() && (#[trigger] v[i] == '#' || v[i] == ';') ==> !is_ascii_ws(v[i - 1])
}

/// The writer's scan for a trailing comment over `t`, from `i` with quote
/// `q` open and `saw` telling whether a value character was seen: the
/// state it ends in, or `None` where it meets a comment.
pub open spec fn write_scan(t: Seq<char>, i: int, q: Option<char>, saw: bool) -> Option<(Option<char>, bool)>
    decreases t.len() - i,
{
    if i < 0 || i >= t.len() {
        Some((q, saw))
    } else {
        let ch = t[i];
        match q {
            Some(qc) => if ch == qc {
                write_scan(t, i + 1, None, saw)
            } else {
                write_scan(t, i + 1, q, true)
            },
            None => if ch == '\'' || ch == '"' {
                write_scan(t, i + 1, Some(ch), saw)
            } else if (ch == '#' || ch == ';') && saw && i > 0 && is_ascii_ws(t[i - 1]) {
                None
            } else if !is_ws(ch) {
                write_scan(t, i + 1, None, true)
            } else {
                write_scan(t, i + 1, None, saw)
            },
        }
    }
}

/// The reader's scan for an inline comment over `t`, from `i` with quote
/// `q` open: the quote state it ends in, or `None` where it meets a comment.
pub open spec fn read_scan(t: Seq<char>, i: int, q: Option<char>) -> Option<Option<char>>
    decreases t.len() - i,
{
    if i < 0 || i >= t.len() {
        Some(q)
    } else {
        match q {
            Some(qc) => if t[i] == qc {
                read_scan(t, i + 1, None)
            } else {
                read_scan(t, i + 1, q)
            },
            None => if t[i] == '\'' || t[i] == '"' {
                read_scan(t, i + 1, Some(t[i]))
            } else if (t[i] == '#' || t[i] == ';') && i > 0 && is_ascii_ws(t[i - 1]) {
                None
            } else {
                read_scan(t, i + 1, None)
            },
        }
    }
}

/// A value a save writes back in place: no line break, no whitespace at
/// its end, and nothing in it that the writer takes for a comment. Every
/// value the reader returns has this shape unless it holds a comment mark
/// after whitespace (possible only inside quotes), which a save could not
/// write back as one value.
pub open spec fn saved_value(v: Seq<char>) -> bool {
    &&& forall|i: int| 0 <= i < v.len() ==> #[trigger] v[i] != '\n'
    &&& v.len() > 0 ==> !is_ws(v.last())
    &&& write_scan(seq![' '] + v, 0, None, false) is Some
}

/// A value after which a kept comment is found again: it leaves no quote
/// open and holds a visible character.
pub open spec fn carries_comment(v: Seq<char>) -> bool {
    write_scan(seq![' '] + v, 0, None, false) == Some((None::<char>, true))
}

/// A value the reader takes back as written: nothing in it that the reader
/// takes for a comment, and no whitespace or quote at either end.
pub open spec fn reads_back(v: Seq<char>) -> bool {
    &&& read_scan(v, 0, None) is Some
    &&& v.len() > 0 ==> !is_ws(v[0]) && v[0] != '\'' && v[0] != '"' && v.last() != '\'' && v.last() != '"'
}

/// A setting line of `x` in section `sec` keeps its trailing comment only
/// where the value a save writes on it carries the comment.
pub open spec fn comment_kept(x: Seq<char>, sec: Seq<char>, vals: Seq<IniValue>) -> bool {
    let t = trim(x);
    holds_setting(t) && (value_for(vals, sec, setting_key(t)) matches Some(v) && !carries_comment(v))
        ==> comment_suffix(raw_of(t)) == Seq::<char>::empty()
}

/// Every setting line of `ls` keeps its comment only after a value that
/// carries it.
pub open spec fn comments_kept(ls: Seq<Seq<char>>, vals: Seq<IniValue>) -> bool {
    forall|i: int| 0 <= i < ls.len() ==> #[trigger] comment_kept(ls[i], section_after(ls, i), vals)
}

/// A key that a save writes so that it reads back the same: not empty,
/// lower case, without whitespace or `=`, not starting like a comment or a
/// header, no gradient entry and no equalizer band number.
pub open spec fn plain_key(k: Seq<char>) -> bool {
    &&& k.len() > 0
    &&& k[0] != '#' && k[0] != ';' && k[0] != '['
    &&& forall|i: int| 0 <= i < k.len() ==> !is_ws(k[i]) && k[i] != '='
    &&& lower(k) == k
    &&& gradient_key(k) is None
    &&& uint_value(k) is None
}

/// Every setting of `vals` has a plain key and a value a save writes back
/// in place.
pub open spec fn plain_settings(vals: Seq<IniValue>) -> bool {
    forall|i: int| 0 <= i < vals.len() ==> plain_key(#[trigger] vals[i].key@) && saved_value(vals[i].value@)
}

/// A trimmed line that holds a setting: no header, blank line or comment,
/// and an `=` in it.
pub open spec fn holds_setting(t: Seq<char>) -> bool {
    !is_header(t) && !(t.len() == 0 || t[0] == '#' || t[0] == ';' || first_eq(t) is None)
}

/// The key of a trimmed setting line, as the reader and the writer take
/// it: the text before the first `=`, trimmed and lower-cased.
pub open spec fn setting_key(t: Seq<char>) -> Seq<char> {
    lower(trim(t.take(first_eq(t)->0)))
}

/// The raw value text of a trimmed setting line: everything after its
/// first `=`.
pub open spec fn raw_of(t: Seq<char>) -> Seq<char> {
    t.skip(first_eq(t)->0 + 1)
}

spec fn colour_line(key: Seq<char>, g: Seq<TerminalColor>, h: Seq<TerminalColor>) -> bool {
    match gradient_key(key) {
        Some((hz, idx)) => 1 <= idx <= grad_list(hz, g, h).len(),
        None => false,
    }
}

/// The line the in-place pass writes for `x` in section `s`.
#[verifier::opaque]
spec fn line_out(
    x: Seq<char>,
    s: Seq<char>,
    vals: Seq<IniValue>,
    g: Seq<TerminalColor>,
    h: Seq<TerminalColor>,
) -> Seq<char> {
    let t = trim(x);
    if !holds_setting(t) {
        x
    } else {
        let key = setting_key(t);
        if colour_line(key, g, h) {
            let (hz, idx) = gradient_key(key)->0;
            setting_line(key, grad_list(hz, g, h)[idx - 1].ini_name(), raw_of(t))
        } else {
            match value_for(vals, s, key) {
                Some(v) => setting_line(key, v, raw_of(t)),
                None => x,
            }
        }
    }
}

/// The (section, key) pair the pass records for `x` in section `s`.
#[verifier::opaque]
spec fn line_seen(
    x: Seq<char>,
    s: Seq<char>,
    vals: Seq<IniValue>,
    g: Seq<TerminalColor>,
    h: Seq<TerminalColor>,
) -> Seq<(Seq<char>, Seq<char>)> {
    let t = trim(x);
    if holds_setting(t) && !colour_line(setting_key(t), g, h) && value_for(vals, s, setting_key(t)) is Some {
        seq![(s, setting_key(t))]
    } else {
        Seq::empty()
    }
}

/// The gradient entry the pass records for `x`.
#[verifier::opaque]
spec fn line_grad(x: Seq<char>) -> Seq<(bool, int)> {
    let t = trim(x);
    if holds_setting(t) {
        match gradient_key(setting_key(t)) {
            Some(p) => seq![p],
            None => Seq::empty(),
        }
    } else {
        Seq::empty()
    }
}

#[verifier::spinoff_prover]
proof fn lemma_step(p: InPlace, x: Seq<char>, vals: Seq<IniValue>, g: Seq<TerminalColor>, h: Seq<TerminalColor>)
    ensures
        in_place_line(p, x, vals, g, h).section == (if is_header(trim(x)) { header_name(trim(x)) } else { p.section }),
        in_place_line(p, x, vals, g, h).out == p.out.push(line_out(x, p.section, vals, g, h)),
        in_place_line(p, x, vals, g, h).seen == p.seen + line_seen(x, p.section, vals, g, h),
        in_place_line(p, x, vals, g, h).seen_grad == p.seen_grad + line_grad(x),
{
    reveal(line_out);
    reveal(line_seen);
    reveal(line_grad);
    let t = trim(x);
    if holds_setting(t) {
        match gradient_key(setting_key(t)) {
            Some(q) => {
                assert(p.seen_grad.push(q) =~= p.seen_grad + seq![q]);
            },
            None => {
                assert(p.seen_grad =~= p.seen_grad + Seq::<(bool, int)>::empty());
            },
        }
        if !colour_line(setting_key(t), g, h) && value_for(vals, p.section, setting_key(t)) is Some {
            assert(p.seen.push((p.section, setting_key(t))) =~= p.seen + seq![(p.section, setting_key(t))]);
        } else {
            assert(p.seen =~= p.seen + Seq::<(Seq<char>, Seq<char>)>::empty());
        }
    } else {
        assert(p.seen =~= p.seen + Seq::<(Seq<char>, Seq<char>)>::empty());
        assert(p.seen_grad =~= p.seen_grad + Seq::<(bool, int)>::empty());
    }
}

/// The in-place pass over the first `n` lines, line by line: the section
/// and the lines written.
#[verifier::spinoff_prover]
proof fn lemma_fold_out(ls: Seq<Seq<char>>, n: int, vals: Seq<IniValue>, g: Seq<TerminalColor>, h: Seq<TerminalColor>)
    requires
        0 <= n <= ls.len(),
    ensures
        in_place(ls, n, vals, g, h).section == section_after(ls, n),
        in_place(ls, n, vals, g, h).out.len() == n,
        forall|i: int| 0 <= i < n ==> #[trigger] in_place(ls, n, vals, g, h).out[i]
            == line_out(ls[i], section_after(ls, i), vals, g, h),
    decreases n,
{
    if n > 0 {
        lemma_fold_out(ls, n - 1, vals, g, h);
        let p = in_place(ls, n - 1, vals, g, h);
        lemma_step(p, ls[n - 1], vals, g, h);
        let q = in_place(ls, n, vals, g, h);
        assert(q == in_place_line(p, ls[n - 1], vals, g, h));
        assert forall|i: int| 0 <= i < n implies #[trigger] q.out[i] == line_out(ls[i], section_after(ls, i), vals, g, h) by {
            if i < n - 1 {
                assert(q.out[i] == p.out[i]);
            }
        }
    }
}

/// The in-place pass over the first `n` lines: the keys it records.
#[verifier::spinoff_prover]
proof fn lemma_fold_seen(ls: Seq<Seq<char>>, n: int, vals: Seq<IniValue>, g: Seq<TerminalColor>, h: Seq<TerminalColor>)
    requires
        0 <= n <= ls.len(),
    ensures
        forall|i: int, q: (Seq<char>, Seq<char>)| 0 <= i < n && #[trigger] line_seen(ls[i], section_after(ls, i), vals, g, h).contains(q)
            ==> in_place(ls, n, vals, g, h).seen.contains(q),
        forall|q: (Seq<char>, Seq<char>)| #[trigger] in_place(ls, n, vals, g, h).seen.contains(q)
            ==> exists|i: int| 0 <= i < n && #[trigger] line_seen(ls[i], section_after(ls, i), vals, g, h).contains(q),
    decreases n,
{
    if n > 0 {
        lemma_fold_seen(ls, n - 1, vals, g, h);
        lemma_fold_out(ls, n - 1, vals, g, h);
        let p = in_place(ls, n - 1, vals, g, h);
        lemma_step(p, ls[n - 1], vals, g, h);
        let q = in_place(ls, n, vals, g, h);
        assert(q == in_place_line(p, ls[n - 1], vals, g, h));
        assert forall|i: int, z: (Seq<char>, Seq<char>)| 0 <= i < n && #[trigger] line_seen(ls[i], section_after(ls, i), vals, g, h).contains(z)
            implies q.seen.contains(z) by {
            if i < n - 1 {
                let k = choose|k: int| 0 <= k < p.seen.len() && p.seen[k] == z;
                assert(q.seen[k] == z);
            } else {
                let l = line_seen(ls[i], section_after(ls, i), vals, g, h);
                let k = choose|k: int| 0 <= k < l.len() && l[k] == z;
                assert(q.seen[p.seen.len() + k] == z);
            }
        }
        assert forall|z: (Seq<char>, Seq<char>)| #[trigger] q.seen.contains(z)
            implies exists|i: int| 0 <= i < n && #[trigger] line_seen(ls[i], section_after(ls, i), vals, g, h).contains(z) by {
            let k = choose|k: int| 0 <= k < q.seen.len() && q.seen[k] == z;
            if k < p.seen.len() {
                assert(p.seen[k] == z);
                assert(p.seen.contains(z));
            } else {
                let l = line_seen(ls[n - 1], section_after(ls, n - 1), vals, g, h);
                assert(l[k - p.seen.len()] == z);
                assert(l.contains(z));
            }
        }
    }
}

/// The in-place pass over the first `n` lines: the gradient entries it
/// records.
#[verifier::spinoff_prover]
proof fn lemma_fold_grad(ls: Seq<Seq<char>>, n: int, vals: Seq<IniValue>, g: Seq<TerminalColor>, h: Seq<TerminalColor>)
    requires
        0 <= n <= ls.len(),
    ensures
        forall|i: int, q: (bool, int)| 0 <= i < n && #[trigger] line_grad(ls[i]).contains(q)
            ==> in_place(ls, n, vals, g, h).seen_grad.contains(q),
        forall|q: (bool, int)| #[trigger] in_place(ls, n, vals, g, h).seen_grad.contains(q)
            ==> exists|i: int| 0 <= i < n && #[trigger] line_grad(ls[i]).contains(q),
    decreases n,
{
    if n > 0 {
        lemma_fold_grad(ls, n - 1, vals, g, h);
        let p = in_place(ls, n - 1, vals, g, h);
        lemma_step(p, ls[n - 1], vals, g, h);
        let q = in_place(ls, n, vals, g, h);
        assert(q == in_place_line(p, ls[n - 1], vals, g, h));
        assert forall|i: int, z: (bool, int)| 0 <= i < n && #[trigger] line_grad(ls[i]).contains(z)
            implies q.seen_grad.contains(z) by {
            if i < n - 1 {
                let k = choose|k: int| 0 <= k < p.seen_grad.len() && p.seen_grad[k] == z;
                assert(q.seen_grad[k] == z);
            } else {
                let l = line_grad(ls[i]);
                let k = choose|k: int| 0 <= k < l.len() && l[k] == z;
                assert(q.seen_grad[p.seen_grad.len() + k] == z);
            }
        }
        assert forall|z: (bool, int)| #[trigger] q.seen_grad.contains(z)
            implies exists|i: int| 0 <= i < n && #[trigger] line_grad(ls[i]).contains(z) by {
            let k = choose|k: int| 0 <= k < q.seen_grad.len() && q.seen_grad[k] == z;
            if k < p.seen_grad.len() {
                assert(p.seen_grad[k] == z);
                assert(p.seen_grad.contains(z));
            } else {
                let l = line_grad(ls[n - 1]);
                assert(l[k - p.seen_grad.len()] == z);
                assert(l.contains(z));
            }
        }
    }
}

#[verifier::spinoff_prover]
proof fn lemma_first_eq_min(t: Seq<char>, i: int)
    requires
        0 <= i <= t.len(),
        forall|k: int| 0 <= k < i ==> t[k] != '=',
        exists|k: int| i <= k < t.len() && t[k] == '=',
    ensures
        exists|m: int| 0 <= m < t.len() && t[m] == '=' && forall|k: int| 0 <= k < m ==> t[k] != '=',
    decreases t.len() - i,
{
    if i < t.len() && t[i] == '=' {
        assert(0 <= i < t.len() && t[i] == '=' && forall|k: int| 0 <= k < i ==> t[k] != '=');
    } else {
        lemma_first_eq_min(t, i + 1);
    }
}

/// `first_eq` is the position of the first `=`.
#[verifier::spinoff_prover]
proof fn lemma_first_eq(t: Seq<char>)
    ensures
        first_eq(t) matches Some(e) ==> 0 <= e < t.len() && t[e] == '=' && forall|k: int| 0 <= k < e ==> t[k] != '=',
        first_eq(t) is None ==> forall|k: int| 0 <= k < t.len() ==> t[k] != '=',
        forall|j: int| 0 <= j < t.len() && t[j] == '=' && (forall|k: int| 0 <= k < j ==> t[k] != '=')
            ==> first_eq(t) == Some(j),
{
    if exists|i: int| 0 <= i < t.len() && t[i] == '=' {
        lemma_first_eq_min(t, 0);
        let w = choose|i: int| 0 <= i < t.len() && t[i] == '=' && forall|k: int| 0 <= k < i ==> t[k] != '=';
        assert(first_eq(t) == Some(w));
        assert forall|j: int| 0 <= j < t.len() && t[j] == '=' && (forall|k: int| 0 <= k < j ==> t[k] != '=')
            implies first_eq(t) == Some(j) by {
            if w < j {
                assert(t[w] != '=');
            } else if j < w {
                assert(t[j] != '=');
            }
        }
    }
}

#[verifier::spinoff_prover]
proof fn lemma_ascii_ws_is_ws(c: char)
    ensures
        is_ascii_ws(c) ==> is_ws(c),
{
}

#[verifier::spinoff_prover]
proof fn lemma_lower_char(c: char)
    ensures
        lower_char(lower_char(c)) == lower_char(c),
        is_ws(lower_char(c)) == is_ws(c),
        (lower_char(c) == '=') == (c == '='),
        (lower_char(c) == '\n') == (c == '\n'),
{
}

#[verifier::spinoff_prover]
proof fn lemma_lower_idem(s: Seq<char>)
    ensures
        lower(lower(s)) == lower(s),
        lower(s).len() == s.len(),
        forall|i: int| 0 <= i < s.len() ==> #[trigger] lower(s)[i] == lower_char(s[i]),
{
    assert forall|i: int| 0 <= i < s.len() implies #[trigger] lower(lower(s))[i] == lower(s)[i] by {
        lemma_lower_char(s[i]);
    }
    assert(lower(lower(s)) =~= lower(s));
}

/// The trailing whitespace run of `s` that `back_run` counts.
#[verifier::spinoff_prover]
proof fn lemma_back_run(s: Seq<char>)
    ensures
        0 <= back_run(s, Strip::Ws) <= s.len(),
        back_run(s, Strip::Ws) < s.len() ==> !is_ws(s[s.len() - back_run(s, Strip::Ws) - 1]),
        forall|j: int| s.len() - back_run(s, Strip::Ws) <= j < s.len() ==> is_ws(#[trigger] s[j]),
    decreases s.len(),
{
    if s.len() > 0 && is_ws(s.last()) {
        let d = s.drop_last();
        lemma_back_run(d);
        assert forall|j: int| s.len() - back_run(s, Strip::Ws) <= j < s.len() implies is_ws(#[trigger] s[j]) by {
            if j < s.len() - 1 {
                assert(s[j] == d[j]);
            }
        }
        if back_run(s, Strip::Ws) < s.len() {
            assert(s[s.len() - back_run(s, Strip::Ws) - 1] == d[d.len() - back_run(d, Strip::Ws) - 1]);
        }
    }
}

#[verifier::spinoff_prover]
proof fn lemma_front_run(s: Seq<char>)
    ensures
        0 <= front_run(s, Strip::Ws) <= s.len(),
        front_run(s, Strip::Ws) < s.len() ==> !is_ws(s[front_run(s, Strip::Ws)]),
        forall|j: int| 0 <= j < front_run(s, Strip::Ws) ==> is_ws(#[trigger] s[j]),
    decreases s.len(),
{
    if s.len() > 0 && is_ws(s[0]) {
        let d = s.drop_first();
        lemma_front_run(d);
        assert forall|j: int| 0 <= j < front_run(s, Strip::Ws) implies is_ws(#[trigger] s[j]) by {
            if j > 0 {
                assert(s[j] == d[j - 1]);
            }
        }
        if front_run(s, Strip::Ws) < s.len() {
            assert(s[front_run(s, Strip::Ws)] == d[front_run(d, Strip::Ws)]);
        }
    }
}

#[verifier::spinoff_prover]
proof fn lemma_trim_keeps(s: Seq<char>)
    requires
        s.len() > 0,
        !is_ws(s[0]),
        !is_ws(s.last()),
    ensures
        trim(s) == s,
{
    assert(front_run(s, Strip::Ws) == 0);
    assert(s.skip(0) =~= s);
    assert(back_run(s, Strip::Ws) == 0);
    assert(s.take(s.len() as int) =~= s);
}

/// A key followed by one space trims back to the key.
#[verifier::spinoff_prover]
proof fn lemma_trim_key_space(k: Seq<char>)
    requires
        k.len() > 0,
        !is_ws(k[0]),
        !is_ws(k.last()),
    ensures
        trim(k + seq![' ']) == k,
{
    let a = k + seq![' '];
    assert(front_run(a, Strip::Ws) == 0);
    assert(a.skip(0) =~= a);
    assert(a.drop_last() =~= k);
    assert(back_run(k, Strip::Ws) == 0);
    assert(back_run(a, Strip::Ws) == 1);
    assert(a.take(a.len() - 1) =~= k);
}

#[verifier::spinoff_prover]
proof fn lemma_ws_start(t: Seq<char>, k: int)
    requires
        0 <= k <= t.len(),
    ensures
        0 <= ws_start(t, k) <= k,
        forall|j: int| ws_start(t, k) <= j < k ==> is_ascii_ws(#[trigger] t[j]),
    decreases k,
{
    if k > 0 && is_ascii_ws(t[k - 1]) {
        lemma_ws_start(t, k - 1);
    }
}

#[verifier::spinoff_prover]
proof fn lemma_comment_start_shape(t: Seq<char>, i: int, q: Option<char>, saw: bool)
    requires
        0 <= i,
    ensures
        comment_start(t, i, q, saw) matches Some(w) ==> exists|p: int|
            #![trigger t[p]]
            i <= p < t.len() && 1 <= p && (t[p] == '#' || t[p] == ';') && is_ascii_ws(t[p - 1])
                && w == ws_start(t, p - 1),
    decreases t.len() - i,
{
    if i < t.len() {
        let ch = t[i];
        match q {
            Some(qc) => if ch == qc {
                lemma_comment_start_shape(t, i + 1, None, saw);
            } else {
                lemma_comment_start_shape(t, i + 1, q, true);
            },
            None => if ch == '\'' || ch == '"' {
                lemma_comment_start_shape(t, i + 1, Some(ch), saw);
            } else if (ch == '#' || ch == ';') && saw && i > 0 && is_ascii_ws(t[i - 1]) {
            } else if !is_ws(ch) {
                lemma_comment_start_shape(t, i + 1, None, true);
            } else {
                lemma_comment_start_shape(t, i + 1, None, saw);
            },
        }
    }
}

/// Where the writer's scan over a prefix meets no comment, the comment
/// search over the whole text goes on from the end of the prefix in the
/// state the scan ended in.
#[verifier::spinoff_prover]
proof fn lemma_write_split(a: Seq<char>, b: Seq<char>, i: int, q: Option<char>, saw: bool)
    requires
        0 <= i <= a.len(),
        write_scan(a, i, q, saw) is Some,
    ensures
        comment_start(a + b, i, q, saw) == comment_start(
            a + b,
            a.len() as int,
            (write_scan(a, i, q, saw)->0).0,
            (write_scan(a, i, q, saw)->0).1,
        ),
    decreases a.len() - i,
{
    if i < a.len() {
        let t = a + b;
        let ch = a[i];
        assert(t[i] == ch);
        if i > 0 {
            assert(t[i - 1] == a[i - 1]);
        }
        match q {
            Some(qc) => if ch == qc {
                lemma_write_split(a, b, i + 1, None, saw);
            } else {
                lemma_write_split(a, b, i + 1, q, true);
            },
            None => if ch == '\'' || ch == '"' {
                lemma_write_split(a, b, i + 1, Some(ch), saw);
            } else if (ch == '#' || ch == ';') && saw && i > 0 && is_ascii_ws(a[i - 1]) {
            } else if !is_ws(ch) {
                lemma_write_split(a, b, i + 1, None, true);
            } else {
                lemma_write_split(a, b, i + 1, None, saw);
            },
        }
    }
}

/// Where the reader's scan over a prefix meets no comment, the comment cut
/// of the whole text is found from the end of the prefix on.
#[verifier::spinoff_prover]
proof fn lemma_read_split(a: Seq<char>, b: Seq<char>, i: int, q: Option<char>)
    requires
        0 <= i <= a.len(),
        read_scan(a, i, q) is Some,
    ensures
        comment_cut(a + b, i, q) == comment_cut(a + b, a.len() as int, read_scan(a, i, q)->0),
    decreases a.len() - i,
{
    if i < a.len() {
        let t = a + b;
        assert(t[i] == a[i]);
        if i > 0 {
            assert(t[i - 1] == a[i - 1]);
        }
        match q {
            Some(qc) => if a[i] == qc {
                lemma_read_split(a, b, i + 1, None);
            } else {
                lemma_read_split(a, b, i + 1, q);
            },
            None => if a[i] == '\'' || a[i] == '"' {
                lemma_read_split(a, b, i + 1, Some(a[i]));
            } else if (a[i] == '#' || a[i] == ';') && i > 0 && is_ascii_ws(a[i - 1]) {
            } else {
                lemma_read_split(a, b, i + 1, None);
            },
        }
    }
}

/// The writer's scan (over the value after the space that precedes it)
/// and the reader's scan (over the value alone) leave the same quote open.
#[verifier::spinoff_prover]
proof fn lemma_scans_agree(v: Seq<char>, i: int, q: Option<char>, saw: bool)
    requires
        0 <= i <= v.len(),
        write_scan(seq![' '] + v, i + 1, q, saw) is Some,
        read_scan(v, i, q) is Some,
    ensures
        (write_scan(seq![' '] + v, i + 1, q, saw)->0).0 == read_scan(v, i, q)->0,
    decreases v.len() - i,
{
    let t = seq![' '] + v;
    if i < v.len() {
        let ch = v[i];
        assert(t[i + 1] == ch);
        match q {
            Some(qc) => if ch == qc {
                lemma_scans_agree(v, i + 1, None, saw);
            } else {
                lemma_scans_agree(v, i + 1, q, true);
            },
            None => if ch == '\'' || ch == '"' {
                lemma_scans_agree(v, i + 1, Some(ch), saw);
            } else if !is_ws(ch) {
                if !((ch == '#' || ch == ';') && saw && is_ascii_ws(t[i])) {
                    lemma_scans_agree(v, i + 1, None, true);
                }
            } else {
                if !((ch == '#' || ch == ';') && saw && is_ascii_ws(t[i])) {
                    lemma_scans_agree(v, i + 1, None, saw);
                }
            },
        }
    }
}

/// A plain value is one a save writes back and after which a comment is
/// found again.
#[verifier::spinoff_prover]
proof fn lemma_plain_saved(v: Seq<char>)
    requires
        plain_value(v),
    ensures
        saved_value(v),
        carries_comment(v),
{
    let t = seq![' '] + v;
    assert(t[0] == ' ');
    lemma_plain_scan(v, 1, false);
}

#[verifier::spinoff_prover]
proof fn lemma_plain_scan(v: Seq<char>, i: int, saw: bool)
    requires
        plain_value(v),
        1 <= i <= v.len() + 1,
        i == 1 ==> !saw,
        i == v.len() + 1 ==> saw,
    ensures
        write_scan(seq![' '] + v, i, None, saw) == Some((None::<char>, true)),
    decreases v.len() + 1 - i,
{
    let t = seq![' '] + v;
    if i < v.len() + 1 {
        let ch = t[i];
        assert(ch == v[i - 1]);
        if i >= 2 {
            assert(t[i - 1] == v[i - 2]);
            if ch == '#' || ch == ';' {
                assert(!is_ascii_ws(v[i - 2]));
            }
        }
        if !is_ws(ch) {
            lemma_plain_scan(v, i + 1, true);
        } else {
            if i + 1 == v.len() + 1 {
                assert(ch == v.last());
            }
            lemma_plain_scan(v, i + 1, saw);
        }
    }
}

/// What a kept comment looks like: nothing, or a run of whitespace, a `#`
/// or `;`, and text that does not end in whitespace.
spec fn suffix_shape(s: Seq<char>) -> bool {
    s.len() == 0 || (!is_ws(s.last()) && exists|m: int|
        #![trigger s[m]]
        1 <= m < s.len() && (s[m] == '#' || s[m] == ';') && forall|j: int| 0 <= j < m ==> is_ascii_ws(#[trigger] s[j]))
}

spec fn no_newline(s: Seq<char>) -> bool {
    forall|i: int| 0 <= i < s.len() ==> #[trigger] s[i] != '\n'
}

#[verifier::spinoff_prover]
proof fn lemma_suffix_shape(raw: Seq<char>)
    ensures
        suffix_shape(comment_suffix(raw)),
        no_newline(raw) ==> no_newline(comment_suffix(raw)),
{
    let t = trim_end(raw);
    lemma_back_run(raw);
    let n = back_run(raw, Strip::Ws);
    assert(t.len() == raw.len() - n);
    lemma_comment_start_shape(t, 0, None, false);
    match comment_start(t, 0, None, false) {
        Some(w) => {
            let p = choose|p: int|
                #![trigger t[p]]
                0 <= p < t.len() && 1 <= p && (t[p] == '#' || t[p] == ';') && is_ascii_ws(t[p - 1])
                    && w == ws_start(t, p - 1);
            lemma_ws_start(t, p - 1);
            let s = t.skip(w);
            let m = p - w;
            assert(s[m] == t[p]);
            assert forall|j: int| 0 <= j < m implies is_ascii_ws(#[trigger] s[j]) by {
                assert(s[j] == t[w + j]);
            }
            assert(s.last() == t.last());
            assert(t.last() == raw[raw.len() - n - 1]);
            assert(1 <= m < s.len() && (s[m] == '#' || s[m] == ';'));
            if no_newline(raw) {
                assert forall|i: int| 0 <= i < s.len() implies #[trigger] s[i] != '\n' by {
                    assert(s[i] == raw[w + i]);
                }
            }
        },
        None => {},
    }
}

#[verifier::spinoff_prover]
proof fn lemma_ws_start_at(tt: Seq<char>, p: int, k: int)
    requires
        1 <= p <= k <= tt.len(),
        !is_ascii_ws(tt[p - 1]),
        forall|j: int| p <= j < k ==> is_ascii_ws(#[trigger] tt[j]),
    ensures
        ws_start(tt, k) == p,
    decreases k - p,
{
    if k > p {
        lemma_ws_start_at(tt, p, k - 1);
    }
}

#[verifier::spinoff_prover]
proof fn lemma_scan_comment(tt: Seq<char>, p: int, m: int, j: int)
    requires
        1 <= p,
        p <= p + j <= p + m < tt.len(),
        1 <= m,
        !is_ws(tt[p - 1]),
        tt[p + m] == '#' || tt[p + m] == ';',
        forall|k: int| p <= k < p + m ==> is_ascii_ws(#[trigger] tt[k]),
    ensures
        comment_start(tt, p + j, None, true) == Some(p),
    decreases m - j,
{
    lemma_ascii_ws_is_ws(tt[p - 1]);
    if j < m {
        lemma_ascii_ws_is_ws(tt[p + j]);
        lemma_scan_comment(tt, p, m, j + 1);
    } else {
        lemma_ws_start_at(tt, p, p + m - 1);
    }
}

/// The comment kept after a written value is found again after it.
#[verifier::spinoff_prover]
proof fn lemma_suffix_after_value(v: Seq<char>, s: Seq<char>)
    requires
        saved_value(v),
        suffix_shape(s),
        s.len() > 0 ==> carries_comment(v),
    ensures
        comment_suffix(seq![' '] + v + s) == s,
{
    let tt = seq![' '] + v + s;
    let a = seq![' '] + v;
    assert(tt =~= a + s);
    if v.len() == 0 {
        assert(write_scan(a, 1, None, false) == Some((None::<char>, false)));
        assert(s.len() == 0);
        assert(tt =~= seq![' ']);
        assert(tt.drop_last().len() == 0);
        assert(back_run(tt.drop_last(), Strip::Ws) == 0);
        assert(back_run(tt, Strip::Ws) == 1);
        assert(trim_end(tt) =~= Seq::<char>::empty());
        assert(comment_start(trim_end(tt), 0, None, false) is None);
    } else {
        let p: int = v.len() + 1int;
        assert(tt.last() == (if s.len() > 0 { s.last() } else { v.last() }));
        assert(back_run(tt, Strip::Ws) == 0);
        assert(trim_end(tt) =~= tt);
        lemma_write_split(a, s, 0, None, false);
        if s.len() == 0 {
            assert(comment_start(tt, p, (write_scan(a, 0, None, false)->0).0, (write_scan(a, 0, None, false)->0).1) is None);
        } else {
            let m = choose|m: int|
                #![trigger s[m]]
                1 <= m < s.len() && (s[m] == '#' || s[m] == ';') && forall|j: int| 0 <= j < m ==> is_ascii_ws(#[trigger] s[j]);
            assert(tt[p + m] == s[m]);
            assert forall|k: int| p <= k < p + m implies is_ascii_ws(#[trigger] tt[k]) by {
                assert(tt[k] == s[k - p]);
            }
            assert(tt[p - 1] == v.last());
            lemma_scan_comment(tt, p, m, 0);
            assert(tt.skip(p) =~= s);
        }
    }
}

/// A written `key = value` line, with a kept comment, reads back as that
/// key with that value text. A line with neither value nor comment ends in
/// the space after `=`, which trimming drops.
#[verifier::spinoff_prover]
proof fn lemma_setting_reads_back(key: Seq<char>, v: Seq<char>, s: Seq<char>)
    requires
        key.len() > 0,
        key[0] != '#' && key[0] != ';' && key[0] != '[',
        forall|i: int| 0 <= i < key.len() ==> !is_ws(#[trigger] key[i]) && key[i] != '=',
        lower(key) == key,
        saved_value(v),
        suffix_shape(s),
        s.len() > 0 ==> carries_comment(v),
    ensures
        holds_setting(trim(key + " = "@ + v + s)),
        setting_key(trim(key + " = "@ + v + s)) == key,
        comment_suffix(raw_of(trim(key + " = "@ + v + s))) == s,
        setting_line(key, v, raw_of(trim(key + " = "@ + v + s))) == key + " = "@ + v + s,
        first_eq(trim(key + " = "@ + v + s)) == Some(key.len() + 1int),
        trim(trim(key + " = "@ + v + s).take(key.len() + 1int)) == key,
        trim(key + " = "@ + v + s)[0] == key[0],
        v.len() > 0 || s.len() > 0 ==> trim(key + " = "@ + v + s) == key + " = "@ + v + s
            && raw_of(key + " = "@ + v + s) == seq![' '] + v + s,
        v.len() == 0 ==> s.len() == 0 && raw_of(trim(key + " = "@ + v + s)) == Seq::<char>::empty(),
{
    reveal_strlit(" = ");
    let y = key + " = "@ + v + s;
    let k: int = key.len() as int;
    assert(y[0] == key[0]);
    assert(y[k] == ' ' && y[k + 1] == '=' && y[k + 2] == ' ');
    if v.len() == 0 {
        let a = seq![' '] + v;
        assert(write_scan(a, 1, None, false) == Some((None::<char>, false)));
        assert(s.len() == 0);
        let z = key + seq![' ', '='];
        assert(y.drop_last() =~= z);
        assert(z.last() == '=');
        assert(back_run(z, Strip::Ws) == 0);
        assert(back_run(y, Strip::Ws) == 1);
        assert(front_run(y, Strip::Ws) == 0);
        assert(y.skip(0) =~= y);
        assert(trim(y) =~= z);
        assert forall|j: int| 0 <= j < k + 1 implies z[j] != '=' by {
            if j < k {
                assert(z[j] == key[j]);
            }
        }
        lemma_first_eq(z);
        assert(first_eq(z) == Some(k + 1));
        assert(z.take(k + 1) =~= key + seq![' ']);
        lemma_trim_key_space(key);
        assert(raw_of(z) =~= Seq::<char>::empty());
        let e = Seq::<char>::empty();
        assert(back_run(e, Strip::Ws) == 0);
        assert(trim_end(e) =~= e);
        assert(comment_suffix(e) =~= e);
        assert(setting_line(key, v, e) =~= y);
        assert(z[0] == key[0]);
    } else {
        assert(y.last() == (if s.len() > 0 { s.last() } else { v.last() }));
        lemma_line_shape(key, v, s);
        lemma_suffix_after_value(v, s);
    }
}

/// A `key = value` line that ends in a visible character is its own trim,
/// and its raw value text is everything after the `=`.
#[verifier::spinoff_prover]
#[verifier::rlimit(40)]
proof fn lemma_line_shape(key: Seq<char>, v: Seq<char>, s: Seq<char>)
    requires
        key.len() > 0,
        forall|i: int| 0 <= i < key.len() ==> !is_ws(#[trigger] key[i]) && key[i] != '=',
        !is_ws((key + " = "@ + v + s).last()),
    ensures
        trim(key + " = "@ + v + s) == key + " = "@ + v + s,
        first_eq(key + " = "@ + v + s) == Some(key.len() + 1int),
        trim((key + " = "@ + v + s).take(key.len() + 1int)) == key,
        raw_of(key + " = "@ + v + s) == seq![' '] + v + s,
        (key + " = "@ + v + s)[0] == key[0],
{
    reveal_strlit(" = ");
    let y = key + " = "@ + v + s;
    let k: int = key.len() as int;
    assert(y[0] == key[0]);
    assert(y[k] == ' ' && y[k + 1] == '=' && y[k + 2] == ' ');
    lemma_trim_keeps(y);
    assert forall|j: int| 0 <= j < k + 1 implies y[j] != '=' by {
        if j < k {
            assert(y[j] == key[j]);
        }
    }
    lemma_first_eq(y);
    assert(first_eq(y) == Some(k + 1));
    assert(y.take(k + 1) =~= key + seq![' ']);
    lemma_trim_key_space(key);
    assert(raw_of(y) =~= seq![' '] + v + s);
}

/// No ASCII whitespace run reaches back over a character that is not one.
#[verifier::spinoff_prover]
proof fn lemma_ws_start_floor(t: Seq<char>, k: int, j: int)
    requires
        0 <= j < k <= t.len(),
        !is_ascii_ws(t[j]),
    ensures
        ws_start(t, k) >= j + 1,
    decreases k,
{
    if k > j + 1 && is_ascii_ws(t[k - 1]) {
        lemma_ws_start_floor(t, k - 1, j);
    }
}

/// A comment found from `i` on starts at or after `f` when the character
/// before `f` is no ASCII whitespace.
#[verifier::spinoff_prover]
proof fn lemma_comment_after(t: Seq<char>, i: int, q: Option<char>, saw: bool, f: int)
    requires
        1 <= f <= i,
        f <= t.len(),
        !is_ascii_ws(t[f - 1]),
    ensures
        comment_start(t, i, q, saw) matches Some(w) ==> w >= f,
{
    lemma_comment_start_shape(t, i, q, saw);
    if comment_start(t, i, q, saw) is Some {
        let p = choose|p: int|
            #![trigger t[p]]
            i <= p < t.len() && 1 <= p && (t[p] == '#' || t[p] == ';') && is_ascii_ws(t[p - 1])
                && comment_start(t, i, q, saw)->0 == ws_start(t, p - 1);
        assert(p - 1 != f - 1);
        lemma_ws_start_floor(t, p - 1, f - 1);
    }
}

/// The quote the writer's scan holds open is a quote character.
#[verifier::spinoff_prover]
proof fn lemma_write_scan_quote(t: Seq<char>, i: int, q: Option<char>, saw: bool)
    requires
        q matches Some(qc) ==> qc == '\'' || qc == '"',
    ensures
        write_scan(t, i, q, saw) matches Some(st) ==> (st.0 matches Some(qc) ==> qc == '\'' || qc == '"'),
    decreases t.len() - i,
{
    if 0 <= i < t.len() {
        let ch = t[i];
        match q {
            Some(qc) => if ch == qc {
                lemma_write_scan_quote(t, i + 1, None, saw);
            } else {
                lemma_write_scan_quote(t, i + 1, q, true);
            },
            None => if ch == '\'' || ch == '"' {
                lemma_write_scan_quote(t, i + 1, Some(ch), saw);
            } else if (ch == '#' || ch == ';') && saw && i > 0 && is_ascii_ws(t[i - 1]) {
            } else if !is_ws(ch) {
                lemma_write_scan_quote(t, i + 1, None, true);
            } else {
                lemma_write_scan_quote(t, i + 1, None, saw);
            },
        }
    }
}

/// Scanning a kept comment's leading whitespace and mark in any state but
/// "unquoted after a value character" finds no comment before the mark.
#[verifier::spinoff_prover]
proof fn lemma_skip_mark(tt: Seq<char>, p: int, m: int, j: int, q: Option<char>, saw: bool)
    requires
        1 <= p,
        0 <= j <= m,
        p + m < tt.len(),
        tt[p + m] == '#' || tt[p + m] == ';',
        forall|k: int| p <= k < p + m ==> is_ascii_ws(#[trigger] tt[k]),
        !(q is None && saw),
        q matches Some(qc) ==> qc == '\'' || qc == '"',
    ensures
        comment_start(tt, p + j, q, saw) matches Some(w) ==> w >= p + m + 1,
    decreases m - j,
{
    let ch = tt[p + j];
    if j < m {
        assert(is_ascii_ws(ch));
        lemma_ascii_ws_is_ws(ch);
        match q {
            Some(qc) => {
                lemma_skip_mark(tt, p, m, j + 1, q, true);
            },
            None => {
                lemma_skip_mark(tt, p, m, j + 1, None, saw);
            },
        }
    } else {
        match q {
            Some(qc) => {
                lemma_comment_after(tt, p + m + 1, q, true, p + m + 1);
            },
            None => {
                lemma_comment_after(tt, p + m + 1, None, true, p + m + 1);
            },
        }
    }
}

/// A comment kept after a written value is found again only after a value
/// that carries it.
#[verifier::spinoff_prover]
proof fn lemma_carried_when_found(v: Seq<char>, s: Seq<char>)
    requires
        saved_value(v),
        suffix_shape(s),
        s.len() > 0,
        comment_suffix(seq![' '] + v + s) == s,
    ensures
        carries_comment(v),
{
    let tt = seq![' '] + v + s;
    let a = seq![' '] + v;
    assert(tt =~= a + s);
    let p: int = a.len() as int;
    assert(tt.last() == s.last());
    assert(back_run(tt, Strip::Ws) == 0);
    assert(trim_end(tt) =~= tt);
    lemma_write_split(a, s, 0, None, false);
    lemma_write_scan_quote(a, 0, None, false);
    let st = write_scan(a, 0, None, false)->0;
    if !carries_comment(v) {
        let m = choose|m: int|
            #![trigger s[m]]
            1 <= m < s.len() && (s[m] == '#' || s[m] == ';') && forall|j: int| 0 <= j < m ==> is_ascii_ws(#[trigger] s[j]);
        assert(tt[p + m] == s[m]);
        assert forall|k: int| p <= k < p + m implies is_ascii_ws(#[trigger] tt[k]) by {
            assert(tt[k] == s[k - p]);
        }
        lemma_skip_mark(tt, p, m, 0, st.0, st.1);
        lemma_comment_start_shape(tt, 0, None, false);
        match comment_start(tt, 0, None, false) {
            Some(w) => {
                let pp = choose|pp: int|
                    #![trigger tt[pp]]
                    0 <= pp < tt.len() && 1 <= pp && (tt[pp] == '#' || tt[pp] == ';') && is_ascii_ws(tt[pp - 1])
                        && w == ws_start(tt, pp - 1);
                lemma_ws_start(tt, pp - 1);
                assert(tt.skip(w).len() == tt.len() - w);
                assert(tt.skip(w).len() < s.len());
            },
            None => {},
        }
    }
}


spec fn name_char(c: char) -> bool {
    ('a' <= c && c <= 'z') || ('0' <= c && c <= '9')
}

/// Every colour's INI spelling is a plain value.
#[verifier::spinoff_prover]
proof fn lemma_ini_name_plain(c: TerminalColor)
    ensures
        plain_value(c.ini_name()),
{
    reveal_strlit("default");
    reveal_strlit("black");
    reveal_strlit("red");
    reveal_strlit("green");
    reveal_strlit("yellow");
    reveal_strlit("blue");
    reveal_strlit("magenta");
    reveal_strlit("cyan");
    reveal_strlit("white");
    let n = c.ini_name();
    match c {
        TerminalColor::Rgb(r, g, b) => {
            assert(n.len() == 7);
            assert(n[0] == '#');
            assert forall|i: int| 1 <= i < 7 implies name_char(#[trigger] n[i]) by {
                assert(0 <= r / 16 < 16 && 0 <= r % 16 < 16);
                assert(0 <= g / 16 < 16 && 0 <= g % 16 < 16);
                assert(0 <= b / 16 < 16 && 0 <= b % 16 < 16);
            }
            assert(name_char(n[6]));
        },
        _ => {
            assert forall|i: int| 0 <= i < n.len() implies name_char(#[trigger] n[i]) by {}
            assert(name_char(n.last()));
        },
    }
}

/// A gradient key: `g` or `h` first, no whitespace, no `=`.
#[verifier::spinoff_prover]
proof fn lemma_gradient_key_chars(k: Seq<char>)
    requires
        gradient_key(k) is Some,
    ensures
        k.len() > 0,
        k[0] == 'g' || k[0] == 'h',
        forall|i: int| 0 <= i < k.len() ==> !is_ws(#[trigger] k[i]) && k[i] != '=',
{
    reveal_strlit("gradient_color_");
    reveal_strlit("horizontal_gradient_color_");
    let pl: int = if k.len() >= 15 && k.take(15) == "gradient_color_"@ { 15 } else { 26 };
    assert(k.take(pl)[0] == k[0]);
    let r = k.skip(pl);
    let d = crate::text::unsigned_digits(r);
    assert(crate::text::all_digits(d));
    assert forall|i: int| 0 <= i < k.len() implies !is_ws(#[trigger] k[i]) && k[i] != '=' by {
        if i < pl {
            assert(k[i] == k.take(pl)[i]);
        } else {
            assert(k[i] == r[i - pl]);
            if r.len() > 0 && r[0] == '+' {
                if i - pl > 0 {
                    assert(r[i - pl] == d[i - pl - 1]);
                    assert(crate::text::is_digit(d[i - pl - 1]));
                }
            } else {
                assert(r[i - pl] == d[i - pl]);
                assert(crate::text::is_digit(d[i - pl]));
            }
        }
    }
}

/// A value `value_for` finds belongs to one of the settings.
#[verifier::spinoff_prover]
proof fn lemma_value_from_found(vals: Seq<IniValue>, i: int, sec: Seq<char>, key: Seq<char>)
    requires
        value_from(vals, i, sec, key) is Some,
    ensures
        exists|j: int| 0 <= j < vals.len() && #[trigger] vals[j].key@ == key
            && vals[j].value@ == value_from(vals, i, sec, key)->0,
    decreases vals.len() - i,
{
    if i >= 0 && i < vals.len() && !(vals[i].section@ == sec && vals[i].key@ == key) {
        lemma_value_from_found(vals, i + 1, sec, key);
    }
}

/// `trim` keeps a run of the characters it is given.
#[verifier::spinoff_prover]
proof fn lemma_trim_index(s: Seq<char>)
    ensures
        front_run(s, Strip::Ws) + trim(s).len() <= s.len(),
        0 <= front_run(s, Strip::Ws),
        forall|i: int| 0 <= i < trim(s).len() ==> #[trigger] trim(s)[i] == s[front_run(s, Strip::Ws) + i],
{
    lemma_front_run(s);
    let t = s.skip(front_run(s, Strip::Ws));
    lemma_back_run(t);
}

/// The key of a setting line holds no `=` and is lower case.
#[verifier::spinoff_prover]
proof fn lemma_key_of(t: Seq<char>)
    requires
        first_eq(t) is Some,
    ensures
        forall|i: int| 0 <= i < setting_key(t).len() ==> #[trigger] setting_key(t)[i] != '=',
        lower(setting_key(t)) == setting_key(t),
        no_newline(t) ==> no_newline(setting_key(t)) && no_newline(raw_of(t)),
{
    lemma_first_eq(t);
    let e = first_eq(t)->0;
    let a = t.take(e);
    let b = trim(a);
    lemma_trim_index(a);
    lemma_lower_idem(b);
    assert forall|i: int| 0 <= i < setting_key(t).len() implies #[trigger] setting_key(t)[i] != '=' by {
        lemma_lower_char(b[i]);
        assert(b[i] == a[front_run(a, Strip::Ws) + i]);
    }
    if no_newline(t) {
        assert forall|i: int| 0 <= i < setting_key(t).len() implies #[trigger] setting_key(t)[i] != '\n' by {
            lemma_lower_char(b[i]);
            assert(b[i] == a[front_run(a, Strip::Ws) + i]);
        }
        assert forall|i: int| 0 <= i < raw_of(t).len() implies #[trigger] raw_of(t)[i] != '\n' by {
            assert(raw_of(t)[i] == t[e + 1 + i]);
        }
    }
}

/// A written line `key = value` plus kept comment: no line break, no
/// carriage return at its end, and it reads back as itself.
#[verifier::spinoff_prover]
proof fn lemma_written_line(key: Seq<char>, v: Seq<char>, s: Seq<char>)
    requires
        key.len() > 0,
        key[0] != '#' && key[0] != ';' && key[0] != '[',
        forall|i: int| 0 <= i < key.len() ==> !is_ws(#[trigger] key[i]) && key[i] != '=',
        lower(key) == key,
        saved_value(v),
        suffix_shape(s),
        no_newline(s),
        s.len() > 0 ==> carries_comment(v),
    ensures
        holds_setting(trim(key + " = "@ + v + s)),
        setting_key(trim(key + " = "@ + v + s)) == key,
        setting_line(key, v, raw_of(trim(key + " = "@ + v + s))) == key + " = "@ + v + s,
        no_newline(key + " = "@ + v + s),
        clean_line(key + " = "@ + v + s),
        (key + " = "@ + v + s).len() > 0,
        first_eq(trim(key + " = "@ + v + s)) == Some(key.len() + 1int),
        trim(trim(key + " = "@ + v + s).take(key.len() + 1int)) == key,
        trim(key + " = "@ + v + s)[0] == key[0],
        v.len() > 0 ==> trim(key + " = "@ + v + s) == key + " = "@ + v + s,
{
    lemma_setting_reads_back(key, v, s);
    lemma_line_chars(key, v, s);
}

#[verifier::spinoff_prover]
proof fn lemma_line_chars(key: Seq<char>, v: Seq<char>, s: Seq<char>)
    requires
        forall|i: int| 0 <= i < key.len() ==> !is_ws(#[trigger] key[i]),
        saved_value(v),
        no_newline(s),
        suffix_shape(s),
    ensures
        no_newline(key + " = "@ + v + s),
        clean_line(key + " = "@ + v + s),
        (key + " = "@ + v + s).len() > 0,
{
    reveal_strlit(" = ");
    let y = key + " = "@ + v + s;
    assert forall|i: int| 0 <= i < y.len() implies #[trigger] y[i] != '\n' by {
        if i < key.len() {
            assert(y[i] == key[i]);
        } else if i >= key.len() + 3 + v.len() {
            assert(y[i] == s[i - key.len() - 3 - v.len()]);
        } else if i >= key.len() + 3 {
            assert(y[i] == v[i - key.len() - 3]);
        }
    }
    assert(y.last() == (if s.len() > 0 { s.last() } else if v.len() > 0 { v.last() } else { ' ' }));
}

/// Every line the in-place pass writes is written again unchanged by a
/// second pass in the same section, and records the same entries.
#[verifier::spinoff_prover]
proof fn lemma_line_fixed(
    x: Seq<char>,
    sec: Seq<char>,
    vals: Seq<IniValue>,
    g: Seq<TerminalColor>,
    h: Seq<TerminalColor>,
)
    requires
        plain_settings(vals),
        no_newline(x),
        comment_kept(x, sec, vals),
    ensures
        line_out(line_out(x, sec, vals, g, h), sec, vals, g, h) == line_out(x, sec, vals, g, h),
        line_seen(line_out(x, sec, vals, g, h), sec, vals, g, h) == line_seen(x, sec, vals, g, h),
        line_grad(line_out(x, sec, vals, g, h)) == line_grad(x),
        is_header(trim(line_out(x, sec, vals, g, h))) == is_header(trim(x)),
        is_header(trim(x)) ==> line_out(x, sec, vals, g, h) == x,
        no_newline(line_out(x, sec, vals, g, h)),
        line_out(x, sec, vals, g, h) != x ==> clean_line(line_out(x, sec, vals, g, h)),
{
    reveal(line_out);
    reveal(line_seen);
    reveal(line_grad);
    let t = trim(x);
    lemma_trim_index(x);
    assert(no_newline(t)) by {
        assert forall|i: int| 0 <= i < t.len() implies #[trigger] t[i] != '\n' by {
            assert(t[i] == x[front_run(x, Strip::Ws) + i]);
        }
    }
    if holds_setting(t) {
        let key = setting_key(t);
        let raw = raw_of(t);
        lemma_key_of(t);
        lemma_suffix_shape(raw);
        let s = comment_suffix(raw);
        if colour_line(key, g, h) {
            let (hz, idx) = gradient_key(key)->0;
            let name = grad_list(hz, g, h)[idx - 1].ini_name();
            lemma_ini_name_plain(grad_list(hz, g, h)[idx - 1]);
            lemma_plain_saved(name);
            lemma_gradient_key_chars(key);
            lemma_written_line(key, name, s);
        } else {
            match value_for(vals, sec, key) {
                Some(v) => {
                    lemma_value_from_found(vals, 0, sec, key);
                    let j = choose|j: int| 0 <= j < vals.len() && #[trigger] vals[j].key@ == key
                        && vals[j].value@ == v;
                    assert(plain_key(vals[j].key@) && saved_value(vals[j].value@));
                    lemma_written_line(key, v, s);
                },
                None => {},
            }
        }
    }
}

/// A line that a line-by-line reading gives back as one line.
spec fn clean_line(l: Seq<char>) -> bool {
    no_newline(l) && (l.len() > 0 ==> l.last() != '\r')
}

/// Every line is written back as itself in the section it stands in.
spec fn stable_lines(ls: Seq<Seq<char>>, vals: Seq<IniValue>, g: Seq<TerminalColor>, h: Seq<TerminalColor>) -> bool {
    forall|i: int| 0 <= i < ls.len() ==> #[trigger] line_out(ls[i], section_after(ls, i), vals, g, h) == ls[i]
        && clean_line(ls[i])
}

/// Some line of `ls` records the pair `q`.
spec fn has_key(
    ls: Seq<Seq<char>>,
    q: (Seq<char>, Seq<char>),
    vals: Seq<IniValue>,
    g: Seq<TerminalColor>,
    h: Seq<TerminalColor>,
) -> bool {
    exists|i: int| 0 <= i < ls.len() && #[trigger] line_seen(ls[i], section_after(ls, i), vals, g, h).contains(q)
}

/// Some line of `ls` records the gradient entry `q`.
spec fn has_grad(ls: Seq<Seq<char>>, q: (bool, int)) -> bool {
    exists|i: int| 0 <= i < ls.len() && #[trigger] line_grad(ls[i]).contains(q)
}

/// A section name written in lower-case ASCII letters.
spec fn lower_word(sec: Seq<char>) -> bool {
    sec.len() > 0 && forall|i: int| 0 <= i < sec.len() ==> 'a' <= #[trigger] sec[i] && sec[i] <= 'z'
}

spec fn no_header(b: Seq<Seq<char>>, j: int) -> bool {
    forall|i: int| 0 <= i < j ==> !is_header(#[trigger] trim(b[i]))
}

#[verifier::spinoff_prover]
proof fn lemma_section_prefix(a: Seq<Seq<char>>, b: Seq<Seq<char>>, n: int)
    requires
        0 <= n <= a.len(),
    ensures
        section_after(a + b, n) == section_after(a, n),
    decreases n,
{
    if n > 0 {
        assert((a + b)[n - 1] == a[n - 1]);
        lemma_section_prefix(a, b, n - 1);
    }
}

#[verifier::spinoff_prover]
proof fn lemma_section_shift(a: Seq<Seq<char>>, b: Seq<Seq<char>>, j: int)
    requires
        0 <= j <= b.len(),
    ensures
        section_after(a + b, a.len() + j) == (if no_header(b, j) { section_after(a, a.len() as int) } else {
            section_after(b, j)
        }),
    decreases j,
{
    if j == 0 {
        lemma_section_prefix(a, b, a.len() as int);
    } else {
        lemma_section_shift(a, b, j - 1);
        assert((a + b)[a.len() + j - 1] == b[j - 1]);
        if !no_header(b, j - 1) {
            assert(!no_header(b, j));
        }
    }
}

/// The header `[sec]` of a lower-case section.
#[verifier::spinoff_prover]
proof fn lemma_header_line(sec: Seq<char>)
    requires
        lower_word(sec),
    ensures
        trim("["@ + sec + "]"@) == "["@ + sec + "]"@,
        is_header("["@ + sec + "]"@),
        header_name("["@ + sec + "]"@) == sec,
        clean_line("["@ + sec + "]"@),
        forall|t: Seq<char>| eq_ignore_ascii_case(t, "["@ + sec + "]"@) ==> is_header(t) && header_name(t) == sec,
{
    reveal_strlit("[");
    reveal_strlit("]");
    let hd = "["@ + sec + "]"@;
    assert(hd[0] == '[' && hd.last() == ']');
    lemma_trim_keeps(hd);
    assert forall|i: int| 0 <= i < hd.len() implies #[trigger] hd[i] != '\n' by {
        if 1 <= i < hd.len() - 1 {
            assert(hd[i] == sec[i - 1]);
        }
    }
    assert forall|t: Seq<char>| eq_ignore_ascii_case(t, hd) implies is_header(t) && header_name(t) == sec by {
        assert(crate::text::ascii_lower(t[0]) == crate::text::ascii_lower(hd[0]));
        assert(crate::text::ascii_lower(t[t.len() - 1]) == crate::text::ascii_lower(hd[hd.len() - 1]));
        let u = t.subrange(1, t.len() - 1);
        assert forall|i: int| 0 <= i < u.len() implies #[trigger] u[i] == sec[i] || ('A' <= u[i] && u[i] <= 'Z'
            && (u[i] as u32) + 32 == sec[i] as u32) by {
            assert(crate::text::ascii_lower(t[i + 1]) == crate::text::ascii_lower(hd[i + 1]));
            assert(hd[i + 1] == sec[i]);
        }
        assert(u.len() == sec.len());
        assert(!is_ws(u[0]) && !is_ws(u.last()));
        lemma_trim_keeps(u);
        lemma_lower_idem(u);
        assert(lower(u) =~= sec);
    }
    let u = hd.subrange(1, hd.len() - 1);
    assert(u =~= sec);
    lemma_trim_keeps(sec);
    assert(lower(sec) =~= sec);
}

#[verifier::spinoff_prover]
proof fn lemma_insert_point(
    ls: Seq<Seq<char>>,
    sec: Seq<char>,
    i: int,
    in_sec: bool,
    at: Option<int>,
)
    requires
        lower_word(sec),
        0 <= i <= ls.len(),
        in_sec ==> section_after(ls, i) == sec,
        at matches Some(a) ==> 1 <= a <= i && section_after(ls, a) == sec,
    ensures
        insert_point(ls, "["@ + sec + "]"@, i, in_sec, at) matches Some(a) ==> 1 <= a <= ls.len()
            && section_after(ls, a) == sec,
    decreases ls.len() - i,
{
    let hd = "["@ + sec + "]"@;
    if i < ls.len() {
        let t = trim(ls[i]);
        lemma_header_line(sec);
        if eq_ignore_ascii_case(t, hd) {
            lemma_insert_point(ls, sec, i + 1, true, Some(i + 1));
        } else if in_sec {
            if is_header(t) {
            } else if !(t.len() == 0 || t[0] == '#' || t[0] == ';') {
                lemma_insert_point(ls, sec, i + 1, true, Some(i + 1));
            } else {
                lemma_insert_point(ls, sec, i + 1, true, at);
            }
        } else {
            lemma_insert_point(ls, sec, i + 1, false, at);
        }
    }
}

/// Lines a block for section `sec` may hold: each written back as itself
/// in that section, and none a header.
spec fn block_fits(
    block: Seq<Seq<char>>,
    sec: Seq<char>,
    vals: Seq<IniValue>,
    g: Seq<TerminalColor>,
    h: Seq<TerminalColor>,
) -> bool {
    forall|j: int| 0 <= j < block.len() ==> #[trigger] line_out(block[j], sec, vals, g, h) == block[j]
        && clean_line(block[j]) && !is_header(trim(block[j])) && eq_line_band(block[j]) is None
}

#[verifier::spinoff_prover]
proof fn lemma_block_no_header(
    block: Seq<Seq<char>>,
    sec: Seq<char>,
    j: int,
    vals: Seq<IniValue>,
    g: Seq<TerminalColor>,
    h: Seq<TerminalColor>,
)
    requires
        block_fits(block, sec, vals, g, h),
        0 <= j <= block.len(),
    ensures
        no_header(block, j),
{
    assert forall|i: int| 0 <= i < j implies !is_header(#[trigger] trim(block[i])) by {
        assert(line_out(block[i], sec, vals, g, h) == block[i]);
    }
}

/// A line that holds no setting is written back as it is.
#[verifier::spinoff_prover]
proof fn lemma_kept_line(x: Seq<char>, sec: Seq<char>, vals: Seq<IniValue>, g: Seq<TerminalColor>, h: Seq<TerminalColor>)
    requires
        !holds_setting(trim(x)),
    ensures
        line_out(x, sec, vals, g, h) == x,
{
    reveal(line_out);
}

/// Where line `i` goes when `n` lines are inserted at `at`.
spec fn shifted(i: int, at: int, n: int) -> int {
    if i < at { i } else { i + n }
}

/// A line kept by a merge inside the text: where it goes and its section.
#[verifier::spinoff_prover]
proof fn lemma_inside_old(ls: Seq<Seq<char>>, block: Seq<Seq<char>>, at: int, i: int)
    requires
        0 <= at <= ls.len(),
        0 <= i < ls.len(),
        no_header(block, block.len() as int),
    ensures
        (ls.take(at) + block + ls.skip(at))[shifted(i, at, block.len() as int)] == ls[i],
        section_after(ls.take(at) + block + ls.skip(at), shifted(i, at, block.len() as int)) == section_after(ls, i),
{
    let a = ls.take(at);
    let c = ls.skip(at);
    let m = a + block + c;
    assert(ls =~= a + c);
    assert(m =~= a + (block + c));
    if i < at {
        lemma_section_prefix(a, block + c, i);
        lemma_section_prefix(a, c, i);
    } else {
        let j = i - at;
        assert(m =~= (a + block) + c);
        lemma_section_shift(a + block, c, j);
        lemma_section_shift(a, c, j);
        lemma_section_shift(a, block, block.len() as int);
    }
}

/// A block line placed by a merge inside the text: where it goes and its
/// section.
#[verifier::spinoff_prover]
proof fn lemma_inside_new(ls: Seq<Seq<char>>, block: Seq<Seq<char>>, at: int, j: int)
    requires
        0 <= at <= ls.len(),
        0 <= j < block.len(),
        no_header(block, block.len() as int),
    ensures
        (ls.take(at) + block + ls.skip(at))[at + j] == block[j],
        section_after(ls.take(at) + block + ls.skip(at), at + j) == section_after(ls, at),
{
    let a = ls.take(at);
    let c = ls.skip(at);
    let m = a + block + c;
    assert(ls =~= a + c);
    assert(m =~= a + (block + c));
    lemma_section_prefix(a, c, at);
    assert(no_header(block + c, j)) by {
        assert forall|i: int| 0 <= i < j implies !is_header(#[trigger] trim((block + c)[i])) by {
            assert((block + c)[i] == block[i]);
        }
    }
    lemma_section_shift(a, block + c, j);
}

/// A line kept by a merge at the end: its section.
#[verifier::spinoff_prover]
proof fn lemma_after_old(ls: Seq<Seq<char>>, hd: Seq<char>, block: Seq<Seq<char>>, i: int)
    requires
        0 <= i < ls.len(),
    ensures
        (ls.push(Seq::empty()).push(hd) + block)[i] == ls[i],
        section_after(ls.push(Seq::empty()).push(hd) + block, i) == section_after(ls, i),
{
    let rest = seq![Seq::<char>::empty(), hd] + block;
    assert(ls.push(Seq::empty()).push(hd) + block =~= ls + rest);
    lemma_section_prefix(ls, rest, i);
}

/// A block line placed by a merge at the end: its section.
#[verifier::spinoff_prover]
proof fn lemma_after_new(ls: Seq<Seq<char>>, sec: Seq<char>, block: Seq<Seq<char>>, j: int)
    requires
        lower_word(sec),
        0 <= j < block.len(),
        no_header(block, block.len() as int),
    ensures
        (ls.push(Seq::empty()).push("["@ + sec + "]"@) + block)[ls.len() + 2 + j] == block[j],
        section_after(ls.push(Seq::empty()).push("["@ + sec + "]"@) + block, ls.len() + 2 + j) == sec,
{
    let hd = "["@ + sec + "]"@;
    lemma_header_line(sec);
    let a2 = ls.push(Seq::empty()).push(hd);
    assert(a2[a2.len() - 1] == hd);
    assert(section_after(a2, a2.len() as int) == sec);
    assert(no_header(block, j));
    lemma_section_shift(a2, block, j);
}

/// One line of stable lines.
#[verifier::spinoff_prover]
proof fn lemma_stable_at(ls: Seq<Seq<char>>, i: int, vals: Seq<IniValue>, g: Seq<TerminalColor>, h: Seq<TerminalColor>)
    requires
        stable_lines(ls, vals, g, h),
        0 <= i < ls.len(),
    ensures
        line_out(ls[i], section_after(ls, i), vals, g, h) == ls[i],
        clean_line(ls[i]),
{
    assert(line_out(ls[i], section_after(ls, i), vals, g, h) == ls[i] && clean_line(ls[i]));
}

/// One line of a block that fits its section.
#[verifier::spinoff_prover]
proof fn lemma_fits_at(
    block: Seq<Seq<char>>,
    sec: Seq<char>,
    j: int,
    vals: Seq<IniValue>,
    g: Seq<TerminalColor>,
    h: Seq<TerminalColor>,
)
    requires
        block_fits(block, sec, vals, g, h),
        0 <= j < block.len(),
    ensures
        line_out(block[j], sec, vals, g, h) == block[j],
        clean_line(block[j]),
        !is_header(trim(block[j])),
        eq_line_band(block[j]) is None,
{
}

#[verifier::spinoff_prover]
proof fn lemma_merge_block(
    ls: Seq<Seq<char>>,
    sec: Seq<char>,
    block: Seq<Seq<char>>,
    vals: Seq<IniValue>,
    g: Seq<TerminalColor>,
    h: Seq<TerminalColor>,
)
    requires
        lower_word(sec),
        stable_lines(ls, vals, g, h),
        block_fits(block, sec, vals, g, h),
    ensures
        stable_lines(merge_block(ls, sec, block), vals, g, h),
        forall|q: (Seq<char>, Seq<char>)| has_key(ls, q, vals, g, h) ==> #[trigger] has_key(
            merge_block(ls, sec, block), q, vals, g, h),
        forall|j: int, q: (Seq<char>, Seq<char>)| 0 <= j < block.len() && #[trigger] line_seen(block[j], sec, vals, g, h).contains(q)
            ==> has_key(merge_block(ls, sec, block), q, vals, g, h),
        forall|q: (bool, int)| has_grad(ls, q) ==> #[trigger] has_grad(merge_block(ls, sec, block), q),
        forall|j: int, q: (bool, int)| 0 <= j < block.len() && #[trigger] line_grad(block[j]).contains(q)
            ==> has_grad(merge_block(ls, sec, block), q),
{
    let hd = "["@ + sec + "]"@;
    let m = merge_block(ls, sec, block);
    lemma_insert_point(ls, sec, 0, false, None);
    lemma_block_no_header(block, sec, block.len() as int, vals, g, h);
    lemma_header_line(sec);
    match insert_point(ls, hd, 0, false, None) {
        Some(at) => {
            assert(m == ls.take(at) + block + ls.skip(at));
            assert forall|p: int| 0 <= p < m.len() implies #[trigger] line_out(m[p], section_after(m, p), vals, g, h) == m[p]
                && clean_line(m[p]) by {
                if p < at {
                    lemma_inside_old(ls, block, at, p);
                    lemma_stable_at(ls, p, vals, g, h);
                } else if p < at + block.len() {
                    lemma_inside_new(ls, block, at, p - at);
                    lemma_fits_at(block, sec, p - at, vals, g, h);
                } else {
                    let i = p - block.len();
                    lemma_inside_old(ls, block, at, i);
                    lemma_stable_at(ls, i, vals, g, h);
                }
            }
            assert forall|q: (Seq<char>, Seq<char>)| has_key(ls, q, vals, g, h) implies #[trigger] has_key(m, q, vals, g, h) by {
                let i = choose|i: int| 0 <= i < ls.len() && #[trigger] line_seen(ls[i], section_after(ls, i), vals, g, h).contains(q);
                lemma_inside_old(ls, block, at, i);
                let p = shifted(i, at, block.len() as int);
                assert(line_seen(m[p], section_after(m, p), vals, g, h).contains(q));
            }
            assert forall|j: int, q: (Seq<char>, Seq<char>)| 0 <= j < block.len() && #[trigger] line_seen(block[j], sec, vals, g, h).contains(q)
                implies has_key(m, q, vals, g, h) by {
                lemma_inside_new(ls, block, at, j);
                assert(line_seen(m[at + j], section_after(m, at + j), vals, g, h).contains(q));
            }
            assert forall|q: (bool, int)| has_grad(ls, q) implies #[trigger] has_grad(m, q) by {
                let i = choose|i: int| 0 <= i < ls.len() && #[trigger] line_grad(ls[i]).contains(q);
                lemma_inside_old(ls, block, at, i);
                let p = shifted(i, at, block.len() as int);
                assert(line_grad(m[p]).contains(q));
            }
            assert forall|j: int, q: (bool, int)| 0 <= j < block.len() && #[trigger] line_grad(block[j]).contains(q)
                implies has_grad(m, q) by {
                lemma_inside_new(ls, block, at, j);
                assert(line_grad(m[at + j]).contains(q));
            }
        },
        None => {
            assert(m == ls.push(Seq::empty()).push(hd) + block);
            assert(trim(Seq::<char>::empty()) =~= Seq::<char>::empty());
            assert(!holds_setting(trim(hd)));
            assert(clean_line(Seq::<char>::empty()));
            assert forall|p: int| 0 <= p < m.len() implies #[trigger] line_out(m[p], section_after(m, p), vals, g, h) == m[p]
                && clean_line(m[p]) by {
                if p < ls.len() {
                    lemma_after_old(ls, hd, block, p);
                    lemma_stable_at(ls, p, vals, g, h);
                } else if p == ls.len() {
                    assert(m[p] == Seq::<char>::empty());
                    lemma_kept_line(m[p], section_after(m, p), vals, g, h);
                } else if p == ls.len() + 1 {
                    assert(m[p] == hd);
                    lemma_kept_line(m[p], section_after(m, p), vals, g, h);
                } else {
                    let j = p - ls.len() - 2;
                    lemma_after_new(ls, sec, block, j);
                    lemma_fits_at(block, sec, j, vals, g, h);
                }
            }
            assert forall|q: (Seq<char>, Seq<char>)| has_key(ls, q, vals, g, h) implies #[trigger] has_key(m, q, vals, g, h) by {
                let i = choose|i: int| 0 <= i < ls.len() && #[trigger] line_seen(ls[i], section_after(ls, i), vals, g, h).contains(q);
                lemma_after_old(ls, hd, block, i);
                assert(line_seen(m[i], section_after(m, i), vals, g, h).contains(q));
            }
            assert forall|j: int, q: (Seq<char>, Seq<char>)| 0 <= j < block.len() && #[trigger] line_seen(block[j], sec, vals, g, h).contains(q)
                implies has_key(m, q, vals, g, h) by {
                lemma_after_new(ls, sec, block, j);
                let p = ls.len() + 2 + j;
                assert(line_seen(m[p], section_after(m, p), vals, g, h).contains(q));
            }
            assert forall|q: (bool, int)| has_grad(ls, q) implies #[trigger] has_grad(m, q) by {
                let i = choose|i: int| 0 <= i < ls.len() && #[trigger] line_grad(ls[i]).contains(q);
                lemma_after_old(ls, hd, block, i);
                assert(line_grad(m[i]).contains(q));
            }
            assert forall|j: int, q: (bool, int)| 0 <= j < block.len() && #[trigger] line_grad(block[j]).contains(q)
                implies has_grad(m, q) by {
                lemma_after_new(ls, sec, block, j);
                let p = ls.len() + 2 + j;
                assert(line_grad(m[p]).contains(q));
            }
        },
    }
}

/// Blocks whose sections are lower-case words and whose lines fit them.
spec fn blocks_fit(
    b: Seq<(Seq<char>, Seq<Seq<char>>)>,
    vals: Seq<IniValue>,
    g: Seq<TerminalColor>,
    h: Seq<TerminalColor>,
) -> bool {
    forall|k: int| 0 <= k < b.len() ==> lower_word(#[trigger] b[k].0) && block_fits(b[k].1, b[k].0, vals, g, h)
}

#[verifier::spinoff_prover]
proof fn lemma_merge_blocks(
    ls: Seq<Seq<char>>,
    b: Seq<(Seq<char>, Seq<Seq<char>>)>,
    n: int,
    vals: Seq<IniValue>,
    g: Seq<TerminalColor>,
    h: Seq<TerminalColor>,
)
    requires
        0 <= n <= b.len(),
        stable_lines(ls, vals, g, h),
        blocks_fit(b, vals, g, h),
    ensures
        stable_lines(merge_blocks(ls, b, n), vals, g, h),
        forall|q: (Seq<char>, Seq<char>)| has_key(ls, q, vals, g, h) ==> #[trigger] has_key(
            merge_blocks(ls, b, n), q, vals, g, h),
        forall|k: int, j: int, q: (Seq<char>, Seq<char>)|
            0 <= k < n && 0 <= j < b[k].1.len() && #[trigger] line_seen(b[k].1[j], b[k].0, vals, g, h).contains(q)
            ==> has_key(merge_blocks(ls, b, n), q, vals, g, h),
        forall|q: (bool, int)| has_grad(ls, q) ==> #[trigger] has_grad(merge_blocks(ls, b, n), q),
        forall|k: int, j: int, q: (bool, int)|
            0 <= k < n && 0 <= j < b[k].1.len() && #[trigger] line_grad(b[k].1[j]).contains(q)
            ==> has_grad(merge_blocks(ls, b, n), q),
    decreases n,
{
    if n > 0 {
        lemma_merge_blocks(ls, b, n - 1, vals, g, h);
        let prev = merge_blocks(ls, b, n - 1);
        assert(lower_word(b[n - 1].0) && block_fits(b[n - 1].1, b[n - 1].0, vals, g, h));
        lemma_merge_block(prev, b[n - 1].0, b[n - 1].1, vals, g, h);
        let m = merge_blocks(ls, b, n);
        assert(m == merge_block(prev, b[n - 1].0, b[n - 1].1));
        assert forall|q: (Seq<char>, Seq<char>)| has_key(ls, q, vals, g, h) implies #[trigger] has_key(m, q, vals, g, h) by {
            assert(has_key(prev, q, vals, g, h));
        }
        assert forall|k: int, j: int, q: (Seq<char>, Seq<char>)|
            0 <= k < n && 0 <= j < b[k].1.len() && #[trigger] line_seen(b[k].1[j], b[k].0, vals, g, h).contains(q)
            implies has_key(m, q, vals, g, h) by {
            if k < n - 1 {
                assert(has_key(prev, q, vals, g, h));
            }
        }
        assert forall|q: (bool, int)| has_grad(ls, q) implies #[trigger] has_grad(m, q) by {
            assert(has_grad(prev, q));
        }
        assert forall|k: int, j: int, q: (bool, int)|
            0 <= k < n && 0 <= j < b[k].1.len() && #[trigger] line_grad(b[k].1[j]).contains(q)
            implies has_grad(m, q) by {
            if k < n - 1 {
                assert(has_grad(prev, q));
            }
        }
    }
}

/// The decimal spelling of `n` is digits that read back as `n`.
#[verifier::spinoff_prover]
proof fn lemma_dec(n: nat)
    ensures
        dec(n).len() > 0,
        forall|i: int| 0 <= i < dec(n).len() ==> crate::text::is_digit(#[trigger] dec(n)[i]),
        crate::text::digits_value(dec(n)) == n,
    decreases n,
{
    let c = crate::text::digit_char((n % 10) as int);
    assert((c as u32) - ('0' as u32) == n % 10);
    assert(crate::text::is_digit(c));
    if n >= 10 {
        lemma_dec(n / 10);
        let d = dec(n / 10);
        assert(dec(n).drop_last() =~= d);
        assert(dec(n).last() == c);
        assert(crate::text::digits_value(dec(n)) == crate::text::digits_value(d) * 10 + n % 10);
        assert((n / 10) * 10 + n % 10 == n) by (nonlinear_arith);
        assert forall|i: int| 0 <= i < dec(n).len() implies crate::text::is_digit(#[trigger] dec(n)[i]) by {
            if i < d.len() {
                assert(dec(n)[i] == d[i]);
            }
        }
    } else {
        assert(dec(n).drop_last() =~= Seq::<char>::empty());
        assert(dec(n)[0] == c);
        assert(n % 10 == n);
        assert(crate::text::digits_value(Seq::<char>::empty()) == 0);
        assert(crate::text::digits_value(dec(n)) == crate::text::digits_value(Seq::<char>::empty()) * 10 + n % 10);
    }
}

#[verifier::spinoff_prover]
proof fn lemma_parse_dec(n: nat)
    requires
        n <= usize::MAX,
    ensures
        crate::text::parse_uint(dec(n), usize::MAX as nat) == Some(n),
{
    lemma_dec(n);
    assert(crate::text::unsigned_digits(dec(n)) == dec(n));
}

/// The key of gradient entry `n` of one of the two lists.
spec fn grad_key(hz: bool, n: nat) -> Seq<char> {
    crate::ini_write::grad_prefix(hz) + dec(n)
}

#[verifier::spinoff_prover]
proof fn lemma_grad_key(hz: bool, n: nat)
    requires
        n <= usize::MAX,
    ensures
        gradient_key(grad_key(hz, n)) == Some((hz, n as int)),
        lower(grad_key(hz, n)) == grad_key(hz, n),
{
    reveal_strlit("gradient_color_");
    reveal_strlit("horizontal_gradient_color_");
    lemma_parse_dec(n);
    lemma_dec(n);
    let k = grad_key(hz, n);
    let pre = crate::ini_write::grad_prefix(hz);
    if hz {
        assert(k.take(26) =~= pre);
        assert(k.skip(26) =~= dec(n));
        assert(k.take(15)[0] == 'h');
        assert(k.take(15) != "gradient_color_"@);
    } else {
        assert(k.take(15) =~= pre);
        assert(k.skip(15) =~= dec(n));
    }
    lemma_lower_idem(k);
    assert forall|i: int| 0 <= i < k.len() implies #[trigger] lower(k)[i] == k[i] by {
        if i >= pre.len() {
            assert(k[i] == dec(n)[i - pre.len()]);
        }
    }
    assert(lower(k) =~= k);
}

/// A gradient line a save adds reads back as itself, in any section.
#[verifier::spinoff_prover]
proof fn lemma_grad_line(
    hz: bool,
    n: nat,
    sec: Seq<char>,
    vals: Seq<IniValue>,
    g: Seq<TerminalColor>,
    h: Seq<TerminalColor>,
)
    requires
        1 <= n <= grad_list(hz, g, h).len(),
        n <= usize::MAX,
    ensures
        ({
            let line = grad_key(hz, n) + " = "@ + grad_list(hz, g, h)[n - 1].ini_name();
            &&& line_out(line, sec, vals, g, h) == line
            &&& clean_line(line)
            &&& !is_header(trim(line))
            &&& eq_line_band(line) is None
            &&& line_grad(line) == seq![(hz, n as int)]
        }),
{
    reveal(line_out);
    reveal(line_grad);
    let key = grad_key(hz, n);
    let name = grad_list(hz, g, h)[n - 1].ini_name();
    let line = key + " = "@ + name;
    lemma_grad_key(hz, n);
    lemma_gradient_key_chars(key);
    lemma_ini_name_plain(grad_list(hz, g, h)[n - 1]);
    lemma_plain_saved(name);
    assert(line =~= key + " = "@ + name + Seq::<char>::empty());
    lemma_written_line(key, name, Seq::empty());
    lemma_line_band(key, name, Seq::empty());
    if uint_value(key) is Some {
        lemma_number_text(key);
    }
}

/// A key line a save adds reads back as itself in its section.
#[verifier::spinoff_prover]
proof fn lemma_key_line(
    k: Seq<char>,
    sec: Seq<char>,
    vals: Seq<IniValue>,
    g: Seq<TerminalColor>,
    h: Seq<TerminalColor>,
)
    requires
        plain_settings(vals),
        value_for(vals, sec, k) is Some,
    ensures
        ({
            let line = k + " = "@ + value_for(vals, sec, k)->0;
            &&& line_out(line, sec, vals, g, h) == line
            &&& clean_line(line)
            &&& !is_header(trim(line))
            &&& eq_line_band(line) is None
            &&& line_seen(line, sec, vals, g, h) == seq![(sec, k)]
        }),
{
    reveal(line_out);
    reveal(line_seen);
    let v = value_for(vals, sec, k)->0;
    lemma_value_from_found(vals, 0, sec, k);
    let j = choose|j: int| 0 <= j < vals.len() && #[trigger] vals[j].key@ == k && vals[j].value@ == v;
    assert(plain_key(vals[j].key@) && saved_value(vals[j].value@));
    let line = k + " = "@ + v;
    assert(line =~= k + " = "@ + v + Seq::<char>::empty());
    lemma_written_line(k, v, Seq::empty());
    lemma_line_band(k, v, Seq::empty());
}

#[verifier::spinoff_prover]
proof fn lemma_missing_lines(
    sec: Seq<char>,
    keys: Seq<Seq<char>>,
    n: int,
    vals: Seq<IniValue>,
    seen: Seq<(Seq<char>, Seq<char>)>,
    g: Seq<TerminalColor>,
    h: Seq<TerminalColor>,
)
    requires
        0 <= n <= keys.len(),
        plain_settings(vals),
    ensures
        block_fits(missing_lines(sec, keys, n, vals, seen), sec, vals, g, h),
        forall|i: int| 0 <= i < n && !seen.contains((sec, #[trigger] keys[i])) && value_for(vals, sec, keys[i]) is Some
            ==> exists|l: int| 0 <= l < missing_lines(sec, keys, n, vals, seen).len()
                && #[trigger] line_seen(missing_lines(sec, keys, n, vals, seen)[l], sec, vals, g, h).contains((sec, keys[i])),
        (forall|i: int| 0 <= i < n && value_for(vals, sec, #[trigger] keys[i]) is Some ==> seen.contains((sec, keys[i])))
            ==> missing_lines(sec, keys, n, vals, seen).len() == 0,
    decreases n,
{
    if n > 0 {
        lemma_missing_lines(sec, keys, n - 1, vals, seen, g, h);
        let prev = missing_lines(sec, keys, n - 1, vals, seen);
        let cur = missing_lines(sec, keys, n, vals, seen);
        let k = keys[n - 1];
        if !seen.contains((sec, k)) && value_for(vals, sec, k) is Some {
            lemma_key_line(k, sec, vals, g, h);
            let line = k + " = "@ + value_for(vals, sec, k)->0;
            assert(cur == prev.push(line));
            assert forall|j: int| 0 <= j < cur.len() implies #[trigger] line_out(cur[j], sec, vals, g, h) == cur[j]
                && clean_line(cur[j]) && !is_header(trim(cur[j])) && eq_line_band(cur[j]) is None by {
                if j < prev.len() {
                    assert(cur[j] == prev[j]);
                    assert(line_out(prev[j], sec, vals, g, h) == prev[j]);
                }
            }
            assert(block_fits(cur, sec, vals, g, h));
            assert forall|i: int| 0 <= i < n && !seen.contains((sec, #[trigger] keys[i])) && value_for(vals, sec, keys[i]) is Some
                implies exists|l: int| 0 <= l < cur.len()
                    && #[trigger] line_seen(cur[l], sec, vals, g, h).contains((sec, keys[i])) by {
                if i < n - 1 {
                    let l = choose|l: int| 0 <= l < prev.len()
                        && #[trigger] line_seen(prev[l], sec, vals, g, h).contains((sec, keys[i]));
                    assert(cur[l] == prev[l]);
                } else {
                    assert(cur[prev.len() as int] == line);
                    assert(line_seen(line, sec, vals, g, h)[0] == (sec, k));
                    assert(line_seen(cur[prev.len() as int], sec, vals, g, h).contains((sec, keys[i])));
                }
            }
        } else {
            assert(cur == prev);
            assert(block_fits(cur, sec, vals, g, h));
        }
    } else {
        assert(missing_lines(sec, keys, n, vals, seen) =~= Seq::<Seq<char>>::empty());
    }
}

#[verifier::spinoff_prover]
proof fn lemma_missing_grad(
    hz: bool,
    n: int,
    seen_grad: Seq<(bool, int)>,
    vals: Seq<IniValue>,
    g: Seq<TerminalColor>,
    h: Seq<TerminalColor>,
)
    requires
        0 <= n <= grad_list(hz, g, h).len(),
        grad_list(hz, g, h).len() <= usize::MAX,
    ensures
        forall|sec: Seq<char>| #[trigger] block_fits(missing_grad(grad_list(hz, g, h), hz, n, seen_grad), sec, vals, g, h),
        forall|m: int| 1 <= m <= n && !#[trigger] seen_grad.contains((hz, m))
            ==> exists|l: int| 0 <= l < missing_grad(grad_list(hz, g, h), hz, n, seen_grad).len()
                && #[trigger] line_grad(missing_grad(grad_list(hz, g, h), hz, n, seen_grad)[l]).contains((hz, m)),
        (forall|m: int| 1 <= m <= n ==> #[trigger] seen_grad.contains((hz, m)))
            ==> missing_grad(grad_list(hz, g, h), hz, n, seen_grad).len() == 0,
    decreases n,
{
    let list = grad_list(hz, g, h);
    if n > 0 {
        lemma_missing_grad(hz, n - 1, seen_grad, vals, g, h);
        let prev = missing_grad(list, hz, n - 1, seen_grad);
        let cur = missing_grad(list, hz, n, seen_grad);
        if !seen_grad.contains((hz, n)) {
            let line = crate::ini_write::grad_prefix(hz) + dec(n as nat) + " = "@ + list[n - 1].ini_name();
            assert(cur == prev.push(line));
            assert(line == grad_key(hz, n as nat) + " = "@ + grad_list(hz, g, h)[n - 1].ini_name());
            assert forall|sec: Seq<char>| #[trigger] block_fits(cur, sec, vals, g, h) by {
                lemma_grad_line(hz, n as nat, sec, vals, g, h);
                assert(block_fits(prev, sec, vals, g, h));
                assert forall|j: int| 0 <= j < cur.len() implies #[trigger] line_out(cur[j], sec, vals, g, h) == cur[j]
                    && clean_line(cur[j]) && !is_header(trim(cur[j])) && eq_line_band(cur[j]) is None by {
                    if j < prev.len() {
                        assert(cur[j] == prev[j]);
                        assert(line_out(prev[j], sec, vals, g, h) == prev[j]);
                    }
                }
            }
            assert forall|m: int| 1 <= m <= n && !#[trigger] seen_grad.contains((hz, m))
                implies exists|l: int| 0 <= l < cur.len() && #[trigger] line_grad(cur[l]).contains((hz, m)) by {
                if m < n {
                    let l = choose|l: int| 0 <= l < prev.len() && #[trigger] line_grad(prev[l]).contains((hz, m));
                    assert(cur[l] == prev[l]);
                } else {
                    lemma_grad_line(hz, n as nat, Seq::empty(), vals, g, h);
                    assert(cur[prev.len() as int] == line);
                    assert(line_grad(line)[0] == (hz, m));
                    assert(line_grad(cur[prev.len() as int]).contains((hz, m)));
                }
            }
        } else {
            assert(cur == prev);
        }
    }
}

#[verifier::spinoff_prover]
proof fn lemma_sections_lower(j: int)
    ensures
        0 <= j < 5 ==> lower_word(order_section(j)),
        lower_word("color"@),
{
    reveal_strlit("general");
    reveal_strlit("input");
    reveal_strlit("output");
    reveal_strlit("color");
    reveal_strlit("smoothing");
}

/// Key `i` of section `jj` has a value to write.
spec fn needed_key(vals: Seq<IniValue>, jj: int, i: int) -> bool {
    0 <= jj < 5 && 0 <= i < order_keys(jj).len() && value_for(vals, order_section(jj), order_keys(jj)[i]) is Some
}

spec fn key_pair(jj: int, i: int) -> (Seq<char>, Seq<char>) {
    (order_section(jj), order_keys(jj)[i])
}

#[verifier::spinoff_prover]
proof fn lemma_missing_blocks(
    j: int,
    vals: Seq<IniValue>,
    seen: Seq<(Seq<char>, Seq<char>)>,
    g: Seq<TerminalColor>,
    h: Seq<TerminalColor>,
)
    requires
        0 <= j <= 5,
        plain_settings(vals),
    ensures
        blocks_fit(missing_blocks(j, vals, seen), vals, g, h),
        forall|jj: int, i: int| jj < j && #[trigger] needed_key(vals, jj, i) && !seen.contains(key_pair(jj, i))
            ==> exists|kb: int, l: int| 0 <= kb < missing_blocks(j, vals, seen).len()
                && 0 <= l < missing_blocks(j, vals, seen)[kb].1.len()
                && #[trigger] line_seen(missing_blocks(j, vals, seen)[kb].1[l], missing_blocks(j, vals, seen)[kb].0, vals, g, h).contains(key_pair(jj, i)),
        (forall|jj: int, i: int| jj < j && #[trigger] needed_key(vals, jj, i) ==> seen.contains(key_pair(jj, i)))
            ==> missing_blocks(j, vals, seen).len() == 0,
    decreases j,
{
    if j > 0 {
        lemma_missing_blocks(j - 1, vals, seen, g, h);
        let prev = missing_blocks(j - 1, vals, seen);
        let cur = missing_blocks(j, vals, seen);
        let sec = order_section(j - 1);
        let ks = order_keys(j - 1);
        lemma_missing_lines(sec, ks, ks.len() as int, vals, seen, g, h);
        let ex = missing_lines(sec, ks, ks.len() as int, vals, seen);
        lemma_sections_lower(j - 1);
        if ex.len() > 0 {
            assert(cur == prev.push((sec, ex)));
            assert forall|k: int| 0 <= k < cur.len() implies lower_word(#[trigger] cur[k].0)
                && block_fits(cur[k].1, cur[k].0, vals, g, h) by {
                if k < prev.len() {
                    assert(cur[k] == prev[k]);
                }
            }
            assert forall|jj: int, i: int| jj < j && #[trigger] needed_key(vals, jj, i) && !seen.contains(key_pair(jj, i))
                implies exists|kb: int, l: int| 0 <= kb < cur.len() && 0 <= l < cur[kb].1.len()
                    && #[trigger] line_seen(cur[kb].1[l], cur[kb].0, vals, g, h).contains(key_pair(jj, i)) by {
                if jj < j - 1 {
                    let (kb, l) = choose|kb: int, l: int| 0 <= kb < prev.len() && 0 <= l < prev[kb].1.len()
                        && #[trigger] line_seen(prev[kb].1[l], prev[kb].0, vals, g, h).contains(key_pair(jj, i));
                    assert(cur[kb] == prev[kb]);
                } else {
                    assert(!seen.contains((sec, ks[i])) && value_for(vals, sec, ks[i]) is Some);
                    let l = choose|l: int| 0 <= l < ex.len() && #[trigger] line_seen(ex[l], sec, vals, g, h).contains((sec, ks[i]));
                    assert(cur[prev.len() as int] == (sec, ex));
                    assert(line_seen(cur[prev.len() as int].1[l], cur[prev.len() as int].0, vals, g, h).contains(key_pair(jj, i)));
                }
            }
            if forall|jj: int, i: int| jj < j && #[trigger] needed_key(vals, jj, i) ==> seen.contains(key_pair(jj, i)) {
                assert forall|i: int| 0 <= i < ks.len() && value_for(vals, sec, #[trigger] ks[i]) is Some
                    implies seen.contains((sec, ks[i])) by {
                    assert(needed_key(vals, j - 1, i));
                }
            }
        } else {
            assert(cur == prev);
            assert forall|jj: int, i: int| jj < j && #[trigger] needed_key(vals, jj, i) && !seen.contains(key_pair(jj, i))
                implies exists|kb: int, l: int| 0 <= kb < cur.len() && 0 <= l < cur[kb].1.len()
                    && #[trigger] line_seen(cur[kb].1[l], cur[kb].0, vals, g, h).contains(key_pair(jj, i)) by {
                if jj == j - 1 {
                    assert(!seen.contains((sec, ks[i])) && value_for(vals, sec, ks[i]) is Some);
                    assert(false);
                }
            }
        }
    }
}

#[verifier::spinoff_prover]
proof fn lemma_block_index(b: Seq<(Seq<char>, Seq<Seq<char>>)>, sec: Seq<char>, i: int)
    requires
        0 <= i,
    ensures
        block_index(b, sec, i) matches Some(k) ==> i <= k < b.len() && b[k].0 == sec,
    decreases b.len() - i,
{
    if i < b.len() && b[i].0 != sec {
        lemma_block_index(b, sec, i + 1);
    }
}

/// The gradient lines a save adds.
spec fn grad_extra(seen_grad: Seq<(bool, int)>, g: Seq<TerminalColor>, h: Seq<TerminalColor>) -> Seq<Seq<char>> {
    missing_grad(g, false, g.len() as int, seen_grad) + missing_grad(h, true, h.len() as int, seen_grad)
}

#[verifier::spinoff_prover]
proof fn lemma_grad_extra(
    seen_grad: Seq<(bool, int)>,
    vals: Seq<IniValue>,
    g: Seq<TerminalColor>,
    h: Seq<TerminalColor>,
)
    requires
        g.len() <= usize::MAX,
        h.len() <= usize::MAX,
    ensures
        forall|sec: Seq<char>| #[trigger] block_fits(grad_extra(seen_grad, g, h), sec, vals, g, h),
        forall|hz: bool, m: int| 1 <= m <= grad_list(hz, g, h).len() && !#[trigger] seen_grad.contains((hz, m))
            ==> exists|l: int| 0 <= l < grad_extra(seen_grad, g, h).len()
                && #[trigger] line_grad(grad_extra(seen_grad, g, h)[l]).contains((hz, m)),
        (forall|hz: bool, m: int| 1 <= m <= grad_list(hz, g, h).len() ==> #[trigger] seen_grad.contains((hz, m)))
            ==> grad_extra(seen_grad, g, h).len() == 0,
{
    lemma_missing_grad(false, g.len() as int, seen_grad, vals, g, h);
    lemma_missing_grad(true, h.len() as int, seen_grad, vals, g, h);
    assert(grad_list(false, g, h) == g && grad_list(true, g, h) == h);
    let a = missing_grad(grad_list(false, g, h), false, g.len() as int, seen_grad);
    let b = missing_grad(grad_list(true, g, h), true, h.len() as int, seen_grad);
    let e = grad_extra(seen_grad, g, h);
    assert(e == a + b);
    assert forall|sec: Seq<char>| #[trigger] block_fits(e, sec, vals, g, h) by {
        assert(block_fits(missing_grad(grad_list(false, g, h), false, g.len() as int, seen_grad), sec, vals, g, h));
        assert(block_fits(missing_grad(grad_list(true, g, h), true, h.len() as int, seen_grad), sec, vals, g, h));
        assert forall|j: int| 0 <= j < e.len() implies #[trigger] line_out(e[j], sec, vals, g, h) == e[j]
            && clean_line(e[j]) && !is_header(trim(e[j])) && eq_line_band(e[j]) is None by {
            if j < a.len() {
                assert(e[j] == a[j]);
                assert(line_out(a[j], sec, vals, g, h) == a[j]);
            } else {
                assert(e[j] == b[j - a.len()]);
                assert(line_out(b[j - a.len()], sec, vals, g, h) == b[j - a.len()]);
            }
        }
    }
    assert forall|hz: bool, m: int| 1 <= m <= grad_list(hz, g, h).len() && !#[trigger] seen_grad.contains((hz, m))
        implies exists|l: int| 0 <= l < e.len() && #[trigger] line_grad(e[l]).contains((hz, m)) by {
        if hz {
            let l = choose|l: int| 0 <= l < b.len() && #[trigger] line_grad(b[l]).contains((true, m));
            assert(e[a.len() + l] == b[l]);
        } else {
            let l = choose|l: int| 0 <= l < a.len() && #[trigger] line_grad(a[l]).contains((false, m));
            assert(e[l] == a[l]);
        }
    }
    if forall|hz: bool, m: int| 1 <= m <= grad_list(hz, g, h).len() ==> #[trigger] seen_grad.contains((hz, m)) {
        assert forall|m: int| 1 <= m <= g.len() implies #[trigger] seen_grad.contains((false, m)) by {
            assert(seen_grad.contains((false, m)));
        }
        assert forall|m: int| 1 <= m <= h.len() implies #[trigger] seen_grad.contains((true, m)) by {
            assert(seen_grad.contains((true, m)));
        }
    }
}

#[verifier::spinoff_prover]
proof fn lemma_blocks_to_add(
    vals: Seq<IniValue>,
    seen: Seq<(Seq<char>, Seq<char>)>,
    sg: Seq<(bool, int)>,
    g: Seq<TerminalColor>,
    h: Seq<TerminalColor>,
)
    requires
        plain_settings(vals),
        g.len() <= usize::MAX,
        h.len() <= usize::MAX,
    ensures
        blocks_fit(blocks_to_add(vals, seen, sg, g, h), vals, g, h),
        forall|jj: int, i: int| #[trigger] needed_key(vals, jj, i) && !seen.contains(key_pair(jj, i))
            ==> exists|kb: int, l: int| 0 <= kb < blocks_to_add(vals, seen, sg, g, h).len()
                && 0 <= l < blocks_to_add(vals, seen, sg, g, h)[kb].1.len()
                && #[trigger] line_seen(blocks_to_add(vals, seen, sg, g, h)[kb].1[l],
                    blocks_to_add(vals, seen, sg, g, h)[kb].0, vals, g, h).contains(key_pair(jj, i)),
        forall|hz: bool, m: int| 1 <= m <= grad_list(hz, g, h).len() && !#[trigger] sg.contains((hz, m))
            ==> exists|kb: int, l: int| 0 <= kb < blocks_to_add(vals, seen, sg, g, h).len()
                && 0 <= l < blocks_to_add(vals, seen, sg, g, h)[kb].1.len()
                && #[trigger] line_grad(blocks_to_add(vals, seen, sg, g, h)[kb].1[l]).contains((hz, m)),
        ((forall|jj: int, i: int| #[trigger] needed_key(vals, jj, i) ==> seen.contains(key_pair(jj, i)))
            && (forall|hz: bool, m: int| 1 <= m <= grad_list(hz, g, h).len() ==> #[trigger] sg.contains((hz, m))))
            ==> blocks_to_add(vals, seen, sg, g, h).len() == 0,
{
    lemma_missing_blocks(5, vals, seen, g, h);
    lemma_grad_extra(sg, vals, g, h);
    lemma_sections_lower(0);
    let b = missing_blocks(5, vals, seen);
    let e = grad_extra(sg, g, h);
    let bb = blocks_to_add(vals, seen, sg, g, h);
    assert forall|jj: int, i: int| #[trigger] needed_key(vals, jj, i) && !seen.contains(key_pair(jj, i))
        implies exists|kb: int, l: int| 0 <= kb < b.len() && 0 <= l < b[kb].1.len()
            && #[trigger] line_seen(b[kb].1[l], b[kb].0, vals, g, h).contains(key_pair(jj, i)) by {
        assert(jj < 5);
    }
    if e.len() == 0 {
        assert(bb == b);
        assert forall|hz: bool, m: int| 1 <= m <= grad_list(hz, g, h).len() && !#[trigger] sg.contains((hz, m))
            implies exists|kb: int, l: int| 0 <= kb < bb.len() && 0 <= l < bb[kb].1.len()
                && #[trigger] line_grad(bb[kb].1[l]).contains((hz, m)) by {
            let l = choose|l: int| 0 <= l < e.len() && #[trigger] line_grad(e[l]).contains((hz, m));
        }
        if forall|jj: int, i: int| #[trigger] needed_key(vals, jj, i) ==> seen.contains(key_pair(jj, i)) {
            assert forall|jj: int, i: int| jj < 5 && #[trigger] needed_key(vals, jj, i) implies seen.contains(key_pair(jj, i)) by {}
        }
    } else {
        lemma_block_index(b, "color"@, 0);
        assert(block_fits(e, "color"@, vals, g, h));
        match block_index(b, "color"@, 0) {
            Some(jx) => {
                assert(bb == b.update(jx, (b[jx].0, b[jx].1 + e)));
                let old_lines = b[jx].1;
                assert(lower_word(b[jx].0) && block_fits(old_lines, b[jx].0, vals, g, h));
                assert forall|k: int| 0 <= k < bb.len() implies lower_word(#[trigger] bb[k].0)
                    && block_fits(bb[k].1, bb[k].0, vals, g, h) by {
                    if k == jx {
                        assert forall|j: int| 0 <= j < bb[k].1.len() implies #[trigger] line_out(bb[k].1[j], bb[k].0, vals, g, h) == bb[k].1[j]
                            && clean_line(bb[k].1[j]) && !is_header(trim(bb[k].1[j])) && eq_line_band(bb[k].1[j]) is None by {
                            if j < old_lines.len() {
                                assert(bb[k].1[j] == old_lines[j]);
                                assert(line_out(old_lines[j], b[jx].0, vals, g, h) == old_lines[j]);
                            } else {
                                assert(bb[k].1[j] == e[j - old_lines.len()]);
                                assert(line_out(e[j - old_lines.len()], "color"@, vals, g, h) == e[j - old_lines.len()]);
                            }
                        }
                    } else {
                        assert(bb[k] == b[k]);
                    }
                }
                assert forall|jj: int, i: int| #[trigger] needed_key(vals, jj, i) && !seen.contains(key_pair(jj, i))
                    implies exists|kb: int, l: int| 0 <= kb < bb.len() && 0 <= l < bb[kb].1.len()
                        && #[trigger] line_seen(bb[kb].1[l], bb[kb].0, vals, g, h).contains(key_pair(jj, i)) by {
                    let (kb, l) = choose|kb: int, l: int| 0 <= kb < b.len() && 0 <= l < b[kb].1.len()
                        && #[trigger] line_seen(b[kb].1[l], b[kb].0, vals, g, h).contains(key_pair(jj, i));
                    if kb == jx {
                        assert(bb[kb].1[l] == b[kb].1[l] && bb[kb].0 == b[kb].0);
                    } else {
                        assert(bb[kb] == b[kb]);
                    }
                }
                assert forall|hz: bool, m: int| 1 <= m <= grad_list(hz, g, h).len() && !#[trigger] sg.contains((hz, m))
                    implies exists|kb: int, l: int| 0 <= kb < bb.len() && 0 <= l < bb[kb].1.len()
                        && #[trigger] line_grad(bb[kb].1[l]).contains((hz, m)) by {
                    let l = choose|l: int| 0 <= l < e.len() && #[trigger] line_grad(e[l]).contains((hz, m));
                    assert(bb[jx].1[old_lines.len() + l] == e[l]);
                }
            },
            None => {
                assert(bb == b.push(("color"@, e)));
                assert forall|k: int| 0 <= k < bb.len() implies lower_word(#[trigger] bb[k].0)
                    && block_fits(bb[k].1, bb[k].0, vals, g, h) by {
                    if k < b.len() {
                        assert(bb[k] == b[k]);
                    }
                }
                assert forall|jj: int, i: int| #[trigger] needed_key(vals, jj, i) && !seen.contains(key_pair(jj, i))
                    implies exists|kb: int, l: int| 0 <= kb < bb.len() && 0 <= l < bb[kb].1.len()
                        && #[trigger] line_seen(bb[kb].1[l], bb[kb].0, vals, g, h).contains(key_pair(jj, i)) by {
                    let (kb, l) = choose|kb: int, l: int| 0 <= kb < b.len() && 0 <= l < b[kb].1.len()
                        && #[trigger] line_seen(b[kb].1[l], b[kb].0, vals, g, h).contains(key_pair(jj, i));
                    assert(bb[kb] == b[kb]);
                }
                assert forall|hz: bool, m: int| 1 <= m <= grad_list(hz, g, h).len() && !#[trigger] sg.contains((hz, m))
                    implies exists|kb: int, l: int| 0 <= kb < bb.len() && 0 <= l < bb[kb].1.len()
                        && #[trigger] line_grad(bb[kb].1[l]).contains((hz, m)) by {
                    let l = choose|l: int| 0 <= l < e.len() && #[trigger] line_grad(e[l]).contains((hz, m));
                    assert(bb[b.len() as int].1[l] == e[l]);
                }
            },
        }
    }
}

#[verifier::spinoff_prover]
proof fn lemma_joined_concat(a: Seq<Seq<char>>, b: Seq<Seq<char>>)
    ensures
        joined(a + b) == joined(a) + joined(b),
    decreases b.len(),
{
    if b.len() == 0 {
        assert(a + b =~= a);
        assert(joined(a) + joined(b) =~= joined(a));
    } else {
        lemma_joined_concat(a, b.drop_last());
        assert((a + b).drop_last() =~= a + b.drop_last());
        assert((a + b).last() == b.last());
        assert(joined(a + b) =~= joined(a) + joined(b));
    }
}

#[verifier::spinoff_prover]
proof fn lemma_newline_shift(pre: Seq<char>, r: Seq<char>, i: int)
    requires
        0 <= i,
    ensures
        newline_at(pre + r, pre.len() + i) == pre.len() + newline_at(r, i),
    decreases r.len() - i,
{
    if i < r.len() && r[i] != '\n' {
        assert((pre + r)[pre.len() + i] == r[i]);
        lemma_newline_shift(pre, r, i + 1);
    } else if i < r.len() {
        assert((pre + r)[pre.len() + i] == r[i]);
    }
}

#[verifier::spinoff_prover]
proof fn lemma_newline_bounds(s: Seq<char>, i: int)
    requires
        0 <= i <= s.len(),
    ensures
        i <= newline_at(s, i) <= s.len(),
        newline_at(s, i) < s.len() ==> s[newline_at(s, i)] == '\n',
        forall|j: int| i <= j < newline_at(s, i) ==> #[trigger] s[j] != '\n',
    decreases s.len() - i,
{
    if i < s.len() && s[i] != '\n' {
        lemma_newline_bounds(s, i + 1);
    }
}

#[verifier::spinoff_prover]
proof fn lemma_lines_shift(pre: Seq<char>, r: Seq<char>, i: int)
    requires
        0 <= i,
    ensures
        lines_from(pre + r, pre.len() + i) == lines_from(r, i),
    decreases r.len() + 1 - i,
{
    let s = pre + r;
    if i < r.len() {
        lemma_newline_shift(pre, r, i);
        lemma_newline_bounds(r, i);
        let k = newline_at(r, i);
        assert(s.subrange(pre.len() + i, pre.len() + k) =~= r.subrange(i, k));
        lemma_lines_shift(pre, r, k + 1);
        assert(pre.len() + k + 1 == pre.len() + (k + 1));
    }
}

#[verifier::spinoff_prover]
proof fn lemma_lines_joined(ls: Seq<Seq<char>>)
    requires
        forall|i: int| 0 <= i < ls.len() ==> clean_line(#[trigger] ls[i]),
    ensures
        lines(joined(ls)) == ls,
    decreases ls.len(),
{
    if ls.len() > 0 {
        let x = ls[0];
        let rest = ls.drop_first();
        assert(ls =~= seq![x] + rest);
        lemma_joined_concat(seq![x], rest);
        assert(seq![x].drop_last() =~= Seq::<Seq<char>>::empty());
        assert(joined(Seq::<Seq<char>>::empty()) == Seq::<char>::empty());
        assert(joined(seq![x]) == joined(Seq::<Seq<char>>::empty()) + x + seq!['\n']);
        assert(joined(seq![x]) =~= x + seq!['\n']);
        let pre = x + seq!['\n'];
        let s = joined(ls);
        assert(s == pre + joined(rest));
        assert forall|i: int| 0 <= i < rest.len() implies clean_line(#[trigger] rest[i]) by {
            assert(rest[i] == ls[i + 1]);
        }
        lemma_lines_joined(rest);
        assert(clean_line(ls[0]));
        assert(s[x.len() as int] == '\n');
        lemma_newline_bounds(s, 0);
        assert forall|j: int| 0 <= j < x.len() implies #[trigger] s[j] != '\n' by {
            assert(s[j] == x[j]);
        }
        assert(newline_at(s, 0) == x.len()) by {
            if newline_at(s, 0) < x.len() {
                assert(s[newline_at(s, 0)] != '\n');
            }
        }
        assert(s.subrange(0, x.len() as int) =~= x);
        assert(chop_cr(x, true) == x);
        lemma_lines_shift(pre, joined(rest), 0);
        assert(lines_from(s, x.len() + 1int) == lines_from(joined(rest), 0));
        assert(lines(s) =~= seq![x] + rest);
    }
}

#[verifier::spinoff_prover]
proof fn lemma_lines_no_newline(s: Seq<char>, i: int)
    requires
        0 <= i,
    ensures
        forall|j: int| 0 <= j < lines_from(s, i).len() ==> no_newline(#[trigger] lines_from(s, i)[j]),
    decreases s.len() + 1 - i,
{
    if i < s.len() {
        lemma_newline_bounds(s, i);
        let k = newline_at(s, i);
        lemma_lines_no_newline(s, k + 1);
        let first = chop_cr(s.subrange(i, k), k < s.len());
        assert(no_newline(first)) by {
            assert forall|j: int| 0 <= j < first.len() implies #[trigger] first[j] != '\n' by {
                assert(first[j] == s[i + j]);
            }
        }
        assert forall|j: int| 0 <= j < lines_from(s, i).len() implies no_newline(#[trigger] lines_from(s, i)[j]) by {
            if j > 0 {
                assert(lines_from(s, i)[j] == lines_from(s, k + 1)[j - 1]);
            }
        }
    }
}

#[verifier::spinoff_prover]
proof fn lemma_sections_same(a: Seq<Seq<char>>, b: Seq<Seq<char>>, n: int)
    requires
        a.len() == b.len(),
        0 <= n <= a.len(),
        forall|i: int| 0 <= i < a.len() ==> (is_header(trim(#[trigger] b[i])) == is_header(trim(a[i])))
            && (is_header(trim(a[i])) ==> b[i] == a[i]),
    ensures
        section_after(b, n) == section_after(a, n),
    decreases n,
{
    if n > 0 {
        lemma_sections_same(a, b, n - 1);
        assert(is_header(trim(b[n - 1])) == is_header(trim(a[n - 1])));
    }
}

/// The first pass writes stable lines that record everything it saw.
#[verifier::spinoff_prover]
proof fn lemma_first_pass(ls: Seq<Seq<char>>, vals: Seq<IniValue>, g: Seq<TerminalColor>, h: Seq<TerminalColor>)
    requires
        plain_settings(vals),
        forall|i: int| 0 <= i < ls.len() ==> clean_line(#[trigger] ls[i]),
        comments_kept(ls, vals),
    ensures
        stable_lines(in_place(ls, ls.len() as int, vals, g, h).out, vals, g, h),
        forall|q: (Seq<char>, Seq<char>)| #[trigger] in_place(ls, ls.len() as int, vals, g, h).seen.contains(q)
            ==> has_key(in_place(ls, ls.len() as int, vals, g, h).out, q, vals, g, h),
        forall|q: (bool, int)| #[trigger] in_place(ls, ls.len() as int, vals, g, h).seen_grad.contains(q)
            ==> has_grad(in_place(ls, ls.len() as int, vals, g, h).out, q),
{
    let n = ls.len() as int;
    lemma_fold_out(ls, n, vals, g, h);
    lemma_fold_seen(ls, n, vals, g, h);
    lemma_fold_grad(ls, n, vals, g, h);
    let p = in_place(ls, n, vals, g, h);
    let out = p.out;
    assert forall|i: int| 0 <= i < n implies (is_header(trim(#[trigger] out[i])) == is_header(trim(ls[i])))
        && (is_header(trim(ls[i])) ==> out[i] == ls[i]) by {
        assert(out[i] == line_out(ls[i], section_after(ls, i), vals, g, h));
        assert(comment_kept(ls[i], section_after(ls, i), vals));
        lemma_line_fixed(ls[i], section_after(ls, i), vals, g, h);
    }
    assert forall|i: int| 0 <= i < n implies #[trigger] line_out(out[i], section_after(out, i), vals, g, h) == out[i]
        && clean_line(out[i]) && line_seen(out[i], section_after(out, i), vals, g, h) == line_seen(ls[i], section_after(ls, i), vals, g, h)
        && line_grad(out[i]) == line_grad(ls[i]) by {
        assert(out[i] == line_out(ls[i], section_after(ls, i), vals, g, h));
        assert(comment_kept(ls[i], section_after(ls, i), vals));
        lemma_line_fixed(ls[i], section_after(ls, i), vals, g, h);
        lemma_sections_same(ls, out, i);
        assert(clean_line(ls[i]));
    }
    assert forall|q: (Seq<char>, Seq<char>)| #[trigger] p.seen.contains(q) implies has_key(out, q, vals, g, h) by {
        let i = choose|i: int| 0 <= i < n && #[trigger] line_seen(ls[i], section_after(ls, i), vals, g, h).contains(q);
        assert(line_out(out[i], section_after(out, i), vals, g, h) == out[i]);
        assert(line_seen(out[i], section_after(out, i), vals, g, h).contains(q));
    }
    assert forall|q: (bool, int)| #[trigger] p.seen_grad.contains(q) implies has_grad(out, q) by {
        let i = choose|i: int| 0 <= i < n && #[trigger] line_grad(ls[i]).contains(q);
        assert(line_out(out[i], section_after(out, i), vals, g, h) == out[i]);
        assert(line_grad(out[i]).contains(q));
    }
}

/// A line that ends in a carriage return.
pub open spec fn ends_in_cr(l: Seq<char>) -> bool {
    l.len() > 0 && l.last() == '\r'
}

/// The lines of a saved text: each written back as itself in its section,
/// every key with a value and every gradient entry recorded by some line,
/// and joined back into the same text.
#[verifier::spinoff_prover]
proof fn lemma_saved_lines(
    old_text: Seq<char>,
    vals: Seq<IniValue>,
    g: Seq<TerminalColor>,
    h: Seq<TerminalColor>,
    es: Seq<EqValue>,
)
    requires
        plain_settings(vals),
        plain_eq(es),
        g.len() <= usize::MAX,
        h.len() <= usize::MAX,
        forall|i: int| 0 <= i < lines(old_text).len() ==> !ends_in_cr(#[trigger] lines(old_text)[i]),
        comments_kept(lines(old_text), vals),
    ensures
        stable_lines(lines(rewritten_ini(old_text, vals, g, h, es)), vals, g, h),
        file_body(lines(rewritten_ini(old_text, vals, g, h, es))) == rewritten_ini(old_text, vals, g, h, es),
        forall|jj: int, i: int| #[trigger] needed_key(vals, jj, i)
            ==> has_key(lines(rewritten_ini(old_text, vals, g, h, es)), key_pair(jj, i), vals, g, h),
        forall|hz: bool, mm: int| 1 <= mm <= grad_list(hz, g, h).len()
            ==> #[trigger] has_grad(lines(rewritten_ini(old_text, vals, g, h, es)), (hz, mm)),
        eq_ready(lines(rewritten_ini(old_text, vals, g, h, es)), es),
{
    let l0 = lines(old_text);
    lemma_lines_no_newline(old_text, 0);
    assert forall|i: int| 0 <= i < l0.len() implies clean_line(#[trigger] l0[i]) by {
        assert(!ends_in_cr(l0[i]));
    }
    let p1 = in_place(l0, l0.len() as int, vals, g, h);
    lemma_first_pass(l0, vals, g, h);
    let out1 = p1.out;
    let b1 = blocks_to_add(vals, p1.seen, p1.seen_grad, g, h);
    lemma_blocks_to_add(vals, p1.seen, p1.seen_grad, g, h);
    lemma_eq_first(out1, es, vals, g, h);
    let w1 = with_eq(out1, es);
    let m = merge_blocks(w1, b1, b1.len() as int);
    lemma_merge_blocks(w1, b1, b1.len() as int, vals, g, h);
    lemma_merge_blocks_eq(w1, b1, b1.len() as int, es, vals, g, h);
    let f1 = file_body(m);
    assert(rewritten_ini(old_text, vals, g, h, es) == f1);
    assert forall|jj: int, i: int| #[trigger] needed_key(vals, jj, i) implies has_key(m, key_pair(jj, i), vals, g, h) by {
        if p1.seen.contains(key_pair(jj, i)) {
            assert(has_key(out1, key_pair(jj, i), vals, g, h));
            assert(has_key(w1, key_pair(jj, i), vals, g, h));
        } else {
            let (kb, l) = choose|kb: int, l: int| 0 <= kb < b1.len() && 0 <= l < b1[kb].1.len()
                && #[trigger] line_seen(b1[kb].1[l], b1[kb].0, vals, g, h).contains(key_pair(jj, i));
        }
    }
    assert forall|hz: bool, mm: int| 1 <= mm <= grad_list(hz, g, h).len() implies #[trigger] has_grad(m, (hz, mm)) by {
        if p1.seen_grad.contains((hz, mm)) {
            assert(has_grad(out1, (hz, mm)));
            assert(has_grad(w1, (hz, mm)));
        } else {
            let (kb, l) = choose|kb: int, l: int| 0 <= kb < b1.len() && 0 <= l < b1[kb].1.len()
                && #[trigger] line_grad(b1[kb].1[l]).contains((hz, mm));
        }
    }
    let l2 = lines(f1);
    if m.len() > 0 {
        assert forall|i: int| 0 <= i < m.len() implies clean_line(#[trigger] m[i]) by {
            assert(line_out(m[i], section_after(m, i), vals, g, h) == m[i]);
        }
        lemma_lines_joined(m);
        assert(l2 == m);
    } else {
        let e = Seq::<char>::empty();
        assert(f1 == seq!['\n']);
        assert(newline_at(f1, 0) == 0);
        assert(f1.subrange(0, 0) =~= e);
        assert(lines_from(f1, 1) == Seq::<Seq<char>>::empty());
        assert(l2 =~= seq![e]);
        assert(trim(e) =~= e);
        lemma_kept_line(e, section_after(l2, 0), vals, g, h);
        assert(joined(Seq::<Seq<char>>::empty()) == Seq::<char>::empty());
        assert(joined(l2) == joined(l2.drop_last()) + l2.last() + seq!['\n']);
        assert(l2.drop_last() =~= Seq::<Seq<char>>::empty());
        assert(file_body(l2) =~= f1);
        assert forall|jj: int, i: int| #[trigger] needed_key(vals, jj, i) implies has_key(l2, key_pair(jj, i), vals, g, h) by {
            assert(has_key(m, key_pair(jj, i), vals, g, h));
        }
        assert forall|hz: bool, mm: int| 1 <= mm <= grad_list(hz, g, h).len() implies #[trigger] has_grad(l2, (hz, mm)) by {
            assert(has_grad(m, (hz, mm)));
        }
        lemma_header_from(m, 0);
        assert(es.len() == 0);
        assert forall|i: int| 0 <= i < l2.len() implies #[trigger] eq_rewrite_line(es, l2[i]) == l2[i] by {
            assert(l2[i] == e);
        }
    }
}

/// Saving is stable: writing the same settings and equalizer entries into
/// a text that a save produced gives that text back unchanged. The
/// settings have plain keys and values that a save writes back in place
/// (empty and quoted values included), the equalizer entries name each band
/// once with plain gains, and the gradient lists are indexed within
/// `usize`. Left out are the texts on which a second save does change what
/// the first wrote: a line of the first text ending in a stray carriage
/// return, and a trailing comment kept after a value that does not carry
/// it (an empty value, or one that leaves a quote open), which the second
/// save would drop.
#[verifier::spinoff_prover]
pub proof fn lemma_save_is_stable(
    old_text: Seq<char>,
    vals: Seq<IniValue>,
    g: Seq<TerminalColor>,
    h: Seq<TerminalColor>,
    es: Seq<EqValue>,
)
    requires
        plain_settings(vals),
        plain_eq(es),
        g.len() <= usize::MAX,
        h.len() <= usize::MAX,
        forall|i: int| 0 <= i < lines(old_text).len() ==> !ends_in_cr(#[trigger] lines(old_text)[i]),
        comments_kept(lines(old_text), vals),
    ensures
        rewritten_ini(rewritten_ini(old_text, vals, g, h, es), vals, g, h, es)
            == rewritten_ini(old_text, vals, g, h, es),
{
    let f1 = rewritten_ini(old_text, vals, g, h, es);
    lemma_saved_lines(old_text, vals, g, h, es);
    let l2 = lines(f1);
    let n2 = l2.len() as int;
    lemma_fold_out(l2, n2, vals, g, h);
    lemma_fold_seen(l2, n2, vals, g, h);
    lemma_fold_grad(l2, n2, vals, g, h);
    let p2 = in_place(l2, n2, vals, g, h);
    assert forall|i: int| 0 <= i < n2 implies #[trigger] p2.out[i] == l2[i] by {
        assert(line_out(l2[i], section_after(l2, i), vals, g, h) == l2[i]);
    }
    assert(p2.out =~= l2);
    assert forall|jj: int, i: int| #[trigger] needed_key(vals, jj, i) implies p2.seen.contains(key_pair(jj, i)) by {
        assert(has_key(l2, key_pair(jj, i), vals, g, h));
        let k = choose|k: int| 0 <= k < l2.len() && #[trigger] line_seen(l2[k], section_after(l2, k), vals, g, h).contains(key_pair(jj, i));
    }
    assert forall|hz: bool, mm: int| 1 <= mm <= grad_list(hz, g, h).len() implies #[trigger] p2.seen_grad.contains((hz, mm)) by {
        assert(has_grad(l2, (hz, mm)));
        let k = choose|k: int| 0 <= k < l2.len() && #[trigger] line_grad(l2[k]).contains((hz, mm));
    }
    lemma_blocks_to_add(vals, p2.seen, p2.seen_grad, g, h);
    let b2 = blocks_to_add(vals, p2.seen, p2.seen_grad, g, h);
    assert(b2.len() == 0);
    lemma_eq_again(l2, es);
    assert(with_eq(p2.out, es) == l2);
    assert(merge_blocks(l2, b2, 0) == l2);
    assert(rewritten_ini(f1, vals, g, h, es) == file_body(l2));
}

/// What the reader makes of value text `v` for `key` in `section`: the
/// setting it stands for, with that text.
pub open spec fn read_entry(section: Seq<char>, key: Seq<char>, v: Seq<char>) -> Option<(IniSetting, Seq<char>)> {
    match ini_setting(section, key, v) {
        Some(st) => Some((st, v)),
        None => None,
    }
}

#[verifier::spinoff_prover]
proof fn lemma_cut_comment(t: Seq<char>, p: int, m: int, j: int)
    requires
        1 <= m,
        0 <= j <= m,
        p + m < t.len(),
        t[p + m] == '#' || t[p + m] == ';',
        forall|k: int| p <= k < p + m ==> is_ascii_ws(#[trigger] t[k]),
        0 <= p,
    ensures
        comment_cut(t, p + j, None) == p + m,
    decreases m - j,
{
    if j < m {
        lemma_cut_comment(t, p, m, j + 1);
    } else {
        assert(is_ascii_ws(t[p + m - 1]));
    }
}

#[verifier::spinoff_prover]
proof fn lemma_back_run_ws(v: Seq<char>, w: Seq<char>)
    requires
        v.len() > 0,
        !is_ws(v.last()),
        forall|k: int| 0 <= k < w.len() ==> is_ws(#[trigger] w[k]),
    ensures
        back_run(v + w, Strip::Ws) == w.len(),
    decreases w.len(),
{
    if w.len() == 0 {
        assert(v + w =~= v);
    } else {
        let a = v + w;
        assert(a.drop_last() =~= v + w.drop_last());
        assert(a.last() == w.last());
        lemma_back_run_ws(v, w.drop_last());
    }
}

#[verifier::spinoff_prover]
proof fn lemma_trim_trailing_ws(v: Seq<char>, w: Seq<char>)
    requires
        v.len() > 0,
        !is_ws(v[0]),
        !is_ws(v.last()),
        forall|k: int| 0 <= k < w.len() ==> is_ws(#[trigger] w[k]),
    ensures
        trim(v + w) == v,
{
    let a = v + w;
    lemma_back_run_ws(v, w);
    assert(a[0] == v[0]);
    assert(front_run(a, Strip::Ws) == 0);
    assert(a.skip(0) =~= a);
    assert(a.take(a.len() - w.len()) =~= v);
}

/// The reader takes a written value back as it was written.
#[verifier::spinoff_prover]
proof fn lemma_value_reads_back(v: Seq<char>, s: Seq<char>)
    requires
        v.len() > 0,
        saved_value(v),
        reads_back(v),
        suffix_shape(s),
        s.len() > 0 ==> carries_comment(v),
    ensures
        ini_value(seq![' '] + v + s) == v,
{
    let raw = seq![' '] + v + s;
    let t = v + s;
    lemma_front_run(raw);
    assert(front_run(raw, Strip::Ws) == 1) by {
        assert(raw.drop_first() =~= t);
        assert(t[0] == v[0]);
    }
    assert(raw.skip(1) =~= t);
    assert(t.last() == (if s.len() > 0 { s.last() } else { v.last() }));
    assert(back_run(t, Strip::Ws) == 0);
    assert(trim(raw) =~= t);
    lemma_read_split(v, s, 0, None);
    let w: Seq<char> = if s.len() == 0 {
        assert(t =~= v);
        assert(comment_cut(t, v.len() as int, read_scan(v, 0, None)->0) == t.len());
        Seq::empty()
    } else {
        lemma_scans_agree(v, 0, None, false);
        let a = seq![' '] + v;
        assert(a[0] == ' ');
        assert(write_scan(a, 0, None, false) == write_scan(a, 1, None, false));
        assert(read_scan(v, 0, None)->0 is None);
        let m = choose|m: int|
            #![trigger s[m]]
            1 <= m < s.len() && (s[m] == '#' || s[m] == ';') && forall|j: int| 0 <= j < m ==> is_ascii_ws(#[trigger] s[j]);
        assert(t[v.len() + m] == s[m]);
        assert forall|k: int| v.len() <= k < v.len() + m implies is_ascii_ws(#[trigger] t[k]) by {
            assert(t[k] == s[k - v.len()]);
        }
        lemma_cut_comment(t, v.len() as int, m, 0);
        s.take(m)
    };
    assert(t.take(comment_cut(t, 0, None)) =~= v + w);
    assert forall|k: int| 0 <= k < w.len() implies is_ws(#[trigger] w[k]) by {
        lemma_ascii_ws_is_ws(w[k]);
    }
    lemma_trim_trailing_ws(v, w);
    lemma_trim_keeps(v);
    lemma_clean_keeps(v);
    assert(clean_color_text(v + w) == clean_color_text(v));
}

/// The reader takes an empty raw value as the empty value.
#[verifier::spinoff_prover]
proof fn lemma_empty_value()
    ensures
        ini_value(Seq::<char>::empty()) == Seq::<char>::empty(),
{
    let e = Seq::<char>::empty();
    assert(front_run(e, Strip::Ws) == 0);
    assert(back_run(e, Strip::Ws) == 0);
    assert(e.skip(0) =~= e);
    assert(e.take(0) =~= e);
    assert(trim(e) =~= e);
    assert(comment_cut(e, 0, None) == 0);
    assert(front_run(e, Strip::Ch('\'')) == 0);
    assert(back_run(e, Strip::Ch('\'')) == 0);
    assert(front_run(e, Strip::Ch('"')) == 0);
    assert(back_run(e, Strip::Ch('"')) == 0);
    assert(clean_color_text(e) =~= e);
}

/// A line that records a key was read in its section with that key.
#[verifier::spinoff_prover]
proof fn lemma_seen_line(
    x: Seq<char>,
    sec: Seq<char>,
    q: (Seq<char>, Seq<char>),
    vals: Seq<IniValue>,
    g: Seq<TerminalColor>,
    h: Seq<TerminalColor>,
)
    requires
        line_seen(x, sec, vals, g, h).contains(q),
    ensures
        holds_setting(trim(x)),
        q == (sec, setting_key(trim(x))),
        value_for(vals, sec, setting_key(trim(x))) is Some,
{
    reveal(line_seen);
}

/// A stable line holding a key that has a value reads back as that value.
#[verifier::spinoff_prover]
proof fn lemma_line_reads_back(
    x: Seq<char>,
    sec: Seq<char>,
    vals: Seq<IniValue>,
    g: Seq<TerminalColor>,
    h: Seq<TerminalColor>,
)
    requires
        plain_settings(vals),
        forall|i: int| 0 <= i < vals.len() ==> reads_back(#[trigger] vals[i].value@),
        line_out(x, sec, vals, g, h) == x,
        holds_setting(trim(x)),
        value_for(vals, sec, setting_key(trim(x))) is Some,
    ensures
        line_entry(sec, trim(x)) == read_entry(sec, setting_key(trim(x)), value_for(vals, sec, setting_key(trim(x)))->0),
{
    reveal(line_out);
    let t = trim(x);
    let key = setting_key(t);
    let v = value_for(vals, sec, key)->0;
    lemma_value_from_found(vals, 0, sec, key);
    let j = choose|j: int| 0 <= j < vals.len() && #[trigger] vals[j].key@ == key && vals[j].value@ == v;
    assert(plain_key(vals[j].key@) && saved_value(vals[j].value@) && reads_back(vals[j].value@));
    assert(!colour_line(key, g, h));
    let s = comment_suffix(raw_of(t));
    lemma_suffix_shape(raw_of(t));
    assert(x == key + " = "@ + v + s);
    if s.len() > 0 {
        assert(x.last() == s.last());
        lemma_line_shape(key, v, s);
        lemma_carried_when_found(v, s);
    }
    lemma_setting_reads_back(key, v, s);
    if v.len() > 0 {
        lemma_value_reads_back(v, s);
        assert(t == x);
    } else {
        lemma_empty_value();
        assert(v =~= Seq::<char>::empty());
        assert(raw_of(t) =~= Seq::<char>::empty());
        assert(ini_value(raw_of(t)) == v);
    }
}

/// Reading a saved text gives back what was written: every line that holds
/// a key with a value in its section reads as that value (no stale value
/// survives a save), and every key of the known sections that has a value
/// stands in its section and reads as that value. The settings have plain
/// keys and values that a save writes back in place and the reader takes
/// back as written (empty values included); the other conditions are those
/// of [`lemma_save_is_stable`].
#[verifier::spinoff_prover]
pub proof fn lemma_saved_values_read_back(
    old_text: Seq<char>,
    vals: Seq<IniValue>,
    g: Seq<TerminalColor>,
    h: Seq<TerminalColor>,
)
    requires
        plain_settings(vals),
        forall|i: int| 0 <= i < vals.len() ==> reads_back(#[trigger] vals[i].value@),
        g.len() <= usize::MAX,
        h.len() <= usize::MAX,
        forall|i: int| 0 <= i < lines(old_text).len() ==> !ends_in_cr(#[trigger] lines(old_text)[i]),
        comments_kept(lines(old_text), vals),
    ensures
        ({
            let ls = lines(rewritten_ini(old_text, vals, g, h, Seq::empty()));
            &&& forall|p: int| 0 <= p < ls.len() && holds_setting(trim(ls[p]))
                && #[trigger] value_for(vals, section_after(ls, p), setting_key(trim(ls[p]))) is Some
                ==> line_entry(section_after(ls, p), trim(ls[p])) == read_entry(section_after(ls, p),
                    setting_key(trim(ls[p])), value_for(vals, section_after(ls, p), setting_key(trim(ls[p])))->0)
            &&& forall|jj: int, i: int| 0 <= jj < 5 && 0 <= i < order_keys(jj).len()
                && #[trigger] value_for(vals, order_section(jj), order_keys(jj)[i]) is Some
                ==> exists|p: int| 0 <= p < ls.len() && section_after(ls, p) == order_section(jj)
                    && #[trigger] line_entry(order_section(jj), trim(ls[p])) == read_entry(order_section(jj),
                    order_keys(jj)[i], value_for(vals, order_section(jj), order_keys(jj)[i])->0)
        }),
{
    lemma_saved_lines(old_text, vals, g, h, Seq::empty());
    let ls = lines(rewritten_ini(old_text, vals, g, h, Seq::empty()));
    assert forall|p: int| 0 <= p < ls.len() && holds_setting(trim(ls[p]))
        && #[trigger] value_for(vals, section_after(ls, p), setting_key(trim(ls[p]))) is Some
        implies line_entry(section_after(ls, p), trim(ls[p])) == read_entry(section_after(ls, p),
            setting_key(trim(ls[p])), value_for(vals, section_after(ls, p), setting_key(trim(ls[p])))->0) by {
        assert(line_out(ls[p], section_after(ls, p), vals, g, h) == ls[p]);
        lemma_line_reads_back(ls[p], section_after(ls, p), vals, g, h);
    }
    assert forall|jj: int, i: int| 0 <= jj < 5 && 0 <= i < order_keys(jj).len()
        && #[trigger] value_for(vals, order_section(jj), order_keys(jj)[i]) is Some
        implies exists|p: int| 0 <= p < ls.len() && section_after(ls, p) == order_section(jj)
            && #[trigger] line_entry(order_section(jj), trim(ls[p])) == read_entry(order_section(jj),
            order_keys(jj)[i], value_for(vals, order_section(jj), order_keys(jj)[i])->0) by {
        assert(needed_key(vals, jj, i));
        assert(has_key(ls, key_pair(jj, i), vals, g, h));
        let p = choose|p: int| 0 <= p < ls.len()
            && #[trigger] line_seen(ls[p], section_after(ls, p), vals, g, h).contains(key_pair(jj, i));
        lemma_seen_line(ls[p], section_after(ls, p), key_pair(jj, i), vals, g, h);
        assert(line_out(ls[p], section_after(ls, p), vals, g, h) == ls[p]);
        lemma_line_reads_back(ls[p], section_after(ls, p), vals, g, h);
    }
}

/// Equalizer entries a save writes so that they read back the same: each
/// band once, each gain a plain value.
pub open spec fn plain_eq(es: Seq<EqValue>) -> bool {
    &&& forall|i: int| 0 <= i < es.len() ==> plain_value(#[trigger] es[i].value@)
    &&& forall|i: int, j: int| 0 <= i < j < es.len() ==> #[trigger] es[i].band != #[trigger] es[j].band
}

/// Every line is its own equalizer rewrite.
spec fn eq_fixed(ls: Seq<Seq<char>>, es: Seq<EqValue>) -> bool {
    forall|i: int| 0 <= i < ls.len() ==> #[trigger] eq_rewrite_line(es, ls[i]) == ls[i]
}

/// Every band of `es` is set by some line, and an `[eq]` header is there
/// when there are entries.
spec fn eq_ready(ls: Seq<Seq<char>>, es: Seq<EqValue>) -> bool {
    &&& eq_fixed(ls, es)
    &&& forall|k: int| 0 <= k < es.len() ==> band_in(ls, #[trigger] es[k].band as int)
    &&& es.len() > 0 ==> eq_header_from(ls, 0) is Some
}

/// The band a written `key = value` line sets: the key read as a number.
#[verifier::spinoff_prover]
proof fn lemma_line_band(key: Seq<char>, v: Seq<char>, s: Seq<char>)
    requires
        key.len() > 0,
        key[0] != '#' && key[0] != ';' && key[0] != '[',
        forall|i: int| 0 <= i < key.len() ==> !is_ws(#[trigger] key[i]) && key[i] != '=',
        lower(key) == key,
        saved_value(v),
        suffix_shape(s),
        s.len() > 0 ==> carries_comment(v),
    ensures
        eq_line_band(key + " = "@ + v + s) == (match parse_uint(key, usize::MAX as nat) {
            Some(n) => Some(n as int),
            None => None,
        }),
{
    reveal(eq_line_band);
    lemma_setting_reads_back(key, v, s);
}

/// A line holding no `=`, or a header, sets no band.
#[verifier::spinoff_prover]
proof fn lemma_no_band(l: Seq<char>)
    requires
        first_eq(trim(l)) is None || (trim(l).len() > 0 && trim(l)[0] == '['),
    ensures
        eq_line_band(l) is None,
        forall|es: Seq<EqValue>| #[trigger] eq_rewrite_line(es, l) == l,
{
    reveal(eq_line_band);
}

/// Digits (with an optional leading `+`) are their own lower case and start
/// with neither `g` nor `h`.
#[verifier::spinoff_prover]
proof fn lemma_number_text(u: Seq<char>)
    requires
        uint_value(u) is Some,
    ensures
        lower(u) == u,
        u.len() > 0,
        u[0] != 'g' && u[0] != 'h',
        gradient_key(u) is None,
{
    let d = unsigned_digits(u);
    lemma_lower_idem(u);
    assert forall|i: int| 0 <= i < u.len() implies #[trigger] lower(u)[i] == u[i] by {
        if u.len() > 0 && u[0] == '+' {
            if i > 0 {
                assert(u[i] == d[i - 1]);
                assert(is_digit(d[i - 1]));
            }
        } else {
            assert(u[i] == d[i]);
            assert(is_digit(d[i]));
        }
    }
    assert(lower(u) =~= u);
    if u[0] != '+' {
        assert(u[0] == d[0]);
        assert(is_digit(d[0]));
    }
    if gradient_key(u) is Some {
        lemma_gradient_key_chars(u);
    }
}

/// An equalizer line reads back as its band, is written back as itself in
/// any section, and is a clean, non-header line.
#[verifier::spinoff_prover]
proof fn lemma_eq_line(
    b: int,
    v: Seq<char>,
    sec: Seq<char>,
    vals: Seq<IniValue>,
    g: Seq<TerminalColor>,
    h: Seq<TerminalColor>,
)
    requires
        0 <= b <= usize::MAX,
        plain_value(v),
        plain_settings(vals),
    ensures
        eq_line_band(eq_line(b, v)) == Some(b),
        line_out(eq_line(b, v), sec, vals, g, h) == eq_line(b, v),
        clean_line(eq_line(b, v)),
        !is_header(trim(eq_line(b, v))),
        line_seen(eq_line(b, v), sec, vals, g, h).len() == 0,
        line_grad(eq_line(b, v)).len() == 0,
{
    reveal(line_out);
    reveal(line_seen);
    reveal(line_grad);
    let k = dec(b as nat);
    lemma_dec(b as nat);
    lemma_parse_dec(b as nat);
    assert forall|i: int| 0 <= i < k.len() implies !is_ws(#[trigger] k[i]) && k[i] != '=' by {
        assert(is_digit(k[i]));
    }
    assert(is_digit(k[0]));
    lemma_number_text(k);
    let y = eq_line(b, v);
    assert(y =~= k + " = "@ + v + Seq::<char>::empty());
    lemma_plain_saved(v);
    lemma_written_line(k, v, Seq::empty());
    lemma_line_band(k, v, Seq::empty());
    if value_for(vals, sec, k) is Some {
        lemma_value_from_found(vals, 0, sec, k);
        let j = choose|j: int| 0 <= j < vals.len() && #[trigger] vals[j].key@ == k
            && vals[j].value@ == value_for(vals, sec, k)->0;
        assert(plain_key(vals[j].key@));
    }
}

/// The gain `eq_value_from` finds is one of the entries'.
#[verifier::spinoff_prover]
proof fn lemma_eq_value_found(es: Seq<EqValue>, i: int, b: int)
    requires
        eq_value_from(es, i, b) is Some,
    ensures
        exists|k: int| 0 <= k < es.len() && #[trigger] es[k].band == b && es[k].value@ == eq_value_from(es, i, b)->0,
    decreases es.len() - i,
{
    if i >= 0 && i < es.len() && es[i].band != b {
        lemma_eq_value_found(es, i + 1, b);
    }
}

/// With each band once, an entry's band finds that entry's gain.
#[verifier::spinoff_prover]
proof fn lemma_eq_value_of_entry(es: Seq<EqValue>, i: int, k: int)
    requires
        plain_eq(es),
        0 <= i <= k < es.len(),
    ensures
        eq_value_from(es, i, es[k].band as int) == Some(es[k].value@),
    decreases k - i,
{
    if i < k {
        assert(es[i].band != es[k].band);
        lemma_eq_value_of_entry(es, i + 1, k);
    }
}

/// Rewriting a stable line for the equalizer keeps it stable and clean,
/// keeps header lines, never touches a line that records a key or a
/// gradient entry, keeps the band, and is its own rewrite afterwards.
#[verifier::spinoff_prover]
proof fn lemma_eq_rewrite(
    x: Seq<char>,
    sec: Seq<char>,
    es: Seq<EqValue>,
    vals: Seq<IniValue>,
    g: Seq<TerminalColor>,
    h: Seq<TerminalColor>,
)
    requires
        plain_settings(vals),
        plain_eq(es),
        line_out(x, sec, vals, g, h) == x,
        clean_line(x),
    ensures
        line_out(eq_rewrite_line(es, x), sec, vals, g, h) == eq_rewrite_line(es, x),
        clean_line(eq_rewrite_line(es, x)),
        is_header(trim(eq_rewrite_line(es, x))) == is_header(trim(x)),
        is_header(trim(x)) ==> eq_rewrite_line(es, x) == x,
        eq_rewrite_line(es, x) != x ==> line_seen(x, sec, vals, g, h).len() == 0 && line_grad(x).len() == 0,
        eq_rewrite_line(es, eq_rewrite_line(es, x)) == eq_rewrite_line(es, x),
        eq_line_band(x) matches Some(bb) ==> eq_line_band(eq_rewrite_line(es, x)) == Some(bb),
{
    match eq_line_band(x) {
        Some(bb) => {
            match eq_value_from(es, 0, bb) {
                Some(v) => {
                    lemma_eq_value_found(es, 0, bb);
                    let k = choose|k: int| 0 <= k < es.len() && #[trigger] es[k].band == bb && es[k].value@ == v;
                    assert(plain_value(es[k].value@));
                    lemma_eq_line(bb, v, sec, vals, g, h);
                    let t = trim(x);
                    reveal(eq_line_band);
                    let e = first_eq(t)->0;
                    let u = trim(t.take(e));
                    assert(parse_uint(u, usize::MAX as nat) is Some);
                    lemma_number_text(u);
                    assert(setting_key(t) == u);
                    reveal(line_seen);
                    reveal(line_grad);
                    if value_for(vals, sec, u) is Some {
                        lemma_value_from_found(vals, 0, sec, u);
                        let j = choose|j: int| 0 <= j < vals.len() && #[trigger] vals[j].key@ == u
                            && vals[j].value@ == value_for(vals, sec, u)->0;
                        assert(plain_key(vals[j].key@));
                    }
                },
                None => {},
            }
        },
        None => {},
    }
}

#[verifier::spinoff_prover]
proof fn lemma_eq_pending(es: Seq<EqValue>, n: int, ls: Seq<Seq<char>>)
    requires
        0 <= n <= es.len(),
    ensures
        forall|j: int| 0 <= j < eq_pending(es, n, ls).len() ==> es.contains(#[trigger] eq_pending(es, n, ls)[j]),
        forall|k: int| 0 <= k < n && !band_in(ls, #[trigger] es[k].band as int) ==> exists|j: int|
            0 <= j < eq_pending(es, n, ls).len() && eq_pending(es, n, ls)[j] == es[k],
        (forall|k: int| 0 <= k < n ==> band_in(ls, #[trigger] es[k].band as int)) ==> eq_pending(es, n, ls).len() == 0,
    decreases n,
{
    if n > 0 {
        lemma_eq_pending(es, n - 1, ls);
        let prev = eq_pending(es, n - 1, ls);
        let cur = eq_pending(es, n, ls);
        if band_in(ls, es[n - 1].band as int) {
            assert(cur == prev);
        } else {
            assert(cur == prev.push(es[n - 1]));
            assert forall|j: int| 0 <= j < cur.len() implies es.contains(#[trigger] cur[j]) by {
                if j < prev.len() {
                    assert(cur[j] == prev[j]);
                } else {
                    assert(cur[j] == es[n - 1]);
                }
            }
            assert forall|k: int| 0 <= k < n && !band_in(ls, #[trigger] es[k].band as int) implies exists|j: int|
                0 <= j < cur.len() && cur[j] == es[k] by {
                if k < n - 1 {
                    let j = choose|j: int| 0 <= j < prev.len() && prev[j] == es[k];
                    assert(cur[j] == prev[j]);
                } else {
                    assert(cur[prev.len() as int] == es[k]);
                }
            }
        }
    }
}

#[verifier::spinoff_prover]
proof fn lemma_header_from(ls: Seq<Seq<char>>, i: int)
    requires
        0 <= i,
    ensures
        eq_header_from(ls, i) matches Some(hh) ==> i <= hh < ls.len() && trim(ls[hh]) == "[eq]"@,
        forall|j: int| i <= j < ls.len() && trim(#[trigger] ls[j]) == "[eq]"@ ==> eq_header_from(ls, i) is Some,
    decreases ls.len() - i,
{
    if i < ls.len() {
        lemma_header_from(ls, i + 1);
    }
}

#[verifier::spinoff_prover]
proof fn lemma_body_end(ls: Seq<Seq<char>>, i: int)
    requires
        0 <= i <= ls.len(),
    ensures
        i <= body_end(ls, i) <= ls.len(),
    decreases ls.len() - i,
{
    if i < ls.len() && in_body(ls[i]) {
        lemma_body_end(ls, i + 1);
    }
}

/// The equalizer rewrite of every line of stable lines.
#[verifier::spinoff_prover]
proof fn lemma_eq_map(
    out: Seq<Seq<char>>,
    es: Seq<EqValue>,
    vals: Seq<IniValue>,
    g: Seq<TerminalColor>,
    h: Seq<TerminalColor>,
)
    requires
        plain_settings(vals),
        plain_eq(es),
        stable_lines(out, vals, g, h),
    ensures
        ({
            let r = eq_rewritten(out, es);
            &&& stable_lines(r, vals, g, h)
            &&& eq_fixed(r, es)
            &&& forall|q: (Seq<char>, Seq<char>)| has_key(out, q, vals, g, h) ==> #[trigger] has_key(r, q, vals, g, h)
            &&& forall|q: (bool, int)| has_grad(out, q) ==> #[trigger] has_grad(r, q)
            &&& forall|b: int| band_in(out, b) ==> #[trigger] band_in(r, b)
        }),
{
    let r = eq_rewritten(out, es);
    let n = out.len() as int;
    assert forall|i: int| 0 <= i < n implies (is_header(trim(#[trigger] r[i])) == is_header(trim(out[i])))
        && (is_header(trim(out[i])) ==> r[i] == out[i]) by {
        lemma_stable_at(out, i, vals, g, h);
        lemma_eq_rewrite(out[i], section_after(out, i), es, vals, g, h);
    }
    assert forall|i: int| 0 <= i < n implies #[trigger] line_out(r[i], section_after(r, i), vals, g, h) == r[i]
        && clean_line(r[i]) && eq_rewrite_line(es, r[i]) == r[i]
        && (r[i] != out[i] ==> line_seen(out[i], section_after(out, i), vals, g, h).len() == 0 && line_grad(out[i]).len() == 0)
        && section_after(r, i) == section_after(out, i) by {
        lemma_stable_at(out, i, vals, g, h);
        lemma_eq_rewrite(out[i], section_after(out, i), es, vals, g, h);
        lemma_sections_same(out, r, i);
    }
    assert forall|i: int| 0 <= i < n implies eq_rewrite_line(es, #[trigger] r[i]) == r[i] by {
        assert(line_out(r[i], section_after(r, i), vals, g, h) == r[i]);
    }
    assert forall|q: (Seq<char>, Seq<char>)| has_key(out, q, vals, g, h) implies #[trigger] has_key(r, q, vals, g, h) by {
        let i = choose|i: int| 0 <= i < out.len() && #[trigger] line_seen(out[i], section_after(out, i), vals, g, h).contains(q);
        assert(line_out(r[i], section_after(r, i), vals, g, h) == r[i]);
        assert(line_seen(r[i], section_after(r, i), vals, g, h).contains(q));
    }
    assert forall|q: (bool, int)| has_grad(out, q) implies #[trigger] has_grad(r, q) by {
        let i = choose|i: int| 0 <= i < out.len() && #[trigger] line_grad(out[i]).contains(q);
        assert(line_out(r[i], section_after(r, i), vals, g, h) == r[i]);
        assert(line_grad(r[i]).contains(q));
    }
    assert forall|b: int| band_in(out, b) implies #[trigger] band_in(r, b) by {
        let i = choose|i: int| 0 <= i < out.len() && #[trigger] eq_line_band(out[i]) == Some(b);
        lemma_stable_at(out, i, vals, g, h);
        lemma_eq_rewrite(out[i], section_after(out, i), es, vals, g, h);
        assert(eq_line_band(r[i]) == Some(b));
    }
}

/// Adding the `[eq]` header (after a blank line) at the end when there is
/// none.
#[verifier::spinoff_prover]
proof fn lemma_eq_header_added(
    r: Seq<Seq<char>>,
    es: Seq<EqValue>,
    vals: Seq<IniValue>,
    g: Seq<TerminalColor>,
    h: Seq<TerminalColor>,
)
    requires
        stable_lines(r, vals, g, h),
        eq_fixed(r, es),
    ensures
        ({
            let r2 = r.push(Seq::empty()).push("[eq]"@);
            &&& stable_lines(r2, vals, g, h)
            &&& eq_fixed(r2, es)
            &&& eq_header_from(r2, 0) is Some
            &&& forall|q: (Seq<char>, Seq<char>)| has_key(r, q, vals, g, h) ==> #[trigger] has_key(r2, q, vals, g, h)
            &&& forall|q: (bool, int)| has_grad(r, q) ==> #[trigger] has_grad(r2, q)
            &&& forall|b: int| band_in(r, b) ==> #[trigger] band_in(r2, b)
        }),
{
    reveal_strlit("eq");
    let hd = "["@ + "eq"@ + "]"@;
    assert(lower_word("eq"@));
    lemma_header_line("eq"@);
    assert(hd =~= "[eq]"@) by {
        reveal_strlit("[eq]");
        reveal_strlit("[");
        reveal_strlit("]");
    }
    let r2 = r.push(Seq::empty()).push("[eq]"@);
    let e = Seq::<char>::empty();
    assert(r2 =~= r.push(Seq::empty()).push(hd) + Seq::<Seq<char>>::empty());
    assert(trim(e) =~= e);
    lemma_no_band(e);
    lemma_no_band(hd);
    assert forall|p: int| 0 <= p < r2.len() implies #[trigger] line_out(r2[p], section_after(r2, p), vals, g, h) == r2[p]
        && clean_line(r2[p]) && eq_rewrite_line(es, r2[p]) == r2[p] by {
        if p < r.len() {
            lemma_after_old(r, hd, Seq::empty(), p);
            lemma_stable_at(r, p, vals, g, h);
        } else if p == r.len() {
            lemma_kept_line(e, section_after(r2, p), vals, g, h);
        } else {
            lemma_kept_line(hd, section_after(r2, p), vals, g, h);
        }
    }
    assert forall|i: int| 0 <= i < r2.len() implies eq_rewrite_line(es, #[trigger] r2[i]) == r2[i] by {
        assert(line_out(r2[i], section_after(r2, i), vals, g, h) == r2[i]);
    }
    lemma_header_from(r2, 0);
    assert(trim(r2[r.len() + 1int]) == "[eq]"@);
    assert forall|q: (Seq<char>, Seq<char>)| has_key(r, q, vals, g, h) implies #[trigger] has_key(r2, q, vals, g, h) by {
        let i = choose|i: int| 0 <= i < r.len() && #[trigger] line_seen(r[i], section_after(r, i), vals, g, h).contains(q);
        lemma_after_old(r, hd, Seq::empty(), i);
        assert(line_seen(r2[i], section_after(r2, i), vals, g, h).contains(q));
    }
    assert forall|q: (bool, int)| has_grad(r, q) implies #[trigger] has_grad(r2, q) by {
        let i = choose|i: int| 0 <= i < r.len() && #[trigger] line_grad(r[i]).contains(q);
        assert(r2[i] == r[i]);
        assert(line_grad(r2[i]).contains(q));
    }
    assert forall|b: int| band_in(r, b) implies #[trigger] band_in(r2, b) by {
        let i = choose|i: int| 0 <= i < r.len() && #[trigger] eq_line_band(r[i]) == Some(b);
        assert(r2[i] == r[i]);
        assert(eq_line_band(r2[i]) == Some(b));
    }
}

/// A line of the block of pending equalizer entries.
#[verifier::spinoff_prover]
proof fn lemma_eq_block_line(
    p: Seq<EqValue>,
    j: int,
    sec: Seq<char>,
    es: Seq<EqValue>,
    vals: Seq<IniValue>,
    g: Seq<TerminalColor>,
    h: Seq<TerminalColor>,
)
    requires
        plain_settings(vals),
        plain_eq(es),
        j < p.len() ==> es.contains(p[j]),
        0 <= j < eq_block(p).len(),
    ensures
        line_out(eq_block(p)[j], sec, vals, g, h) == eq_block(p)[j],
        clean_line(eq_block(p)[j]),
        !is_header(trim(eq_block(p)[j])),
        eq_rewrite_line(es, eq_block(p)[j]) == eq_block(p)[j],
        j < p.len() ==> eq_line_band(eq_block(p)[j]) == Some(p[j].band as int),
{
    let blk = eq_block(p);
    if j < p.len() {
        let k = choose|k: int| 0 <= k < es.len() && es[k] == p[j];
        assert(plain_value(es[k].value@));
        assert(blk[j] == eq_line(p[j].band as int, p[j].value@));
        lemma_eq_line(p[j].band as int, p[j].value@, sec, vals, g, h);
        lemma_eq_value_of_entry(es, 0, k);
    } else {
        let e = Seq::<char>::empty();
        assert(blk[j] == e);
        assert(trim(e) =~= e);
        lemma_no_band(e);
        lemma_kept_line(e, sec, vals, g, h);
    }
}

/// Inserting the block of pending equalizer entries.
#[verifier::spinoff_prover]
proof fn lemma_eq_insert(
    r2: Seq<Seq<char>>,
    p: Seq<EqValue>,
    at: int,
    es: Seq<EqValue>,
    vals: Seq<IniValue>,
    g: Seq<TerminalColor>,
    h: Seq<TerminalColor>,
)
    requires
        plain_settings(vals),
        plain_eq(es),
        stable_lines(r2, vals, g, h),
        eq_fixed(r2, es),
        0 <= at <= r2.len(),
        forall|i: int| 0 <= i < p.len() ==> es.contains(#[trigger] p[i]),
    ensures
        ({
            let w = r2.take(at) + eq_block(p) + r2.skip(at);
            &&& stable_lines(w, vals, g, h)
            &&& eq_fixed(w, es)
            &&& forall|q: (Seq<char>, Seq<char>)| has_key(r2, q, vals, g, h) ==> #[trigger] has_key(w, q, vals, g, h)
            &&& forall|q: (bool, int)| has_grad(r2, q) ==> #[trigger] has_grad(w, q)
            &&& forall|b: int| band_in(r2, b) ==> #[trigger] band_in(w, b)
            &&& forall|j: int| 0 <= j < p.len() ==> band_in(w, #[trigger] p[j].band as int)
            &&& eq_header_from(r2, 0) is Some ==> eq_header_from(w, 0) is Some
        }),
{
    let blk = eq_block(p);
    let w = r2.take(at) + blk + r2.skip(at);
    assert forall|i: int| 0 <= i < blk.len() implies !is_header(#[trigger] trim(blk[i])) by {
        if i < p.len() {
            assert(es.contains(p[i]));
        }
        lemma_eq_block_line(p, i, Seq::empty(), es, vals, g, h);
    }
    assert(no_header(blk, blk.len() as int));
    assert forall|pp: int| 0 <= pp < w.len() implies #[trigger] line_out(w[pp], section_after(w, pp), vals, g, h) == w[pp]
        && clean_line(w[pp]) && eq_rewrite_line(es, w[pp]) == w[pp] by {
        if pp < at {
            lemma_inside_old(r2, blk, at, pp);
            lemma_stable_at(r2, pp, vals, g, h);
        } else if pp < at + blk.len() {
            lemma_inside_new(r2, blk, at, pp - at);
            if pp - at < p.len() {
                assert(es.contains(p[pp - at]));
            }
            lemma_eq_block_line(p, pp - at, section_after(w, pp), es, vals, g, h);
        } else {
            let i = pp - blk.len();
            lemma_inside_old(r2, blk, at, i);
            lemma_stable_at(r2, i, vals, g, h);
        }
    }
    assert forall|i: int| 0 <= i < w.len() implies eq_rewrite_line(es, #[trigger] w[i]) == w[i] by {
        assert(line_out(w[i], section_after(w, i), vals, g, h) == w[i]);
    }
    assert forall|q: (Seq<char>, Seq<char>)| has_key(r2, q, vals, g, h) implies #[trigger] has_key(w, q, vals, g, h) by {
        let i = choose|i: int| 0 <= i < r2.len() && #[trigger] line_seen(r2[i], section_after(r2, i), vals, g, h).contains(q);
        lemma_inside_old(r2, blk, at, i);
        let pp = shifted(i, at, blk.len() as int);
        assert(line_seen(w[pp], section_after(w, pp), vals, g, h).contains(q));
    }
    assert forall|q: (bool, int)| has_grad(r2, q) implies #[trigger] has_grad(w, q) by {
        let i = choose|i: int| 0 <= i < r2.len() && #[trigger] line_grad(r2[i]).contains(q);
        lemma_inside_old(r2, blk, at, i);
        let pp = shifted(i, at, blk.len() as int);
        assert(line_grad(w[pp]).contains(q));
    }
    assert forall|b: int| band_in(r2, b) implies #[trigger] band_in(w, b) by {
        let i = choose|i: int| 0 <= i < r2.len() && #[trigger] eq_line_band(r2[i]) == Some(b);
        lemma_inside_old(r2, blk, at, i);
        let pp = shifted(i, at, blk.len() as int);
        assert(eq_line_band(w[pp]) == Some(b));
    }
    assert forall|j: int| 0 <= j < p.len() implies band_in(w, #[trigger] p[j].band as int) by {
        lemma_inside_new(r2, blk, at, j);
        assert(es.contains(p[j]));
        lemma_eq_block_line(p, j, Seq::empty(), es, vals, g, h);
        assert(eq_line_band(w[at + j]) == Some(p[j].band as int));
    }
    if eq_header_from(r2, 0) is Some {
        lemma_header_from(r2, 0);
        let hh = eq_header_from(r2, 0)->0;
        lemma_inside_old(r2, blk, at, hh);
        lemma_header_from(w, 0);
        assert(trim(w[shifted(hh, at, blk.len() as int)]) == "[eq]"@);
    }
}

/// The equalizer pass of a first save: the lines stay stable, keep what
/// they recorded, and come out ready for a second save.
#[verifier::spinoff_prover]
#[verifier::rlimit(60)]
proof fn lemma_eq_first(
    out: Seq<Seq<char>>,
    es: Seq<EqValue>,
    vals: Seq<IniValue>,
    g: Seq<TerminalColor>,
    h: Seq<TerminalColor>,
)
    requires
        plain_settings(vals),
        plain_eq(es),
        stable_lines(out, vals, g, h),
    ensures
        stable_lines(with_eq(out, es), vals, g, h),
        forall|q: (Seq<char>, Seq<char>)| has_key(out, q, vals, g, h) ==> #[trigger] has_key(with_eq(out, es), q, vals, g, h),
        forall|q: (bool, int)| has_grad(out, q) ==> #[trigger] has_grad(with_eq(out, es), q),
        eq_ready(with_eq(out, es), es),
{
    if es.len() == 0 {
        assert forall|i: int| 0 <= i < out.len() implies #[trigger] eq_rewrite_line(es, out[i]) == out[i] by {
            assert(eq_value_from(es, 0, 0) is None);
            match eq_line_band(out[i]) {
                Some(b) => { assert(eq_value_from(es, 0, b) is None); },
                None => {},
            }
        }
    } else {
        lemma_eq_map(out, es, vals, g, h);
        let r = eq_rewritten(out, es);
        let p = eq_pending(es, es.len() as int, out);
        lemma_eq_pending(es, es.len() as int, out);
        let r2 = if eq_header_from(r, 0) is None { r.push(Seq::empty()).push("[eq]"@) } else { r };
        if eq_header_from(r, 0) is None {
            lemma_eq_header_added(r, es, vals, g, h);
        }
        assert(eq_header_from(r2, 0) is Some);
        lemma_header_from(r2, 0);
        let hh = eq_header_from(r2, 0)->0;
        lemma_body_end(r2, hh + 1);
        let at = body_end(r2, hh + 1);
        lemma_eq_insert(r2, p, at, es, vals, g, h);
        let w = r2.take(at) + eq_block(p) + r2.skip(at);
        assert(with_eq(out, es) == w);
        assert forall|k: int| 0 <= k < es.len() implies band_in(w, #[trigger] es[k].band as int) by {
            if band_in(out, es[k].band as int) {
                assert(band_in(r, es[k].band as int));
                assert(band_in(r2, es[k].band as int));
            } else {
                let j = choose|j: int| 0 <= j < p.len() && p[j] == es[k];
                assert(band_in(w, p[j].band as int));
            }
        }
    }
}

/// The equalizer pass of a second save changes nothing.
#[verifier::spinoff_prover]
proof fn lemma_eq_again(ls: Seq<Seq<char>>, es: Seq<EqValue>)
    requires
        eq_ready(ls, es),
    ensures
        with_eq(ls, es) == ls,
{
    if es.len() > 0 {
        let r = eq_rewritten(ls, es);
        assert(r =~= ls);
        lemma_eq_pending(es, es.len() as int, ls);
        let p = eq_pending(es, es.len() as int, ls);
        assert(p.len() == 0);
        assert(eq_block(p) =~= Seq::<Seq<char>>::empty());
        let at = body_end(ls, eq_header_from(ls, 0)->0 + 1);
        lemma_header_from(ls, 0);
        lemma_body_end(ls, eq_header_from(ls, 0)->0 + 1);
        assert(ls.take(at) + eq_block(p) + ls.skip(at) =~= ls);
    }
}

/// Merging a block keeps every line its own equalizer rewrite, every band
/// set and the `[eq]` header.
#[verifier::spinoff_prover]
proof fn lemma_merge_block_eq(
    ls: Seq<Seq<char>>,
    sec: Seq<char>,
    block: Seq<Seq<char>>,
    es: Seq<EqValue>,
    vals: Seq<IniValue>,
    g: Seq<TerminalColor>,
    h: Seq<TerminalColor>,
)
    requires
        lower_word(sec),
        block_fits(block, sec, vals, g, h),
        eq_fixed(ls, es),
    ensures
        eq_fixed(merge_block(ls, sec, block), es),
        forall|b: int| band_in(ls, b) ==> #[trigger] band_in(merge_block(ls, sec, block), b),
        eq_header_from(ls, 0) is Some ==> eq_header_from(merge_block(ls, sec, block), 0) is Some,
{
    let hd = "["@ + sec + "]"@;
    let m = merge_block(ls, sec, block);
    lemma_block_no_header(block, sec, block.len() as int, vals, g, h);
    lemma_header_line(sec);
    lemma_no_band(hd);
    let e = Seq::<char>::empty();
    assert(trim(e) =~= e);
    lemma_no_band(e);
    lemma_header_from(ls, 0);
    lemma_header_from(m, 0);
    match insert_point(ls, hd, 0, false, None) {
        Some(at) => {
            lemma_insert_point(ls, sec, 0, false, None);
            assert(m == ls.take(at) + block + ls.skip(at));
            assert forall|p: int| 0 <= p < m.len() implies #[trigger] eq_rewrite_line(es, m[p]) == m[p] by {
                if p < at {
                    lemma_inside_old(ls, block, at, p);
                } else if p < at + block.len() {
                    lemma_inside_new(ls, block, at, p - at);
                    lemma_fits_at(block, sec, p - at, vals, g, h);
                } else {
                    lemma_inside_old(ls, block, at, p - block.len());
                }
            }
            assert forall|b: int| band_in(ls, b) implies #[trigger] band_in(m, b) by {
                let i = choose|i: int| 0 <= i < ls.len() && #[trigger] eq_line_band(ls[i]) == Some(b);
                lemma_inside_old(ls, block, at, i);
                assert(eq_line_band(m[shifted(i, at, block.len() as int)]) == Some(b));
            }
            if eq_header_from(ls, 0) is Some {
                let hh = eq_header_from(ls, 0)->0;
                lemma_inside_old(ls, block, at, hh);
                assert(trim(m[shifted(hh, at, block.len() as int)]) == "[eq]"@);
            }
        },
        None => {
            assert(m == ls.push(Seq::empty()).push(hd) + block);
            assert forall|p: int| 0 <= p < m.len() implies #[trigger] eq_rewrite_line(es, m[p]) == m[p] by {
                if p < ls.len() {
                    lemma_after_old(ls, hd, block, p);
                } else if p == ls.len() {
                    assert(m[p] == e);
                } else if p == ls.len() + 1 {
                    assert(m[p] == hd);
                } else {
                    let j = p - ls.len() - 2;
                    lemma_after_new(ls, sec, block, j);
                    lemma_fits_at(block, sec, j, vals, g, h);
                }
            }
            assert forall|b: int| band_in(ls, b) implies #[trigger] band_in(m, b) by {
                let i = choose|i: int| 0 <= i < ls.len() && #[trigger] eq_line_band(ls[i]) == Some(b);
                lemma_after_old(ls, hd, block, i);
                assert(eq_line_band(m[i]) == Some(b));
            }
            if eq_header_from(ls, 0) is Some {
                let hh = eq_header_from(ls, 0)->0;
                lemma_after_old(ls, hd, block, hh);
                assert(trim(m[hh]) == "[eq]"@);
            }
        },
    }
}

#[verifier::spinoff_prover]
proof fn lemma_merge_blocks_eq(
    ls: Seq<Seq<char>>,
    b: Seq<(Seq<char>, Seq<Seq<char>>)>,
    n: int,
    es: Seq<EqValue>,
    vals: Seq<IniValue>,
    g: Seq<TerminalColor>,
    h: Seq<TerminalColor>,
)
    requires
        0 <= n <= b.len(),
        blocks_fit(b, vals, g, h),
        eq_ready(ls, es),
    ensures
        eq_ready(merge_blocks(ls, b, n), es),
    decreases n,
{
    if n > 0 {
        lemma_merge_blocks_eq(ls, b, n - 1, es, vals, g, h);
        let prev = merge_blocks(ls, b, n - 1);
        assert(lower_word(b[n - 1].0) && block_fits(b[n - 1].1, b[n - 1].0, vals, g, h));
        lemma_merge_block_eq(prev, b[n - 1].0, b[n - 1].1, es, vals, g, h);
        let m = merge_blocks(ls, b, n);
        assert(m == merge_block(prev, b[n - 1].0, b[n - 1].1));
        assert forall|k: int| 0 <= k < es.len() implies band_in(m, #[trigger] es[k].band as int) by {
            assert(band_in(prev, es[k].band as int));
        }
    }
}

} // verus!
