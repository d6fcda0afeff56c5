//! Character-level helpers shared by the parsers: whitespace and quote
//! stripping, ASCII case folding, unsigned integer parsing and line
//! splitting, each stated over the character sequence it works on.

use vstd::prelude::*;

verus! {

/// The characters of `s`, in order.
pub fn chars_of(s: &str) -> (v: Vec<char>)
    ensures
        v@ == s@,
{
    let mut v: Vec<char> = Vec::new();
    for c in it: s.chars()
        invariant
            v@ == it.seq().take(it.index() as int),
            it.seq() == s@,
    {
        v.push(c);
    }
    v
}

/// Appends `c` to `s` (`String::push`).
#[verifier::external_body]
pub fn push_char(s: &mut String, c: char)
    ensures
        final(s)@ == old(s)@.push(c),
{
    s.push(c);
}

/// A `String` holding exactly the characters `v`.
pub fn string_of(v: &[char]) -> (s: String)
    ensures
        s@ == v@,
{
    let mut s = String::new();
    let mut i: usize = 0;
    while i < v.len()
        invariant
            0 <= i <= v@.len(),
            s@ == v@.take(i as int),
        decreases v@.len() - i,
    {
        push_char(&mut s, v[i]);
        proof {
            assert(v@.take(i as int + 1) == v@.take(i as int).push(v@[i as int]));
        }
        i = i + 1;
    }
    proof {
        assert(v@.take(v@.len() as int) == v@);
    }
    s
}

/// Unicode `White_Space`, the set that `str::trim` removes.
pub open spec fn is_ws(c: char) -> bool {
    ('\u{9}' <= c && c <= '\u{d}') || c == ' ' || c == '\u{85}' || c == '\u{a0}' || c
        == '\u{1680}' || ('\u{2000}' <= c && c <= '\u{200a}') || c == '\u{2028}' || c
        == '\u{2029}' || c == '\u{202f}' || c == '\u{205f}' || c == '\u{3000}'
}

/// See [`is_ws`].
pub fn char_is_ws(c: char) -> (r: bool)
    ensures
        r == is_ws(c),
{
    ('\u{9}' <= c && c <= '\u{d}') || c == ' ' || c == '\u{85}' || c == '\u{a0}' || c
        == '\u{1680}' || ('\u{2000}' <= c && c <= '\u{200a}') || c == '\u{2028}' || c
        == '\u{2029}' || c == '\u{202f}' || c == '\u{205f}' || c == '\u{3000}'
}

/// ASCII whitespace as `u8::is_ascii_whitespace` defines it.
pub open spec fn is_ascii_ws(c: char) -> bool {
    c == ' ' || c == '\t' || c == '\n' || c == '\u{c}' || c == '\r'
}

pub open spec fn is_digit(c: char) -> bool {
    '0' <= c && c <= '9'
}

/// What a strip removes from the ends: whitespace, or one given character.
pub enum Strip {
    Ws,
    Ch(char),
}

pub open spec fn strips(k: Strip, c: char) -> bool {
    match k {
        Strip::Ws => is_ws(c),
        Strip::Ch(q) => c == q,
    }
}

/// Number of leading characters of `s` that `k` strips.
pub open spec fn front_run(s: Seq<char>, k: Strip) -> int
    decreases s.len(),
{
    if s.len() > 0 && strips(k, s[0]) {
        1 + front_run(s.drop_first(), k)
    } else {
        0
    }
}

/// Number of trailing characters of `s` that `k` strips.
pub open spec fn back_run(s: Seq<char>, k: Strip) -> int
    decreases s.len(),
{
    if s.len() > 0 && strips(k, s.last()) {
        1 + back_run(s.drop_last(), k)
    } else {
        0
    }
}

/// `s` without its leading and trailing characters that `k` strips
/// (`str::trim` for whitespace, `str::trim_matches(c)` for a character).
pub open spec fn strip(s: Seq<char>, k: Strip) -> Seq<char> {
    let t = s.skip(front_run(s, k));
    t.take(t.len() - back_run(t, k))
}

/// `str::trim`.
pub open spec fn trim(s: Seq<char>) -> Seq<char> {
    strip(s, Strip::Ws)
}

proof fn lemma_front_run_bounds(s: Seq<char>, k: Strip)
    ensures
        0 <= front_run(s, k) <= s.len(),
    decreases s.len(),
{
    if s.len() > 0 && strips(k, s[0]) {
        lemma_front_run_bounds(s.drop_first(), k);
    }
}

proof fn lemma_back_run_bounds(s: Seq<char>, k: Strip)
    ensures
        0 <= back_run(s, k) <= s.len(),
    decreases s.len(),
{
    if s.len() > 0 && strips(k, s.last()) {
        lemma_back_run_bounds(s.drop_last(), k);
    }
}

fn strips_exec(k: &Strip, c: char) -> (r: bool)
    ensures
        r == strips(*k, c),
{
    match k {
        Strip::Ws => char_is_ws(c),
        Strip::Ch(q) => c == *q,
    }
}

/// The characters `s[lo..hi]`.
pub fn sub_chars(s: &[char], lo: usize, hi: usize) -> (r: Vec<char>)
    requires
        lo <= hi <= s@.len(),
    ensures
        r@ == s@.subrange(lo as int, hi as int),
{
    let mut r: Vec<char> = Vec::new();
    let mut i = lo;
    while i < hi
        invariant
            lo <= i <= hi <= s@.len(),
            r@ == s@.subrange(lo as int, i as int),
        decreases hi - i,
    {
        r.push(s[i]);
        proof {
            assert(s@.subrange(lo as int, i + 1) == s@.subrange(lo as int, i as int).push(
                s@[i as int],
            ));
        }
        i = i + 1;
    }
    r
}

/// `s` stripped at both ends (see [`strip`]).
pub fn strip_chars(s: &[char], k: &Strip) -> (r: Vec<char>)
    ensures
        r@ == strip(s@, *k),
{
    let n = s.len();
    let mut lo: usize = 0;
    proof {
        assert(s@.skip(0) == s@);
    }
    while lo < n && strips_exec(k, s[lo])
        invariant
            0 <= lo <= n == s@.len(),
            front_run(s@, *k) == lo + front_run(s@.skip(lo as int), *k),
        decreases n - lo,
    {
        proof {
            assert(s@.skip(lo as int).drop_first() == s@.skip(lo as int + 1));
        }
        lo = lo + 1;
    }
    proof {
        lemma_front_run_bounds(s@, *k);
        assert(front_run(s@, *k) == lo) by {
            if lo < n {
                assert(s@.skip(lo as int)[0] == s@[lo as int]);
            }
        }
    }
    let ghost t = s@.skip(lo as int);
    let mut hi: usize = n;
    proof {
        assert(t.take(n - lo) == t);
    }
    while hi > lo && strips_exec(k, s[hi - 1])
        invariant
            lo <= hi <= n == s@.len(),
            t == s@.skip(lo as int),
            back_run(t, *k) == (n - hi) + back_run(t.take(hi - lo), *k),
        decreases hi,
    {
        proof {
            assert(t.take(hi - lo).drop_last() == t.take(hi - lo - 1));
            assert(t.take(hi - lo).last() == s@[hi - 1]);
        }
        hi = hi - 1;
    }
    proof {
        lemma_back_run_bounds(t, *k);
        assert(t.take(t.len() as int) == t);
        assert(back_run(t, *k) == n - hi) by {
            if hi > lo {
                assert(t.take(hi - lo).last() == s@[hi - 1]);
            }
        }
        assert(t.take(t.len() - back_run(t, *k)) == s@.subrange(lo as int, hi as int));
    }
    sub_chars(s, lo, hi)
}

/// Lower case of one character as far as comparisons against ASCII text
/// can tell: ASCII letters fold to lower case and the Kelvin sign folds to
/// `k` (the one non-ASCII character whose lower case is ASCII); every
/// other character is left alone.
pub open spec fn lower_char(c: char) -> char {
    if 'A' <= c && c <= 'Z' {
        ((c as u32) + 32) as char
    } else if c == '\u{212a}' {
        'k'
    } else {
        c
    }
}

/// [`lower_char`] applied to every character: agrees with
/// `str::to_lowercase` on every string whose lower case is ASCII.
pub open spec fn lower(s: Seq<char>) -> Seq<char> {
    s.map_values(|c: char| lower_char(c))
}

/// ASCII-only case folding (`u8::to_ascii_lowercase`).
pub open spec fn ascii_lower(c: char) -> char {
    if 'A' <= c && c <= 'Z' {
        ((c as u32) + 32) as char
    } else {
        c
    }
}

/// `str::eq_ignore_ascii_case`.
pub open spec fn eq_ignore_ascii_case(s: Seq<char>, t: Seq<char>) -> bool {
    s.len() == t.len() && forall|i: int| 0 <= i < s.len() ==> ascii_lower(s[i]) == ascii_lower(t[i])
}

fn lower_char_exec(c: char) -> (r: char)
    ensures
        r == lower_char(c),
{
    if 'A' <= c && c <= 'Z' {
        let b = (c as u8) + 32;
        b as char
    } else if c == '\u{212a}' {
        'k'
    } else {
        c
    }
}

/// See [`lower`].
pub fn lower_chars(s: &[char]) -> (r: Vec<char>)
    ensures
        r@ == lower(s@),
{
    let mut r: Vec<char> = Vec::new();
    let mut i: usize = 0;
    while i < s.len()
        invariant
            0 <= i <= s@.len(),
            r@ == lower(s@.take(i as int)),
        decreases s@.len() - i,
    {
        r.push(lower_char_exec(s[i]));
        proof {
            assert(lower(s@.take(i as int + 1)) == lower(s@.take(i as int)).push(lower_char(s@[i as int])));
        }
        i = i + 1;
    }
    proof {
        assert(s@.take(s@.len() as int) == s@);
    }
    r
}

fn ascii_lower_exec(c: char) -> (r: char)
    ensures
        r == ascii_lower(c),
{
    if 'A' <= c && c <= 'Z' {
        let b = (c as u8) + 32;
        b as char
    } else {
        c
    }
}

/// See [`eq_ignore_ascii_case`].
pub fn chars_eq_ignore_ascii_case(s: &[char], t: &[char]) -> (r: bool)
    ensures
        r == eq_ignore_ascii_case(s@, t@),
{
    if s.len() != t.len() {
        return false;
    }
    let mut i: usize = 0;
    while i < s.len()
        invariant
            0 <= i <= s@.len() == t@.len(),
            forall|j: int| 0 <= j < i ==> ascii_lower(s@[j]) == ascii_lower(t@[j]),
        decreases s@.len() - i,
    {
        if ascii_lower_exec(s[i]) != ascii_lower_exec(t[i]) {
            return false;
        }
        i = i + 1;
    }
    true
}

/// Whether the two character sequences are equal.
pub fn chars_eq(s: &[char], t: &[char]) -> (r: bool)
    ensures
        r == (s@ == t@),
{
    if s.len() != t.len() {
        return false;
    }
    let mut i: usize = 0;
    while i < s.len()
        invariant
            0 <= i <= s@.len() == t@.len(),
            forall|j: int| 0 <= j < i ==> s@[j] == t@[j],
        decreases s@.len() - i,
    {
        if s[i] != t[i] {
            return false;
        }
        i = i + 1;
    }
    proof {
        assert(s@ =~= t@);
    }
    true
}

/// Whether `p` is a prefix of `s`.
pub fn chars_starts_with(s: &[char], p: &[char]) -> (r: bool)
    ensures
        r == (p@.len() <= s@.len() && s@.take(p@.len() as int) == p@),
{
    if p.len() > s.len() {
        return false;
    }
    let mut i: usize = 0;
    while i < p.len()
        invariant
            0 <= i <= p@.len() <= s@.len(),
            forall|j: int| 0 <= j < i ==> s@[j] == p@[j],
        decreases p@.len() - i,
    {
        if s[i] != p[i] {
            proof {
                assert(s@.take(p@.len() as int)[i as int] != p@[i as int]);
            }
            return false;
        }
        i = i + 1;
    }
    proof {
        assert(s@.take(p@.len() as int) =~= p@);
    }
    true
}

/// Numeric value of a run of ASCII digits.
pub open spec fn digits_value(s: Seq<char>) -> nat
    decreases s.len(),
{
    if s.len() == 0 {
        0
    } else {
        digits_value(s.drop_last()) * 10 + ((s.last() as u32) - ('0' as u32)) as nat
    }
}

/// What `str::parse` gives for an unsigned integer type without an upper
/// limit: an optional `+`, then at least one ASCII digit and nothing else.
pub open spec fn uint_value(s: Seq<char>) -> Option<nat> {
    let d = unsigned_digits(s);
    if d.len() > 0 && all_digits(d) {
        Some(digits_value(d))
    } else {
        None
    }
}

/// `s` without one leading `+`.
pub open spec fn unsigned_digits(s: Seq<char>) -> Seq<char> {
    if s.len() > 0 && s[0] == '+' {
        s.drop_first()
    } else {
        s
    }
}

pub open spec fn all_digits(d: Seq<char>) -> bool {
    forall|i: int| 0 <= i < d.len() ==> is_digit(#[trigger] d[i])
}

/// `str::parse` for an unsigned integer type whose largest value is `max`.
pub open spec fn parse_uint(s: Seq<char>, max: nat) -> Option<nat> {
    match uint_value(s) {
        Some(v) => if v <= max { Some(v) } else { None },
        None => None,
    }
}

proof fn lemma_digits_value_grows(s: Seq<char>, i: int, j: int)
    requires
        0 <= i <= j <= s.len(),
    ensures
        digits_value(s.take(i)) <= digits_value(s.take(j)),
    decreases j - i,
{
    if i < j {
        lemma_digits_value_grows(s, i, j - 1);
        assert(s.take(j).drop_last() == s.take(j - 1));
    }
}

/// See [`parse_uint`].
pub fn parse_uint_chars(s: &[char], max: u64) -> (r: Option<u64>)
    ensures
        r matches Some(v) ==> parse_uint(s@, max as nat) == Some(v as nat),
        r is None ==> parse_uint(s@, max as nat) is None,
{
    let start: usize = if s.len() > 0 && s[0] == '+' { 1 } else { 0 };
    let ghost d = unsigned_digits(s@);
    proof {
        assert(d == s@.skip(start as int));
    }
    if start >= s.len() {
        return None;
    }
    let mut acc: u64 = 0;
    let mut i = start;
    while i < s.len()
        invariant
            start <= i <= s@.len(),
            d == s@.skip(start as int),
            d == unsigned_digits(s@),
            acc == digits_value(d.take(i - start)),
            acc <= max,
            forall|j: int| 0 <= j < i - start ==> is_digit(d[j]),
        decreases s@.len() - i,
    {
        let c = s[i];
        if !('0' <= c && c <= '9') {
            proof {
                assert(d[i - start] == s@[i as int]);
                assert(!is_digit(d[i - start]));
                assert(!all_digits(d));
            }
            return None;
        }
        let dig = (c as u32 - '0' as u32) as u64;
        proof {
            assert(d.take(i - start + 1).drop_last() == d.take(i - start));
            assert(d.take(i - start + 1).last() == c);
        }
        if dig > max || acc > (max - dig) / 10 {
            proof {
                assert(acc * 10 + dig > max) by (nonlinear_arith)
                    requires
                        acc > (max - dig) / 10,
                        dig <= 9,
                        dig <= max || acc * 10 + dig > max,
                ;
                lemma_digits_value_grows(d, i - start + 1, d.len() as int);
                assert(d.take(d.len() as int) == d);
                assert(digits_value(d.take(i - start + 1)) == acc * 10 + dig);
                assert(digits_value(d) > max);
            }
            return None;
        }
        proof {
            assert(acc * 10 + dig <= max) by (nonlinear_arith)
                requires
                    acc <= (max - dig) / 10,
                    dig <= max,
            ;
        }
        acc = acc * 10 + dig;
        i = i + 1;
    }
    proof {
        assert(d.take(d.len() as int) == d);
    }
    Some(acc)
}

/// Position of the first `'\n'` in `s` at or after `i` (or `s.len()`).
pub open spec fn newline_at(s: Seq<char>, i: int) -> int
    decreases s.len() - i,
{
    if i >= s.len() {
        s.len() as int
    } else if s[i] == '\n' {
        i
    } else {
        newline_at(s, i + 1)
    }
}

/// A line without its `'\r'` terminator, if it had one (`str::lines`
/// removes `"\r\n"` endings).
pub open spec fn chop_cr(line: Seq<char>, had_newline: bool) -> Seq<char> {
    if had_newline && line.len() > 0 && line.last() == '\r' {
        line.drop_last()
    } else {
        line
    }
}

/// The lines of `s` from position `i` on, as `str::lines` yields them.
pub open spec fn lines_from(s: Seq<char>, i: int) -> Seq<Seq<char>>
    decreases s.len() + 1 - i,
{
    if i < 0 || i >= s.len() {
        Seq::empty()
    } else {
        let k = newline_at(s, i);
        if k < i || k > s.len() {
            Seq::empty()
        } else {
            seq![chop_cr(s.subrange(i, k), k < s.len())] + lines_from(s, k + 1)
        }
    }
}

/// `str::lines`.
pub open spec fn lines(s: Seq<char>) -> Seq<Seq<char>> {
    lines_from(s, 0)
}

proof fn lemma_newline_at_bounds(s: Seq<char>, i: int)
    requires
        0 <= i,
    ensures
        i <= newline_at(s, i) || (i > s.len() && newline_at(s, i) == s.len()),
        newline_at(s, i) <= s.len() || i > s.len(),
        newline_at(s, i) < s.len() ==> s[newline_at(s, i)] == '\n',
        forall|j: int| i <= j < newline_at(s, i) ==> s[j] != '\n',
    decreases s.len() - i,
{
    if i < s.len() && s[i] != '\n' {
        lemma_newline_at_bounds(s, i + 1);
    }
}

/// See [`lines`].
pub fn split_lines(s: &[char]) -> (r: Vec<Vec<char>>)
    ensures
        r@.len() == lines(s@).len(),
        forall|i: int| 0 <= i < r@.len() ==> #[trigger] r@[i]@ == lines(s@)[i],
{
    let n = s.len();
    let mut r: Vec<Vec<char>> = Vec::new();
    let mut i: usize = 0;
    while i < n
        invariant
            0 <= i <= n == s@.len(),
            lines(s@) == r@.map_values(|v: Vec<char>| v@) + lines_from(s@, i as int),
        decreases n - i,
    {
        let mut k = i;
        while k < n && s[k] != '\n'
            invariant
                i <= k <= n,
                n == s@.len(),
                newline_at(s@, i as int) == newline_at(s@, k as int),
            decreases n - k,
        {
            k = k + 1;
        }
        let had_newline = k < n;
        let end = if had_newline && k > i && s[k - 1] == '\r' { k - 1 } else { k };
        let line = sub_chars(s, i, end);
        proof {
            assert(newline_at(s@, i as int) == k);
            let ghost full = s@.subrange(i as int, k as int);
            assert(line@ == chop_cr(full, had_newline)) by {
                if had_newline && k > i && s@[k - 1] == '\r' {
                    assert(full.drop_last() =~= s@.subrange(i as int, k - 1));
                }
            }
            assert(lines_from(s@, i as int) == seq![line@] + lines_from(s@, k + 1));
            assert(r@.push(line).map_values(|v: Vec<char>| v@) == r@.map_values(|v: Vec<char>| v@).push(line@));
        }
        r.push(line);
        i = if had_newline { k + 1 } else { k };
        proof {
            if !had_newline {
                assert(lines_from(s@, k + 1) == Seq::<Seq<char>>::empty());
                assert(lines_from(s@, i as int) == Seq::<Seq<char>>::empty());
            }
        }
    }
    proof {
        assert(lines_from(s@, n as int) == Seq::<Seq<char>>::empty());
        assert(lines(s@) == r@.map_values(|v: Vec<char>| v@));
        assert forall|j: int| 0 <= j < r@.len() implies #[trigger] r@[j]@ == lines(s@)[j] by {
            assert(r@.map_values(|v: Vec<char>| v@)[j] == r@[j]@);
        }
    }
    r
}

pub open spec fn digit_char(d: int) -> char {
    (('0' as int) + d) as char
}

/// Decimal digits of `n` (no sign, no leading zeros; `"0"` for zero).
pub open spec fn dec(n: nat) -> Seq<char>
    decreases n,
{
    if n < 10 {
        seq![digit_char(n as int)]
    } else {
        dec(n / 10).push(digit_char((n % 10) as int))
    }
}

/// Appends the decimal digits of `n` to `out`.
pub fn push_decimal(out: &mut Vec<char>, n: u64)
    ensures
        final(out)@ == old(out)@ + dec(n as nat),
    decreases n,
{
    if n < 10 {
        out.push(((n as u8) + 48) as char);
    } else {
        push_decimal(out, n / 10);
        out.push((((n % 10) as u8) + 48) as char);
    }
    proof {
        assert(final(out)@ =~= old(out)@ + dec(n as nat));
    }
}

/// Appends every character of `s` to `out`.
pub fn push_all(out: &mut Vec<char>, s: &[char])
    ensures
        final(out)@ == old(out)@ + s@,
{
    let mut i: usize = 0;
    while i < s.len()
        invariant
            0 <= i <= s@.len(),
            out@ == old(out)@ + s@.take(i as int),
        decreases s@.len() - i,
    {
        out.push(s[i]);
        proof {
            assert(s@.take(i + 1) == s@.take(i as int).push(s@[i as int]));
        }
        i = i + 1;
    }
    proof {
        assert(s@.take(s@.len() as int) == s@);
    }
}

} // verus!
