//! Audio input logic: frame bookkeeping of the synthetic test source, PCM
//! sample decoding, the latency cap on buffered samples, and finding the
//! monitor source in `pactl` output.

use vstd::prelude::*;
use crate::text::{chars_of, chars_starts_with, is_ws, string_of, strip_chars, sub_chars, trim, split_lines, lines, Strip};

verus! {

/// Samples per channel in one frame of the synthetic source.
pub const FRAME_SAMPLES: usize = 512;

/// Synthetic audio source: a sample rate, a channel count, and the index of
/// the first sample of the next frame.
pub struct TestSignalBackend {
    sample_rate: u32,
    channels: u32,
    sample_index: u64,
}

impl TestSignalBackend {
    pub closed spec fn rate(&self) -> u32 {
        self.sample_rate
    }

    pub closed spec fn chans(&self) -> u32 {
        self.channels
    }

    /// Index of the first sample of the next frame.
    pub closed spec fn next_index(&self) -> u64 {
        self.sample_index
    }

    /// A source that starts at sample 0.
    pub fn new(sample_rate: u32, channels: u32) -> (s: Self)
        ensures
            s.rate() == sample_rate,
            s.chans() == channels,
            s.next_index() == 0,
    {
        TestSignalBackend { sample_rate, channels, sample_index: 0 }
    }

    pub fn sample_rate(&self) -> (r: u32)
        ensures
            r == self.rate(),
    {
        self.sample_rate
    }

    pub fn channels(&self) -> (r: u32)
        ensures
            r == self.chans(),
    {
        self.channels
    }

    /// Index of the first sample of the next frame.
    pub fn sample_index(&self) -> (r: u64)
        ensures
            r == self.next_index(),
    {
        self.sample_index
    }

    /// Length of one frame's buffer: 512 samples for each channel.
    pub fn frame_len(&self) -> (r: usize)
        requires
            512 * self.chans() <= usize::MAX,
        ensures
            r == 512 * self.chans(),
    {
        FRAME_SAMPLES * (self.channels as usize)
    }

    /// Whether a frame interleaves a right and a left sample per instant
    /// (two channels) instead of holding one mixed sample.
    pub fn interleaved(&self) -> (r: bool)
        ensures
            r == (self.chans() == 2),
    {
        self.channels == 2
    }

    /// Moves the counter past one frame.
    pub fn advance(&mut self)
        requires
            old(self).next_index() + 512 <= u64::MAX,
        ensures
            final(self).next_index() == old(self).next_index() + 512,
            final(self).rate() == old(self).rate(),
            final(self).chans() == old(self).chans(),
    {
        self.sample_index = self.sample_index + 512;
    }
}

/// Bytes per sample for a sample width in bits (at least 1).
pub open spec fn sample_bytes(sample_bits: int) -> int {
    if sample_bits / 8 < 1 { 1 } else { sample_bits / 8 }
}

/// The little-endian signed 16-bit value of two bytes.
pub open spec fn le_i16(lo: u8, hi: u8) -> int {
    let u = lo + 256 * hi;
    if u >= 32768 { u - 65536 } else { u }
}

/// The little-endian signed 32-bit value of four bytes.
pub open spec fn le_i32(b0: u8, b1: u8, b2: u8, b3: u8) -> int {
    let u = b0 + 256 * b1 + 65536 * b2 + 16777216 * b3;
    if u >= 0x8000_0000 { u - 0x1_0000_0000 } else { u }
}

/// The signed 8-bit value of a byte.
pub open spec fn byte_i8(b: u8) -> int {
    if b >= 128 { b - 256 } else { b as int }
}

/// Raw value of sample `i` in `raw` for `bytes_per_sample`-byte PCM: a
/// signed 8-bit, 16-bit little-endian or 32-bit little-endian integer (the
/// first four bytes for wider samples); 3-byte samples are not decoded and
/// read 0.
pub open spec fn pcm_value(raw: Seq<u8>, i: int, bytes_per_sample: int) -> int {
    if bytes_per_sample == 2 {
        le_i16(raw[2 * i], raw[2 * i + 1])
    } else if bytes_per_sample == 1 {
        byte_i8(raw[i])
    } else if bytes_per_sample >= 4 {
        le_i32(raw[4 * i], raw[4 * i + 1], raw[4 * i + 2], raw[4 * i + 3])
    } else {
        0
    }
}

/// Decodes `count` PCM samples from `raw`. Callers scale them to the
/// 16-bit range: 8-bit values by 256, 32-bit values by 1/65536.
pub fn decode_pcm(raw: &[u8], count: usize, bytes_per_sample: usize) -> (r: Vec<i32>)
    requires
        bytes_per_sample == 2 ==> 2 * count <= raw@.len(),
        bytes_per_sample == 1 ==> count <= raw@.len(),
        bytes_per_sample >= 4 ==> 4 * count <= raw@.len(),
    ensures
        r@.len() == count,
        forall|i: int| 0 <= i < count ==> #[trigger] r@[i] == pcm_value(raw@, i, bytes_per_sample as int),
{
    let mut r: Vec<i32> = Vec::new();
    let n = raw.len();
    let mut i: usize = 0;
    while i < count
        invariant
            0 <= i <= count,
            n == raw@.len(),
            bytes_per_sample == 2 ==> 2 * count <= raw@.len(),
            bytes_per_sample == 1 ==> count <= raw@.len(),
            bytes_per_sample >= 4 ==> 4 * count <= raw@.len(),
            r@.len() == i,
            forall|k: int| 0 <= k < i ==> #[trigger] r@[k] == pcm_value(raw@, k, bytes_per_sample as int),
        decreases count - i,
    {
        let v: i32 = if bytes_per_sample == 2 {
            let u = (raw[2 * i] as i32) + 256 * (raw[2 * i + 1] as i32);
            if u >= 32768 { u - 65536 } else { u }
        } else if bytes_per_sample == 1 {
            let b = raw[i] as i32;
            if b >= 128 { b - 256 } else { b }
        } else if bytes_per_sample >= 4 {
            let u = (raw[4 * i] as i64) + 256 * (raw[4 * i + 1] as i64) + 65536 * (raw[4 * i + 2] as i64)
                + 16777216 * (raw[4 * i + 3] as i64);
            let s = if u >= 0x8000_0000 { u - 0x1_0000_0000 } else { u };
            s as i32
        } else {
            0
        };
        r.push(v);
        i = i + 1;
    }
    r
}

/// The sizes of one read from a PCM stream: samples (512 per channel),
/// bytes per sample, and bytes.
pub fn read_sizes(channels: u32, sample_bits: u32) -> (r: (usize, usize, usize))
    requires
        512 * channels * sample_bytes(sample_bits as int) <= usize::MAX,
    ensures
        r.0 == 512 * channels,
        r.1 == sample_bytes(sample_bits as int),
        r.2 == r.0 * r.1,
{
    let b = sample_bits / 8;
    let bytes = if b < 1 { 1 } else { b as usize };
    proof {
        assert(512 * channels <= 512 * channels * sample_bytes(sample_bits as int)) by (nonlinear_arith)
            requires sample_bytes(sample_bits as int) >= 1;
    }
    let samples = 512 * (channels as usize);
    (samples, bytes, samples * bytes)
}

/// Index from which buffered samples are kept: at most 8192 per channel,
/// the newest ones, so a lagging consumer does not accumulate latency.
pub fn latest_start(len: usize, channels: u32) -> (r: usize)
    requires
        8192 * channels <= usize::MAX,
    ensures
        len > 8192 * channels ==> r == len - 8192 * channels,
        len <= 8192 * channels ==> r == 0,
{
    let cap = 8192 * (channels as usize);
    if len > cap { len - cap } else { 0 }
}

/// `s` without every leading copy of `p` (`str::trim_start_matches`).
pub open spec fn strip_prefix_all(s: Seq<char>, p: Seq<char>) -> Seq<char>
    decreases s.len(),
{
    if p.len() > 0 && p.len() <= s.len() && s.take(p.len() as int) == p {
        strip_prefix_all(s.skip(p.len() as int), p)
    } else {
        s
    }
}

/// The monitor of the default sink named in `pactl info` output: the first
/// line that starts (after trimming) with `Default Sink:` and names a sink
/// gives `<sink>.monitor`; lines naming none are skipped.
pub open spec fn monitor_in_info(ls: Seq<Seq<char>>, i: int) -> Option<Seq<char>>
    decreases ls.len() - i,
{
    if i < 0 || i >= ls.len() {
        None
    } else {
        let t = trim(ls[i]);
        let p = "Default Sink:"@;
        if p.len() <= t.len() && t.take(p.len() as int) == p {
            let name = trim(strip_prefix_all(t, p));
            if name.len() > 0 {
                Some(name + ".monitor"@)
            } else {
                monitor_in_info(ls, i + 1)
            }
        } else {
            monitor_in_info(ls, i + 1)
        }
    }
}

fn strip_prefix_all_exec(s: &[char], p: &[char]) -> (r: Vec<char>)
    ensures
        r@ == strip_prefix_all(s@, p@),
{
    let mut cur: Vec<char> = sub_chars(s, 0, s.len());
    proof {
        assert(cur@ =~= s@);
    }
    if p.len() == 0 {
        return cur;
    }
    while chars_starts_with(&cur, p)
        invariant
            p@.len() > 0,
            strip_prefix_all(cur@, p@) == strip_prefix_all(s@, p@),
        decreases cur@.len(),
    {
        let n = cur.len();
        cur = sub_chars(&cur, p.len(), n);
    }
    cur
}

/// Finds the default sink's monitor in the text `pactl info` printed.
pub fn monitor_from_info(text: &str) -> (r: Option<String>)
    ensures
        r matches Some(m) ==> monitor_in_info(lines(text@), 0) == Some(m@),
        r is None ==> monitor_in_info(lines(text@), 0) is None,
{
    let cs = chars_of(text);
    let ls = split_lines(&cs);
    let p = chars_of("Default Sink:");
    let suffix = chars_of(".monitor");
    let mut i: usize = 0;
    while i < ls.len()
        invariant
            0 <= i <= ls@.len(),
            ls@.len() == lines(text@).len(),
            forall|k: int| 0 <= k < ls@.len() ==> #[trigger] ls@[k]@ == lines(text@)[k],
            cs@ == text@,
            p@ == "Default Sink:"@,
            suffix@ == ".monitor"@,
            monitor_in_info(lines(text@), i as int) == monitor_in_info(lines(text@), 0),
        decreases ls@.len() - i,
    {
        let t = strip_chars(&ls[i], &Strip::Ws);
        if chars_starts_with(&t, &p) {
            let rest = strip_prefix_all_exec(&t, &p);
            let name = strip_chars(&rest, &Strip::Ws);
            if name.len() > 0 {
                let mut m = name;
                crate::text::push_all(&mut m, &suffix);
                return Some(string_of(&m));
            }
        }
        i = i + 1;
    }
    None
}

/// The whitespace-separated words of `s` from index `i` on, with `cur` the
/// word being read (`str::split_whitespace`).
pub open spec fn words_from(s: Seq<char>, i: int, cur: Seq<char>) -> Seq<Seq<char>>
    decreases s.len() - i,
{
    if i < 0 || i >= s.len() {
        if cur.len() > 0 { seq![cur] } else { Seq::empty() }
    } else if is_ws(s[i]) {
        if cur.len() > 0 {
            seq![cur] + words_from(s, i + 1, Seq::empty())
        } else {
            words_from(s, i + 1, Seq::empty())
        }
    } else {
        words_from(s, i + 1, cur.push(s[i]))
    }
}

pub open spec fn words(s: Seq<char>) -> Seq<Seq<char>> {
    words_from(s, 0, Seq::empty())
}

/// Whether a word names a monitor source.
pub open spec fn is_monitor(w: Seq<char>) -> bool {
    w.len() >= 8 && w.skip(w.len() - 8) == ".monitor"@
}

/// The source `pactl list sources short` output offers, from line `i` on
/// with `fallback` the first monitor seen so far: the first monitor whose
/// line says `RUNNING`, else the first monitor.
pub open spec fn monitor_in_sources(ls: Seq<Seq<char>>, i: int, fallback: Option<Seq<char>>) -> Option<Seq<char>>
    decreases ls.len() - i,
{
    if i < 0 || i >= ls.len() {
        fallback
    } else {
        let parts = words(ls[i]);
        if parts.len() >= 2 && is_monitor(parts[1]) {
            if parts.contains("RUNNING"@) {
                Some(parts[1])
            } else {
                monitor_in_sources(ls, i + 1, if fallback is None { Some(parts[1]) } else { fallback })
            }
        } else {
            monitor_in_sources(ls, i + 1, fallback)
        }
    }
}

fn words_exec(s: &[char]) -> (r: Vec<Vec<char>>)
    ensures
        r@.len() == words(s@).len(),
        forall|k: int| 0 <= k < r@.len() ==> #[trigger] r@[k]@ == words(s@)[k],
{
    let mut out: Vec<Vec<char>> = Vec::new();
    let mut cur: Vec<char> = Vec::new();
    let mut i: usize = 0;
    while i < s.len()
        invariant
            0 <= i <= s@.len(),
            ({
                let done = out@.map_values(|w: Vec<char>| w@);
                done + words_from(s@, i as int, cur@) == words(s@)
            }),
        decreases s@.len() - i,
    {
        let ghost done = out@.map_values(|w: Vec<char>| w@);
        let ghost c0 = cur@;
        if crate::text::char_is_ws(s[i]) {
            if cur.len() > 0 {
                let w = cur;
                cur = Vec::new();
                out.push(w);
                proof {
                    let d2 = out@.map_values(|w: Vec<char>| w@);
                    assert(d2 =~= done.push(c0));
                    assert(words_from(s@, i as int, c0) == seq![c0] + words_from(s@, i + 1, Seq::empty()));
                    assert(d2 + words_from(s@, i + 1, cur@) =~= done + (seq![c0] + words_from(s@, i + 1, Seq::empty())));
                }
            } else {
                proof {
                    assert(words_from(s@, i as int, c0) == words_from(s@, i + 1, Seq::empty()));
                    assert(cur@ =~= Seq::<char>::empty());
                }
            }
        } else {
            cur.push(s[i]);
            proof {
                assert(words_from(s@, i as int, c0) == words_from(s@, i + 1, c0.push(s@[i as int])));
                assert(out@.map_values(|w: Vec<char>| w@) == done);
            }
        }
        i = i + 1;
    }
    if cur.len() > 0 {
        let ghost done = out@.map_values(|w: Vec<char>| w@);
        out.push(cur);
        proof {
            assert(out@.map_values(|w: Vec<char>| w@) =~= done + seq![out@[out@.len() - 1]@]);
        }
    } else {
        proof {
            assert(out@.map_values(|w: Vec<char>| w@) =~= out@.map_values(|w: Vec<char>| w@) + Seq::<Seq<char>>::empty());
        }
    }
    proof {
        assert(out@.map_values(|w: Vec<char>| w@) =~= words(s@));
        assert forall|k: int| 0 <= k < out@.len() implies #[trigger] out@[k]@ == words(s@)[k] by {
            assert(out@.map_values(|w: Vec<char>| w@)[k] == out@[k]@);
        }
    }
    out
}

fn word_is(w: &Vec<char>, lit: &str) -> (r: bool)
    ensures
        r == (w@ == lit@),
{
    let l = chars_of(lit);
    crate::text::chars_eq(w, &l)
}

fn is_monitor_exec(w: &Vec<char>) -> (r: bool)
    ensures
        r == is_monitor(w@),
{
    if w.len() < 8 {
        return false;
    }
    let tail = sub_chars(w, w.len() - 8, w.len());
    assert(tail@ =~= w@.skip(w@.len() - 8));
    word_is(&tail, ".monitor")
}

/// Picks a monitor source from the text `pactl list sources short`
/// printed: the first running monitor, else the first monitor.
pub fn monitor_from_sources(text: &str) -> (r: Option<String>)
    ensures
        r matches Some(m) ==> monitor_in_sources(lines(text@), 0, None) == Some(m@),
        r is None ==> monitor_in_sources(lines(text@), 0, None) is None,
{
    let cs = chars_of(text);
    let ls = split_lines(&cs);
    let mut fallback: Option<Vec<char>> = None;
    let mut i: usize = 0;
    while i < ls.len()
        invariant
            0 <= i <= ls@.len(),
            ls@.len() == lines(text@).len(),
            forall|k: int| 0 <= k < ls@.len() ==> #[trigger] ls@[k]@ == lines(text@)[k],
            monitor_in_sources(lines(text@), i as int, match fallback { Some(f) => Some(f@), None => None })
                == monitor_in_sources(lines(text@), 0, None),
        decreases ls@.len() - i,
    {
        let parts = words_exec(&ls[i]);
        if parts.len() >= 2 && is_monitor_exec(&parts[1]) {
            let mut running = false;
            let mut k: usize = 0;
            while k < parts.len()
                invariant
                    0 <= k <= parts@.len(),
                    running == (exists|j: int| 0 <= j < k && #[trigger] parts@[j]@ == "RUNNING"@),
                decreases parts@.len() - k,
            {
                if word_is(&parts[k], "RUNNING") {
                    running = true;
                }
                k = k + 1;
            }
            proof {
                let wv = words(ls@[i as int]@);
                if running {
                    let j = choose|j: int| 0 <= j < parts@.len() && #[trigger] parts@[j]@ == "RUNNING"@;
                    assert(wv[j] == "RUNNING"@);
                }
                if wv.contains("RUNNING"@) {
                    let j = choose|j: int| 0 <= j < wv.len() && wv[j] == "RUNNING"@;
                    assert(parts@[j]@ == "RUNNING"@);
                }
            }
            if running {
                return Some(string_of(&parts[1]));
            }
            if fallback.is_none() {
                fallback = Some(parts[1].clone());
            }
        }
        i = i + 1;
    }
    match fallback {
        Some(f) => Some(string_of(&f)),
        None => None,
    }
}

} // verus!
