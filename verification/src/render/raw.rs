//! Frame encoding of the raw output method: bar values as bytes or as a
//! delimited line of decimal numbers.

use vstd::prelude::*;
use crate::config::{BitFormat, DataFormat};
use crate::text::{dec, push_decimal, string_of};

verus! {

/// How raw frames are encoded.
pub struct RawRenderer {
    pub data_format: DataFormat,
    pub bit_format: BitFormat,
    /// Largest number an ASCII frame holds.
    pub ascii_max_range: u32,
    /// Byte between two numbers of an ASCII frame.
    pub bar_delimiter: u8,
    /// Byte that ends an ASCII frame.
    pub frame_delimiter: u8,
}

/// The value a bar at full height is written as.
pub open spec fn full_scale_of(data_format: DataFormat, bit_format: BitFormat, ascii_max_range: u32) -> nat {
    match data_format {
        DataFormat::Binary => match bit_format {
            BitFormat::Bits8 => 255,
            BitFormat::Bits16 => 65535,
        },
        DataFormat::Ascii => ascii_max_range as nat,
    }
}

/// The numbers of `vals`, in decimal, each after the first preceded by `d`.
pub open spec fn ascii_body(vals: Seq<u32>, d: char) -> Seq<char>
    decreases vals.len(),
{
    if vals.len() == 0 {
        Seq::empty()
    } else {
        let prev = ascii_body(vals.drop_last(), d);
        let sep = if vals.len() > 1 { seq![d] } else { Seq::empty() };
        prev + sep + dec(vals.last() as nat)
    }
}

/// The bytes of a 16-bit value in one of the two byte orders.
pub open spec fn is_u16_bytes(w: u16, lo_hi: (u8, u8)) -> bool {
    ||| (lo_hi.0 == w % 256 && lo_hi.1 == w / 256)
    ||| (lo_hi.0 == w / 256 && lo_hi.1 == w % 256)
}

/// `u16::to_ne_bytes`: the two bytes of `w` in the machine's byte order,
/// which is little- or big-endian; which of the two is not stated.
#[verifier::external_body]
fn native_bytes(w: u16) -> (r: (u8, u8))
    ensures
        is_u16_bytes(w, r),
{
    let b = w.to_ne_bytes();
    (b[0], b[1])
}

/// The two bytes of a 16-bit value: low byte first when `little`, high byte
/// first otherwise.
pub open spec fn u16_bytes(w: nat, little: bool) -> (u8, u8) {
    if little {
        ((w % 256) as u8, (w / 256) as u8)
    } else {
        ((w / 256) as u8, (w % 256) as u8)
    }
}

/// `bytes` holds each value of `vals` as two bytes, all in the order that
/// `little` picks.
pub open spec fn words_in_order(vals: Seq<u32>, bytes: Seq<u8>, little: bool) -> bool {
    forall|i: int| 0 <= i < vals.len() ==> #[trigger] u16_bytes(vals[i] as nat, little) == (bytes[2 * i], bytes[2 * i + 1])
}

impl RawRenderer {
    pub fn new(
        data_format: DataFormat,
        bit_format: BitFormat,
        ascii_max_range: u32,
        bar_delimiter: u8,
        frame_delimiter: u8,
    ) -> (r: Self)
        ensures
            r.data_format == data_format,
            r.bit_format == bit_format,
            r.ascii_max_range == ascii_max_range,
            r.bar_delimiter == bar_delimiter,
            r.frame_delimiter == frame_delimiter,
    {
        RawRenderer { data_format, bit_format, ascii_max_range, bar_delimiter, frame_delimiter }
    }

    pub open spec fn full_scale_spec(&self) -> nat {
        full_scale_of(self.data_format, self.bit_format, self.ascii_max_range)
    }

    /// The value a bar at full height is written as: 255 or 65535 for
    /// binary frames, `ascii_max_range` for ASCII frames. Levels are scaled
    /// to this and clamped to `0..=full_scale` before encoding.
    pub fn full_scale(&self) -> (r: u32)
        ensures
            r == self.full_scale_spec(),
    {
        match self.data_format {
            DataFormat::Binary => match self.bit_format {
                BitFormat::Bits8 => 255,
                BitFormat::Bits16 => 65535,
            },
            DataFormat::Ascii => self.ascii_max_range,
        }
    }

    /// An ASCII frame: the scaled values in decimal separated by the bar
    /// delimiter, then the frame delimiter.
    pub fn ascii_frame(&self, scaled: &[u32]) -> (line: String)
        ensures
            line@ == ascii_body(scaled@, self.bar_delimiter as char).push(self.frame_delimiter as char),
    {
        let d = self.bar_delimiter as char;
        let mut out: Vec<char> = Vec::new();
        let mut i: usize = 0;
        while i < scaled.len()
            invariant
                0 <= i <= scaled@.len(),
                d == self.bar_delimiter as char,
                out@ == ascii_body(scaled@.take(i as int), d),
            decreases scaled@.len() - i,
        {
            if i > 0 {
                out.push(d);
            }
            push_decimal(&mut out, scaled[i] as u64);
            proof {
                let t = scaled@.take(i + 1);
                assert(t.drop_last() =~= scaled@.take(i as int));
                assert(t.last() == scaled@[i as int]);
            }
            i = i + 1;
        }
        proof {
            assert(scaled@.take(scaled@.len() as int) =~= scaled@);
        }
        out.push(self.frame_delimiter as char);
        string_of(&out)
    }

    /// A binary frame: one byte per value (8-bit), or two bytes per value
    /// (16-bit) in the machine's byte order, the same order for every value.
    pub fn binary_frame(&self, scaled: &[u32]) -> (bytes: Vec<u8>)
        requires
            forall|i: int| 0 <= i < scaled@.len() ==> scaled@[i] <= match self.bit_format {
                BitFormat::Bits8 => 255int,
                BitFormat::Bits16 => 65535int,
            },
        ensures
            self.bit_format == BitFormat::Bits8 ==> bytes@.len() == scaled@.len() && forall|i: int|
                0 <= i < scaled@.len() ==> bytes@[i] == scaled@[i],
            self.bit_format == BitFormat::Bits16 ==> bytes@.len() == 2 * scaled@.len() && exists|little: bool|
                #[trigger] words_in_order(scaled@, bytes@, little),
    {
        let mut out: Vec<u8> = Vec::new();
        let mut i: usize = 0;
        match self.bit_format {
            BitFormat::Bits8 => {
                while i < scaled.len()
                    invariant
                        0 <= i <= scaled@.len(),
                        self.bit_format == BitFormat::Bits8,
                        forall|k: int| 0 <= k < scaled@.len() ==> scaled@[k] <= 255,
                        out@.len() == i,
                        forall|k: int| 0 <= k < i ==> out@[k] == scaled@[k],
                    decreases scaled@.len() - i,
                {
                    out.push(scaled[i] as u8);
                    i = i + 1;
                }
            },
            BitFormat::Bits16 => {
                // The machine's byte order, read off the bytes of 0x0102.
                let (first, _second) = native_bytes(0x0102);
                let little = first == 2;
                while i < scaled.len()
                    invariant
                        0 <= i <= scaled@.len(),
                        self.bit_format == BitFormat::Bits16,
                        forall|k: int| 0 <= k < scaled@.len() ==> scaled@[k] <= 65535,
                        out@.len() == 2 * i,
                        forall|k: int| 0 <= k < i ==> #[trigger] u16_bytes(scaled@[k] as nat, little)
                            == (out@[2 * k], out@[2 * k + 1]),
                    decreases scaled@.len() - i,
                {
                    let w = scaled[i];
                    let lo = (w % 256) as u8;
                    let hi = (w / 256) as u8;
                    if little {
                        out.push(lo);
                        out.push(hi);
                    } else {
                        out.push(hi);
                        out.push(lo);
                    }
                    proof {
                        assert forall|k: int| 0 <= k < i + 1 implies #[trigger] u16_bytes(scaled@[k] as nat, little)
                            == (out@[2 * k], out@[2 * k + 1]) by {
                            if k < i {
                                assert(u16_bytes(scaled@[k] as nat, little) == (out@[2 * k], out@[2 * k + 1]));
                            }
                        }
                    }
                    i = i + 1;
                }
                assert(words_in_order(scaled@, out@, little));
            },
        }
                out
    }
}

} // verus!
