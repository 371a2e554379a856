//! Eight-bit RGB colours.
use vstd::prelude::*;

use crate::pixel::PlainPixel;

verus! {

/// A colour with 8-bit red, green and blue components.
#[derive(Debug, Clone, Copy, PartialEq, Eq, Structural)]
pub struct Rgb {
    pub r: u8,
    pub g: u8,
    pub b: u8,
}

/// `a + b`, capped at 255.
pub open spec fn sat_add(a: u8, b: u8) -> u8 {
    if a + b > 255 {
        255
    } else {
        (a + b) as u8
    }
}

/// The mean of `a` and `b`, rounded down.
pub open spec fn mean(a: u8, b: u8) -> u8 {
    ((a + b) / 2) as u8
}

fn mean_u8(a: u8, b: u8) -> (r: u8)
    ensures
        r == mean(a, b),
{
    ((a as u16 + b as u16) / 2) as u8
}

impl Rgb {
    /// The colour with the given components.
    pub fn new(r: u8, g: u8, b: u8) -> (c: Rgb)
        ensures
            c == (Rgb { r, g, b }),
    {
        Rgb { r, g, b }
    }

    /// Component-wise sum, each component capped at 255.
    pub fn add(&self, rhs: Rgb) -> (c: Rgb)
        ensures
            c == (Rgb {
                r: sat_add(self.r, rhs.r),
                g: sat_add(self.g, rhs.g),
                b: sat_add(self.b, rhs.b),
            }),
    {
        Rgb {
            r: self.r.saturating_add(rhs.r),
            g: self.g.saturating_add(rhs.g),
            b: self.b.saturating_add(rhs.b),
        }
    }

    /// Component-wise mean of two colours, rounded down.
    pub fn blend(&self, rhs: Rgb) -> (c: Rgb)
        ensures
            c == (Rgb { r: mean(self.r, rhs.r), g: mean(self.g, rhs.g), b: mean(self.b, rhs.b) }),
    {
        Rgb { r: mean_u8(self.r, rhs.r), g: mean_u8(self.g, rhs.g), b: mean_u8(self.b, rhs.b) }
    }
}

impl Default for Rgb {
    /// Black.
    fn default() -> (c: Rgb)
        ensures
            c == (Rgb { r: 0, g: 0, b: 0 }),
    {
        Rgb { r: 0, g: 0, b: 0 }
    }
}

/// Three bytes: red, green, blue.
impl PlainPixel for Rgb {
    open spec fn byte_width() -> nat {
        3
    }

    open spec fn encode(&self) -> Seq<u8> {
        seq![self.r, self.g, self.b]
    }

    open spec fn decode(b: Seq<u8>) -> Rgb {
        Rgb { r: b[0], g: b[1], b: b[2] }
    }

    proof fn lemma_round_trip(v: Rgb) {
    }

    fn size() -> (r: usize) {
        3
    }

    fn push_bytes(&self, out: &mut Vec<u8>) {
        out.push(self.r);
        out.push(self.g);
        out.push(self.b);
        assert(final(out)@ =~= old(out)@ + self.encode());
    }

    fn read_bytes(b: &[u8], at: usize) -> (r: Rgb) {
        Rgb { r: b[at], g: b[at + 1], b: b[at + 2] }
    }
}

} // verus!
