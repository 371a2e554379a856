//! Pixel types whose values can be written out as bytes and read back.
use vstd::prelude::*;

verus! {

/// A plain-data pixel: a fixed number of bytes holds each value, and reading
/// back the bytes written for a value gives that value.
pub trait PlainPixel: Sized {
    /// Number of bytes that hold one value.
    spec fn byte_width() -> nat;

    /// The bytes written for `self`.
    spec fn encode(&self) -> Seq<u8>;

    /// The value held by `byte_width()` bytes.
    spec fn decode(b: Seq<u8>) -> Self;

    /// Every value takes `byte_width()` bytes and reads back from them.
    proof fn lemma_round_trip(v: Self)
        ensures
            v.encode().len() == Self::byte_width(),
            Self::decode(v.encode()) == v,
    ;

    /// Number of bytes that hold one value.
    fn size() -> (r: usize)
        ensures
            r == Self::byte_width(),
            r <= 0xFFFF_FFFF,
    ;

    /// Appends the bytes of `self` to `out`.
    fn push_bytes(&self, out: &mut Vec<u8>)
        ensures
            final(out)@ == old(out)@ + self.encode(),
    ;

    /// Reads the value held by the `byte_width()` bytes of `b` from `at`.
    fn read_bytes(b: &[u8], at: usize) -> (r: Self)
        requires
            at + Self::byte_width() <= b@.len(),
        ensures
            r == Self::decode(b@.subrange(at as int, at + Self::byte_width())),
    ;
}

impl PlainPixel for u8 {
    open spec fn byte_width() -> nat {
        1
    }

    open spec fn encode(&self) -> Seq<u8> {
        seq![*self]
    }

    open spec fn decode(b: Seq<u8>) -> u8 {
        b[0]
    }

    proof fn lemma_round_trip(v: u8) {
    }

    fn size() -> (r: usize) {
        1
    }

    fn push_bytes(&self, out: &mut Vec<u8>) {
        out.push(*self);
    }

    fn read_bytes(b: &[u8], at: usize) -> (r: u8) {
        b[at]
    }
}

/// Little-endian: low byte first.
impl PlainPixel for u16 {
    open spec fn byte_width() -> nat {
        2
    }

    open spec fn encode(&self) -> Seq<u8> {
        seq![(*self % 0x100) as u8, (*self / 0x100) as u8]
    }

    open spec fn decode(b: Seq<u8>) -> u16 {
        (b[0] as int + 0x100 * b[1] as int) as u16
    }

    proof fn lemma_round_trip(v: u16) {
        let e = v.encode();
        assert(Self::decode(e) == v);
    }

    fn size() -> (r: usize) {
        2
    }

    fn push_bytes(&self, out: &mut Vec<u8>) {
        out.push((*self % 0x100) as u8);
        out.push((*self / 0x100) as u8);
        assert(final(out)@ =~= old(out)@ + self.encode());
    }

    fn read_bytes(b: &[u8], at: usize) -> (r: u16) {
        b[at] as u16 + (b[at + 1] as u16) * 0x100
    }
}

/// Little-endian: low byte first.
impl PlainPixel for u32 {
    open spec fn byte_width() -> nat {
        4
    }

    open spec fn encode(&self) -> Seq<u8> {
        seq![
            (*self % 0x100) as u8,
            (*self / 0x100 % 0x100) as u8,
            (*self / 0x10000 % 0x100) as u8,
            (*self / 0x1000000) as u8,
        ]
    }

    open spec fn decode(b: Seq<u8>) -> u32 {
        (b[0] as int + 0x100 * b[1] as int + 0x10000 * b[2] as int + 0x1000000 * b[3] as int) as u32
    }

    proof fn lemma_round_trip(v: u32) {
        let e = v.encode();
        assert(Self::decode(e) == v);
    }

    fn size() -> (r: usize) {
        4
    }

    fn push_bytes(&self, out: &mut Vec<u8>) {
        out.push((*self % 0x100) as u8);
        out.push((*self / 0x100 % 0x100) as u8);
        out.push((*self / 0x10000 % 0x100) as u8);
        out.push((*self / 0x1000000) as u8);
        assert(final(out)@ =~= old(out)@ + self.encode());
    }

    fn read_bytes(b: &[u8], at: usize) -> (r: u32) {
        b[at] as u32 + (b[at + 1] as u32) * 0x100 + (b[at + 2] as u32) * 0x10000 + (b[at
            + 3] as u32) * 0x1000000
    }
}

} // verus!
