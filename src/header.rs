//! The fixed 16-byte container header, decoded field by field.
//!
//! Layout, by byte offset: 0..4 signature (big-endian, the ASCII bytes `MIDG`),
//! 4..6 width, 6..8 height, 8 flags, 9 mipmap count, 10..12 unique colours,
//! 12..16 checksum. Multi-byte fields other than the signature are little-endian.
use vstd::prelude::*;

use crate::checksum::{header_checksum, lemma_bit_flip_changes_checksum, two_pass_checksum};

verus! {

/// Size in bytes of the header at the start of a container.
pub const HEADER_SIZE: usize = 16;

/// The signature `MIDG`, packed most significant byte first.
pub const SIG: u32 = 0x4D494447;

/// Flag bit marking an extended header; it forbids a zero width or height.
pub const FLAG_EXTENDED_HEADER: u8 = 8;

/// A decoded container header.
#[derive(Debug, Clone, Copy, PartialEq, Eq, Structural)]
pub struct GDImageHeader {
    pub signature: u32,
    pub width: u16,
    pub height: u16,
    pub flags: u8,
    pub mipmap_count: u8,
    pub unique_colors: u16,
    pub checksum: u32,
}

/// Little-endian 16-bit value at `off`.
pub open spec fn u16_le(b: Seq<u8>, off: int) -> u16 {
    (b[off] as int + 256 * b[off + 1] as int) as u16
}

/// Little-endian 32-bit value at `off`.
pub open spec fn u32_le(b: Seq<u8>, off: int) -> u32 {
    (b[off] as int + 0x100 * b[off + 1] as int + 0x10000 * b[off + 2] as int + 0x1000000 * b[
        off + 3
    ] as int) as u32
}

/// Big-endian 32-bit value at `off`.
pub open spec fn u32_be(b: Seq<u8>, off: int) -> u32 {
    (0x1000000 * b[off] as int + 0x10000 * b[off + 1] as int + 0x100 * b[off + 2] as int + b[off
        + 3] as int) as u32
}

/// The header held by the first `HEADER_SIZE` bytes of `b`.
pub open spec fn header_of(b: Seq<u8>) -> GDImageHeader {
    GDImageHeader {
        signature: u32_be(b, 0),
        width: u16_le(b, 4),
        height: u16_le(b, 6),
        flags: b[8],
        mipmap_count: b[9],
        unique_colors: u16_le(b, 10),
        checksum: u32_le(b, 12),
    }
}

/// The bytes that the checksum covers: width through unique colours.
pub open spec fn checked_bytes(b: Seq<u8>) -> Seq<u8> {
    b.subrange(4, 12)
}

/// Whether `b` starts with a valid container header.
pub open spec fn header_valid(b: Seq<u8>) -> bool {
    &&& b.len() >= HEADER_SIZE
    &&& header_of(b).signature == SIG
    &&& header_of(b).checksum == header_checksum(checked_bytes(b))
    &&& !((header_of(b).width == 0 || header_of(b).height == 0) && header_of(b).flags
        & FLAG_EXTENDED_HEADER != 0)
}

impl Default for GDImageHeader {
    /// An empty header that carries the signature and zero everywhere else.
    fn default() -> (r: GDImageHeader)
        ensures
            r == (GDImageHeader {
                signature: SIG,
                width: 0,
                height: 0,
                flags: 0,
                mipmap_count: 0,
                unique_colors: 0,
                checksum: 0,
            }),
    {
        GDImageHeader {
            signature: SIG,
            width: 0,
            height: 0,
            flags: 0,
            mipmap_count: 0,
            unique_colors: 0,
            checksum: 0,
        }
    }
}

fn read_u16_le(b: &[u8], off: usize) -> (r: u16)
    requires
        off + 2 <= b@.len(),
    ensures
        r == u16_le(b@, off as int),
{
    b[off] as u16 + (b[off + 1] as u16) * 256
}

fn read_u32_le(b: &[u8], off: usize) -> (r: u32)
    requires
        off + 4 <= b@.len(),
    ensures
        r == u32_le(b@, off as int),
{
    b[off] as u32 + (b[off + 1] as u32) * 0x100 + (b[off + 2] as u32) * 0x10000 + (b[off
        + 3] as u32) * 0x1000000
}

fn read_u32_be(b: &[u8], off: usize) -> (r: u32)
    requires
        off + 4 <= b@.len(),
    ensures
        r == u32_be(b@, off as int),
{
    (b[off] as u32) * 0x1000000 + (b[off + 1] as u32) * 0x10000 + (b[off + 2] as u32) * 0x100
        + b[off + 3] as u32
}

impl GDImageHeader {
    /// Decodes the header from the first `HEADER_SIZE` bytes of `data`.
    pub fn decode(data: &[u8]) -> (r: GDImageHeader)
        requires
            data@.len() >= HEADER_SIZE,
        ensures
            r == header_of(data@),
    {
        GDImageHeader {
            signature: read_u32_be(data, 0),
            width: read_u16_le(data, 4),
            height: read_u16_le(data, 6),
            flags: data[8],
            mipmap_count: data[9],
            unique_colors: read_u16_le(data, 10),
            checksum: read_u32_le(data, 12),
        }
    }
}

/// Recomputes the checksum of the header at the start of `data`.
pub fn header_checksum_of(data: &[u8]) -> (r: u32)
    requires
        data@.len() >= 12,
    ensures
        r == header_checksum(checked_bytes(data@)),
{
    two_pass_checksum(&data[4..12])
}

/// Whether `data` starts with a valid container header: long enough, with the
/// signature, with a checksum that matches the recomputed one, and with no zero
/// dimension where the extended-header flag is set.
pub fn fast_image_check(data: &[u8]) -> (r: bool)
    ensures
        r == header_valid(data@),
{
    if data.len() < HEADER_SIZE {
        return false;
    }
    let header = GDImageHeader::decode(data);
    if header.signature != SIG {
        return false;
    }
    if header.checksum != header_checksum_of(data) {
        return false;
    }
    if (header.width == 0 || header.height == 0) && (header.flags & FLAG_EXTENDED_HEADER) != 0 {
        return false;
    }
    true
}

/// Smallest container file that the file check accepts.
pub const MIN_FILE_SIZE: u64 = 21;

/// Decision of the fast check on a file of `file_len` bytes whose first bytes
/// are `prefix`: the file is long enough and starts with a valid header.
pub fn fast_file_check(file_len: u64, prefix: &[u8]) -> (r: bool)
    ensures
        r == (file_len >= MIN_FILE_SIZE && header_valid(prefix@)),
{
    if file_len < MIN_FILE_SIZE {
        return false;
    }
    fast_image_check(prefix)
}

/// No buffer shorter than a header holds a valid one.
pub proof fn lemma_short_buffer_invalid(b: Seq<u8>)
    requires
        b.len() < HEADER_SIZE,
    ensures
        !header_valid(b),
{
}

/// A header with the signature whose stored checksum is the one recomputed
/// from its own checked bytes is valid, unless it sets the extended-header flag
/// with a zero dimension.
pub proof fn lemma_sealed_header_valid(b: Seq<u8>)
    requires
        b.len() >= HEADER_SIZE,
        header_of(b).signature == SIG,
        header_of(b).checksum == header_checksum(checked_bytes(b)),
        !((header_of(b).width == 0 || header_of(b).height == 0) && header_of(b).flags
            & FLAG_EXTENDED_HEADER != 0),
    ensures
        header_valid(b),
{
}

/// Flipping any one bit of the checked bytes of a valid header, with the
/// stored checksum left as it is, makes it invalid.
pub proof fn lemma_bit_flip_invalid(b: Seq<u8>, i: int, j: u8)
    requires
        header_valid(b),
        4 <= i < 12,
        j < 8,
    ensures
        !header_valid(b.update(i, b[i] ^ (1u8 << j))),
{
    let flipped = b.update(i, b[i] ^ (1u8 << j));
    let mid = checked_bytes(b);
    lemma_bit_flip_changes_checksum(mid, i - 4, j);
    assert(checked_bytes(flipped) =~= mid.update(i - 4, mid[i - 4] ^ (1u8 << j)));
    assert(header_of(flipped).checksum == header_of(b).checksum);
}

} // verus!
