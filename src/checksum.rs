//! The cyclic-redundancy accumulator used by the container header.
use vstd::prelude::*;

verus! {

/// Value folded into the state whenever bit 15 is shifted out.
pub const CRC_POLY: u32 = 0x1021F;

/// One shift round of the accumulator.
pub open spec fn crc_round(c: u32) -> u32 {
    if c & 0x8000u32 != 0 {
        ((c << 1u32) ^ 0x1021Fu32) as u32
    } else {
        (c << 1u32) as u32
    }
}

/// `n` shift rounds applied one after another.
pub open spec fn crc_rounds(c: u32, n: nat) -> u32
    decreases n,
{
    if n == 0 {
        c
    } else {
        crc_round(crc_rounds(c, (n - 1) as nat))
    }
}

/// Folds one byte into the state: XOR it into bits 8..16, then eight rounds.
pub open spec fn crc_byte(c: u32, b: u8) -> u32 {
    crc_rounds(c ^ ((b as u32) << 8u32), 8)
}

/// The state after folding every byte of `s`, in order, starting from `c`.
pub open spec fn crc_accumulate(c: u32, s: Seq<u8>) -> u32
    decreases s.len(),
{
    if s.len() == 0 {
        c
    } else {
        crc_byte(crc_accumulate(c, s.drop_last()), s.last())
    }
}

/// Folds the first `len` bytes of `block` into the running state `curcrc`.
pub fn calc_crc16_1021f(curcrc: u32, block: &[u8], len: usize) -> (r: u32)
    requires
        len <= block@.len(),
    ensures
        r == crc_accumulate(curcrc, block@.take(len as int)),
{
    let mut crc: u32 = curcrc;
    let mut i: usize = 0;
    while i < len
        invariant
            i <= len,
            len <= block@.len(),
            crc == crc_accumulate(curcrc, block@.take(i as int)),
        decreases len - i,
    {
        let ghost before = crc;
        crc = crc ^ ((block[i] as u32) << 8u32);
        let mut k: usize = 0;
        while k < 8
            invariant
                k <= 8,
                crc == crc_rounds(before ^ ((block@[i as int] as u32) << 8u32), k as nat),
            decreases 8 - k,
        {
            if (crc & 0x8000) != 0 {
                crc = (crc << 1u32) ^ CRC_POLY;
            } else {
                crc = crc << 1u32;
            }
            k = k + 1;
        }
        assert(block@.take(i + 1).drop_last() =~= block@.take(i as int));
        i = i + 1;
    }
    crc
}

/// The header checksum over its eight middle bytes: the accumulator is run over
/// them from zero, then run over them again from where it stopped; the first
/// result fills the high half and the low 16 bits of the second the low half.
pub open spec fn header_checksum(mid: Seq<u8>) -> u32 {
    let first = crc_accumulate(0, mid);
    let second = crc_accumulate(first, mid);
    ((first << 16u32) | (second & 0xFFFFu32)) as u32
}

/// Computes `header_checksum` over the eight bytes of `mid`.
pub fn two_pass_checksum(mid: &[u8]) -> (r: u32)
    requires
        mid@.len() == 8,
    ensures
        r == header_checksum(mid@),
{
    assert(mid@.take(8) =~= mid@);
    let first = calc_crc16_1021f(0, mid, 8);
    let second = calc_crc16_1021f(first, mid, 8);
    (first << 16u32) | (second & 0xFFFF)
}

/// Element-wise XOR of two byte sequences of one length.
pub open spec fn xor_bytes(s: Seq<u8>, t: Seq<u8>) -> Seq<u8> {
    Seq::new(s.len(), |i: int| s[i] ^ t[i])
}

/// Shift rounds distribute over XOR.
proof fn lemma_round_xor(a: u32, b: u32)
    ensures
        crc_round(a ^ b) == crc_round(a) ^ crc_round(b),
{
    let c = a ^ b;
    assert((if c & 0x8000u32 != 0 {
        (c << 1u32) ^ 0x1021Fu32
    } else {
        c << 1u32
    }) == (if a & 0x8000u32 != 0 {
        (a << 1u32) ^ 0x1021Fu32
    } else {
        a << 1u32
    }) ^ (if b & 0x8000u32 != 0 {
        (b << 1u32) ^ 0x1021Fu32
    } else {
        b << 1u32
    })) by (bit_vector)
        requires
            c == a ^ b,
    ;
}

proof fn lemma_rounds_xor(a: u32, b: u32, n: nat)
    ensures
        crc_rounds(a ^ b, n) == crc_rounds(a, n) ^ crc_rounds(b, n),
    decreases n,
{
    if n > 0 {
        lemma_rounds_xor(a, b, (n - 1) as nat);
        lemma_round_xor(crc_rounds(a, (n - 1) as nat), crc_rounds(b, (n - 1) as nat));
    }
}

proof fn lemma_byte_xor(a: u32, b: u32, x: u8, y: u8)
    ensures
        crc_byte(a ^ b, x ^ y) == crc_byte(a, x) ^ crc_byte(b, y),
{
    let z = x ^ y;
    assert((a ^ b) ^ ((z as u32) << 8u32) == (a ^ ((x as u32) << 8u32)) ^ (b ^ ((y as u32)
        << 8u32))) by (bit_vector)
        requires
            z == x ^ y,
    ;
    lemma_rounds_xor(a ^ ((x as u32) << 8u32), b ^ ((y as u32) << 8u32), 8);
}

/// The accumulator is linear: running it over the XOR of two inputs from the
/// XOR of two states gives the XOR of the two runs.
pub proof fn lemma_accumulate_xor(a: u32, b: u32, s: Seq<u8>, t: Seq<u8>)
    requires
        s.len() == t.len(),
    ensures
        crc_accumulate(a ^ b, xor_bytes(s, t)) == crc_accumulate(a, s) ^ crc_accumulate(b, t),
    decreases s.len(),
{
    if s.len() > 0 {
        assert(xor_bytes(s, t).drop_last() =~= xor_bytes(s.drop_last(), t.drop_last()));
        lemma_accumulate_xor(a, b, s.drop_last(), t.drop_last());
        lemma_byte_xor(
            crc_accumulate(a, s.drop_last()),
            crc_accumulate(b, t.drop_last()),
            s.last(),
            t.last(),
        );
    }
}

/// A round keeps a state below `2^16` there, and keeps it nonzero.
proof fn lemma_round_small(c: u32)
    requires
        c < 0x10000,
    ensures
        crc_round(c) < 0x10000,
        c != 0 ==> crc_round(c) != 0,
{
    assert((if c & 0x8000u32 != 0 {
        (c << 1u32) ^ 0x1021Fu32
    } else {
        c << 1u32
    }) < 0x10000u32) by (bit_vector)
        requires
            c < 0x10000u32,
    ;
    assert(c != 0 ==> (if c & 0x8000u32 != 0 {
        (c << 1u32) ^ 0x1021Fu32
    } else {
        c << 1u32
    }) != 0u32) by (bit_vector)
        requires
            c < 0x10000u32,
    ;
}

proof fn lemma_rounds_small(c: u32, n: nat)
    requires
        c < 0x10000,
    ensures
        crc_rounds(c, n) < 0x10000,
        c != 0 ==> crc_rounds(c, n) != 0,
    decreases n,
{
    if n > 0 {
        lemma_rounds_small(c, (n - 1) as nat);
        lemma_round_small(crc_rounds(c, (n - 1) as nat));
    }
}

proof fn lemma_byte_small(c: u32, b: u8)
    requires
        c < 0x10000,
    ensures
        crc_byte(c, b) < 0x10000,
        c != 0 && b == 0 ==> crc_byte(c, b) != 0,
        c == 0 && b != 0 ==> crc_byte(c, b) != 0,
{
    assert(c ^ ((b as u32) << 8u32) < 0x10000u32) by (bit_vector)
        requires
            c < 0x10000u32,
    ;
    assert(b == 0 ==> c ^ ((b as u32) << 8u32) == c) by (bit_vector);
    assert(c == 0 && b != 0 ==> c ^ ((b as u32) << 8u32) != 0u32) by (bit_vector);
    lemma_rounds_small(c ^ ((b as u32) << 8u32), 8);
}

/// From a state below `2^16` the accumulator stays below `2^16`.
pub proof fn lemma_accumulate_small(c: u32, s: Seq<u8>)
    requires
        c < 0x10000,
    ensures
        crc_accumulate(c, s) < 0x10000,
    decreases s.len(),
{
    if s.len() > 0 {
        lemma_accumulate_small(c, s.drop_last());
        lemma_byte_small(crc_accumulate(c, s.drop_last()), s.last());
    }
}

/// A sequence of zero bytes except for one bit of byte `i`.
pub open spec fn single_bit(len: nat, i: int, j: u8) -> Seq<u8> {
    Seq::new(len, |k: int| if k == i { (1u8 << j) as u8 } else { 0u8 })
}

proof fn lemma_single_bit_prefix(len: nat, i: int, j: u8, m: int)
    requires
        0 <= i < len,
        j < 8,
        0 <= m <= len,
    ensures
        crc_accumulate(0, single_bit(len, i, j).take(m)) < 0x10000,
        m <= i ==> crc_accumulate(0, single_bit(len, i, j).take(m)) == 0,
        m > i ==> crc_accumulate(0, single_bit(len, i, j).take(m)) != 0,
    decreases m,
{
    let e = single_bit(len, i, j);
    if m > 0 {
        lemma_single_bit_prefix(len, i, j, m - 1);
        assert(e.take(m).drop_last() =~= e.take(m - 1));
        let prev = crc_accumulate(0, e.take(m - 1));
        if m - 1 == i {
            assert((1u8 << j) != 0u8) by (bit_vector)
                requires
                    j < 8u8,
            ;
        }
        lemma_byte_small(prev, e[m - 1]);
        if m - 1 < i {
            lemma_rounds_small(0, 8);
            assert(0u32 ^ ((0u8 as u32) << 8u32) == 0u32) by (bit_vector);
            lemma_rounds_zero(8);
        }
    }
}

proof fn lemma_rounds_zero(n: nat)
    ensures
        crc_rounds(0, n) == 0,
    decreases n,
{
    if n > 0 {
        lemma_rounds_zero((n - 1) as nat);
        let c: u32 = 0;
        assert((if c & 0x8000u32 != 0 {
            (c << 1u32) ^ 0x1021Fu32
        } else {
            c << 1u32
        }) == 0u32) by (bit_vector)
            requires
                c == 0u32,
        ;
    }
}

/// Flipping one bit of the checked bytes changes the header checksum.
pub proof fn lemma_bit_flip_changes_checksum(mid: Seq<u8>, i: int, j: u8)
    requires
        0 <= i < mid.len(),
        j < 8,
    ensures
        header_checksum(mid.update(i, mid[i] ^ (1u8 << j))) != header_checksum(mid),
{
    let e = single_bit(mid.len(), i, j);
    let flipped = mid.update(i, mid[i] ^ (1u8 << j));
    assert forall|k: int| 0 <= k < mid.len() implies #[trigger] xor_bytes(mid, e)[k]
        == flipped[k] by {
        if k != i {
            let v = mid[k];
            assert(v ^ 0u8 == v) by (bit_vector);
        }
    }
    assert(xor_bytes(mid, e) =~= flipped);
    assert(0u32 ^ 0u32 == 0u32) by (bit_vector);
    lemma_accumulate_xor(0, 0, mid, e);
    lemma_single_bit_prefix(mid.len(), i, j, mid.len() as int);
    assert(e.take(mid.len() as int) =~= e);
    let p = crc_accumulate(0, mid);
    let q = crc_accumulate(0, e);
    let pf = crc_accumulate(0, flipped);
    assert(pf == p ^ q);
    assert(q != 0 ==> p ^ q != p) by (bit_vector);
    lemma_accumulate_small(0, mid);
    lemma_accumulate_small(0, flipped);
    let x = crc_accumulate(p, mid);
    let y = crc_accumulate(pf, flipped);
    assert(((pf << 16u32) | (y & 0xFFFFu32)) != ((p << 16u32) | (x & 0xFFFFu32))) by (bit_vector)
        requires
            p < 0x10000u32,
            pf < 0x10000u32,
            pf != p,
    ;
}

} // verus!
